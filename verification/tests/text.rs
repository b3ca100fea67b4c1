use whyslow::duration::{format_duration, format_wall_time, wall_seconds, LocalTime};
use whyslow::text::{push_decimal, push_hexadecimal, push_zero_padded};

#[test]
fn numbers_are_written_as_by_the_formatter() {
    let mut samples: Vec<u64> = vec![0, 9, 10, 15, 16, 255, 256, 999, 1000, u64::MAX, u64::MAX - 1];
    for shift in 0..64u32 {
        samples.push(1u64 << shift);
        samples.push((1u64 << shift) - 1);
    }
    for n in samples {
        let mut decimal = String::from("<");
        push_decimal(&mut decimal, n);
        assert_eq!(decimal, format!("<{n}"));
        let mut hex = String::from("0x");
        push_hexadecimal(&mut hex, n);
        assert_eq!(hex, format!("{n:#x}"));
        let mut padded = String::new();
        push_zero_padded(&mut padded, n, 3);
        assert_eq!(padded, format!("{n:03}"));
    }
}

#[test]
fn short_durations_are_cut_to_whole_units() {
    assert_eq!(format_duration(0), "0ns");
    assert_eq!(format_duration(999), "999ns");
    assert_eq!(format_duration(1_000), "1\u{b5}s");
    assert_eq!(format_duration(999_999), "999\u{b5}s");
    assert_eq!(format_duration(1_000_000), "1ms");
    assert_eq!(format_duration(412_345_678), "412ms");
    assert_eq!(format_duration(999_999_999), "999ms");
}

#[test]
fn seconds_have_two_places() {
    assert_eq!(format_duration(1_000_000_000), "1.00s");
    assert_eq!(format_duration(1_234_567_890), "1.23s");
    assert_eq!(format_duration(59_999_999_999), "60.00s");
    // Halves of a hundredth that double precision can hold go to the even one.
    assert_eq!(format_duration(1_125_000_000), "1.12s");
    assert_eq!(format_duration(1_375_000_000), "1.38s");
    // Others are a little above or below the half.
    assert_eq!(format_duration(1_005_000_000), "1.00s");
    assert_eq!(format_duration(u64::MAX), "18446744073.71s");
}

fn in_double_precision(ns: u64) -> String {
    format!("{:.2}s", ns as f64 / 1_000_000_000.0)
}

#[test]
fn seconds_are_those_of_double_precision() {
    for k in 0..40_000u64 {
        let half = 1_000_000_000 + k * 5_000_000;
        for ns in [half - 1, half, half + 1] {
            if ns >= 1_000_000_000 {
                assert_eq!(format_duration(ns), in_double_precision(ns));
            }
        }
    }
    for shift in 30..64u32 {
        for offset in 0..200u64 {
            let ns = (1u64 << shift) - 100 + offset;
            assert_eq!(format_duration(ns), in_double_precision(ns));
        }
    }
    let mut state: u64 = 0x9e37_79b9_7f4a_7c15;
    for round in 0..200_000u32 {
        state = state.wrapping_mul(6364136223846793005).wrapping_add(1442695040888963407);
        let ns = (state >> (round % 34)) | 0x4000_0000;
        assert_eq!(format_duration(ns), in_double_precision(ns));
        let tie = ns / 5_000_000 * 5_000_000;
        if tie >= 1_000_000_000 {
            assert_eq!(format_duration(tie), in_double_precision(tie));
        }
    }
}

#[test]
fn wall_time_has_milliseconds() {
    let local = LocalTime { hour: 14, minute: 32, second: 7 };
    assert_eq!(format_wall_time(local, 1_700_000_000_001_999_999), "14:32:07.001");
    let early = LocalTime { hour: 0, minute: 5, second: 9 };
    assert_eq!(format_wall_time(early, 999_999_999), "00:05:09.999");
    assert_eq!(wall_seconds(1_700_000_000_999_999_999), 1_700_000_000);
}
