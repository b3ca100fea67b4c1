use whyslow::causal::{chain_report, explain, link_name, slowest_stalls, Chain, DevNames};
use whyslow::chain::{Blocker, Hop};
use whyslow::duration::LocalTime;
use whyslow::event::{
    pack_block_key, EVENT_BLOCK_IO, EVENT_FUTEX_WAIT, EVENT_FUTEX_WAKE, EVENT_SCHED_BLOCK,
};
use whyslow::matching::{Cause, Typed};
use whyslow::trace::{TraceEvent, TraceFile};

const MS: u64 = 1_000_000;

fn event(event_type: u8, tid: u32, timestamp_ns: u64, duration_ns: u64, key: u64) -> TraceEvent {
    TraceEvent {
        timestamp_ns,
        duration_ns,
        key,
        pid: 4800,
        tid,
        event_type,
        comm: String::from("worker"),
    }
}

fn block(tid: u32, ts: u64, dur: u64) -> TraceEvent {
    event(EVENT_SCHED_BLOCK, tid, ts, dur, 0)
}

fn wait(tid: u32, ts: u64, dur: u64, key: u64) -> TraceEvent {
    event(EVENT_FUTEX_WAIT, tid, ts, dur, key)
}

fn wake(tid: u32, ts: u64, dur: u64, key: u64) -> TraceEvent {
    event(EVENT_FUTEX_WAKE, tid, ts, dur, key)
}

fn io(tid: u32, ts: u64, dur: u64, dev: u32, sector: u64) -> TraceEvent {
    event(EVENT_BLOCK_IO, tid, ts, dur, pack_block_key(dev, sector))
}

fn file(events: Vec<TraceEvent>) -> TraceFile {
    TraceFile {
        realtime_anchor_ns: 1_700_000_000_000_000_000,
        monotonic_anchor_ns: 1_000_000_000,
        events,
    }
}

fn noon(n: usize) -> Vec<LocalTime> {
    vec![LocalTime { hour: 12, minute: 0, second: 0 }; n]
}

fn lines(chain: &Chain) -> Vec<&str> {
    chain.lines.iter().map(|l| l.as_str()).collect()
}

#[test]
fn readme_chain() {
    let resume = 2_000 * MS;
    let mut trace = file(vec![
        io(4809, resume - 2 * MS, 380 * MS, 0x1030_0002, 88213),
        wake(4809, resume - MS, 10_000, 0x7f2a_3c00_1000),
        block(4821, resume, 412 * MS),
        wait(4821, resume + 20_000, 412 * MS + 30_000, 0x7f2a_3c00_1000),
    ]);
    // The stall begins 1 ms past the second 1700000000.
    trace.monotonic_anchor_ns = resume - 412 * MS - MS;
    let stalls = slowest_stalls(&trace, 3);
    assert_eq!(stalls.len(), 1);
    assert_eq!(stalls[0].wall_ns, 1_700_000_000_001_000_000);
    assert_eq!(stalls[0].devices(), vec![0x1030_0002]);
    let mut names = DevNames::new();
    names.name(0x1030_0002, Some(String::from("nvme0n1p2")));
    let local = vec![LocalTime { hour: 14, minute: 32, second: 7 }];
    let chains = explain(&trace, 3, &local, &names);
    assert_eq!(chains.len(), 1);
    assert_eq!(
        lines(&chains[0]),
        vec![
            "14:32:07.001 \u{2014} tid 4821 blocked 412ms on futex 0x7f2a3c001000",
            " \u{2190} woken by tid 4809",
            " \u{2190} tid 4809 blocked 380ms on block I/O (dev nvme0n1p2, sector 88213)",
        ]
    );
}

#[test]
fn block_io_stall_is_its_own_root() {
    let trace = file(vec![io(7, 100 * MS - 5 * MS, 40 * MS, 0x0080_0001, 12), block(7, 100 * MS, 41 * MS)]);
    let chains = explain(&trace, 1, &noon(1), &DevNames::new());
    assert_eq!(
        lines(&chains[0]),
        vec!["12:00:00.059 \u{2014} tid 7 blocked 41ms on block I/O (dev dev8:1, sector 12)"]
    );
}

#[test]
fn uncorrelated_stall_is_reported_as_such() {
    // Just outside the window on either side, and of another thread.
    let t = 1_000 * MS;
    let trace = file(vec![
        io(7, t - 5 * MS - 1, MS, 1, 1),
        io(8, t - MS, MS, 1, 1),
        wait(7, t + 5 * MS + 1, MS, 9),
        wait(7, t - 1, MS, 9),
        io(7, t + 1, MS, 1, 1),
        block(7, t, 2_500),
    ]);
    let chains = explain(&trace, 5, &noon(1), &DevNames::new());
    assert_eq!(
        lines(&chains[0]),
        vec!["12:00:00.999 \u{2014} tid 7 blocked 2\u{b5}s (no correlated cause found)"]
    );
}

#[test]
fn window_is_closed_on_both_sides() {
    let t = 1_000 * MS;
    let early = vec![io(7, t - 5 * MS, 3 * MS, 1, 1), block(7, t, MS)];
    let typed = Typed::partition(&early);
    assert!(matches!(typed.classify_resume_cause(7, t), Cause::BlockIo { io } if io.duration_ns == 3 * MS));
    let late = vec![wait(7, t + 5 * MS, 4 * MS, 1), block(7, t, MS)];
    let typed = Typed::partition(&late);
    assert!(matches!(typed.classify_resume_cause(7, t), Cause::Futex { wait } if wait.duration_ns == 4 * MS));
    let at = vec![wait(7, t, 6 * MS, 1)];
    let typed = Typed::partition(&at);
    assert!(matches!(typed.classify_resume_cause(7, t), Cause::Futex { .. }));
    assert!(matches!(typed.classify_prior_cause(7, t), Cause::Futex { .. }));
    assert!(matches!(typed.classify_prior_cause(7, t - 1), Cause::Unknown));
}

#[test]
fn closer_cause_wins_and_the_futex_wins_a_tie() {
    let t = 1_000 * MS;
    let events = vec![io(7, t - 100, MS, 1, 1), wait(7, t + 100, MS, 9)];
    assert!(matches!(Typed::partition(&events).classify_resume_cause(7, t), Cause::Futex { .. }));
    let events = vec![io(7, t - 99, MS, 1, 1), wait(7, t + 100, MS, 9)];
    assert!(matches!(Typed::partition(&events).classify_resume_cause(7, t), Cause::BlockIo { .. }));
    let events = vec![io(7, t - 50, MS, 1, 1), wait(7, t - 50, MS, 9)];
    assert!(matches!(Typed::partition(&events).classify_prior_cause(7, t), Cause::Futex { .. }));
    let events = vec![io(7, t - 49, MS, 1, 1), wait(7, t - 50, MS, 9)];
    assert!(matches!(Typed::partition(&events).classify_prior_cause(7, t), Cause::BlockIo { .. }));
}

#[test]
fn equally_near_candidates_go_by_the_order_of_recording() {
    let t = 1_000 * MS;
    let events = vec![
        wake(1, t, 10, 5),
        wake(2, t, 20, 5),
        wait(3, t, 30, 6),
        wait(3, t, 40, 6),
    ];
    let typed = Typed::partition(&events);
    assert_eq!(typed.waker(5, t).map(|w| w.tid), Some(2));
    assert_eq!(typed.waker(4, t).map(|w| w.tid), None);
    assert!(matches!(typed.classify_resume_cause(3, t), Cause::Futex { wait } if wait.duration_ns == 30));
    assert!(matches!(typed.classify_prior_cause(3, t), Cause::Futex { wait } if wait.duration_ns == 40));
}

#[test]
fn other_event_types_are_in_no_list() {
    let events = vec![event(4, 1, 1, 1, 1), block(1, 2, 1), event(255, 1, 3, 1, 1), wake(1, 4, 1, 1)];
    let typed = Typed::partition(&events);
    assert_eq!(typed.block, vec![1]);
    assert_eq!(typed.futex_wake, vec![3]);
    assert!(typed.futex_wait.is_empty() && typed.block_io.is_empty());
}

#[test]
fn waker_is_searched_from_the_start_of_its_wake() {
    // The I/O completes inside the wake syscall, so it is no cause of it.
    let t = 1_000 * MS;
    let trace = file(vec![
        io(2, t - 10, 7 * MS, 1, 1),
        wake(2, t, 1_000, 5),
        wait(1, t + 5, MS, 5),
        block(1, t, MS),
    ]);
    let stalls = slowest_stalls(&trace, 1);
    assert_eq!(stalls[0].blocker, Blocker::Futex { address: 5 });
    assert_eq!(stalls[0].hops, vec![Hop::WokenBy { tid: 2 }]);
    assert!(stalls[0].devices().is_empty());
}

#[test]
fn chain_goes_through_eight_wakers_at_most() {
    // Thread n waits on address n and is woken by thread n + 1.
    let top = 1_000 * MS;
    let mut events = vec![block(0, top, 50 * MS)];
    for n in 0..20u32 {
        let ts = top - n as u64 * MS;
        events.push(wait(n, ts, MS, n as u64));
        events.push(wake(n + 1, ts - 1_000, 100, n as u64));
    }
    let stalls = slowest_stalls(&file(events), 1);
    let hops = &stalls[0].hops;
    assert_eq!(hops.len(), 15);
    assert_eq!(hops[0], Hop::WokenBy { tid: 1 });
    assert_eq!(hops[1], Hop::OnFutex { tid: 1, duration_ns: MS, address: 1 });
    assert_eq!(hops[13], Hop::OnFutex { tid: 7, duration_ns: MS, address: 7 });
    assert_eq!(hops[14], Hop::WokenBy { tid: 8 });
}

#[test]
fn middle_of_a_chain_is_reported_as_a_futex_stall() {
    let t = 1_000 * MS;
    let trace = file(vec![
        io(3, t - 4 * MS, 900_000, 0x0080_0000, 5),
        wake(3, t - 3 * MS, 10, 0xb0),
        wait(2, t - 2 * MS, 3_000_000_000, 0xb0),
        wake(2, t - MS, 10, 0xa0),
        wait(1, t, MS, 0xa0),
        block(1, t, 1_500_000_000),
    ]);
    let chains = explain(&trace, 1, &noon(1), &DevNames::new());
    assert_eq!(
        lines(&chains[0]),
        vec![
            "12:00:00.000 \u{2014} tid 1 blocked 1.50s on futex 0xa0",
            " \u{2190} woken by tid 2",
            " \u{2190} tid 2 blocked 3.00s on futex 0xb0",
            " \u{2190} woken by tid 3",
            " \u{2190} tid 3 blocked 900\u{b5}s on block I/O (dev dev8:0, sector 5)",
        ]
    );
}

#[test]
fn longest_stalls_come_first_and_ties_stay_in_order() {
    let durations: Vec<u64> = vec![5, 9, 1, 9, 7, 9, 5, 3];
    let mut events = Vec::new();
    for (n, d) in durations.iter().enumerate() {
        events.push(block(n as u32, 1_000 * MS + n as u64, *d));
    }
    let trace = file(events);
    let tids: Vec<u32> = slowest_stalls(&trace, 100).iter().map(|s| s.tid).collect();
    assert_eq!(tids, vec![1, 3, 5, 4, 0, 6, 7, 2]);
    let tids: Vec<u32> = slowest_stalls(&trace, 3).iter().map(|s| s.tid).collect();
    assert_eq!(tids, vec![1, 3, 5]);
    assert!(slowest_stalls(&trace, 0).is_empty());
    assert!(slowest_stalls(&file(Vec::new()), 3).is_empty());
}

#[test]
fn large_traces_are_ranked_as_by_a_stable_sort() {
    let mut state: u64 = 42;
    let mut events = Vec::new();
    for n in 0..3_000u32 {
        state = state.wrapping_mul(6364136223846793005).wrapping_add(1442695040888963407);
        let kind = if state >> 62 == 0 { EVENT_FUTEX_WAKE } else { EVENT_SCHED_BLOCK };
        events.push(event(kind, n, n as u64, (state >> 33) % 50, 1));
    }
    let mut expected: Vec<&TraceEvent> = events.iter().filter(|e| e.event_type == EVENT_SCHED_BLOCK).collect();
    expected.sort_by(|a, b| b.duration_ns.cmp(&a.duration_ns));
    let expected: Vec<u32> = expected.iter().map(|e| e.tid).collect();
    let trace = file(events.clone());
    let got: Vec<u32> = slowest_stalls(&trace, 10_000).iter().map(|s| s.tid).collect();
    assert_eq!(got, expected);
}

#[test]
fn stall_longer_than_its_stamp_starts_at_zero() {
    let mut trace = file(vec![block(1, 500, 900)]);
    trace.realtime_anchor_ns = 2_000_000_000;
    trace.monotonic_anchor_ns = 500_000_000;
    assert_eq!(slowest_stalls(&trace, 1)[0].wall_ns, 1_500_000_000);
}

#[test]
fn device_names_are_remembered() {
    let mut names = DevNames::new();
    let sda1 = 0x0080_0001;
    assert_eq!(DevNames::link_path(sda1), "/sys/dev/block/8:1");
    assert!(!names.knows(sda1));
    assert_eq!(names.known_name(sda1), "dev8:1");
    assert_eq!(names.name(sda1, Some(String::from("sda1"))), "sda1");
    assert!(names.knows(sda1));
    assert_eq!(names.name(sda1, Some(String::from("sdb1"))), "sda1");
    assert_eq!(names.name(sda1, None), "sda1");
    assert_eq!(names.known_name(sda1), "sda1");
    assert_eq!(names.name(0xfff0_0000 + 0xfffff, None), "dev4095:1048575");
    assert_eq!(names.name(0xfff0_0000 + 0xfffff, Some(String::from("late"))), "dev4095:1048575");
}

#[test]
fn report_separates_chains_by_an_empty_line() {
    assert_eq!(
        chain_report(&Vec::new()),
        vec!["whyslow: no blocked intervals recorded (process may not have stalled, or trace is empty)"]
    );
    let chains = vec![
        Chain { lines: vec![String::from("a"), String::from("b")] },
        Chain { lines: vec![String::from("c")] },
        Chain { lines: vec![String::from("d")] },
    ];
    assert_eq!(chain_report(&chains), vec!["a", "b", "", "c", "", "d"]);
}

#[test]
fn waker_is_explained_by_the_last_thing_that_held_it_up() {
    // The wake of thread 2 runs from 1_000_000 to 1_000_100.
    let chain_with = |events: Vec<TraceEvent>| {
        let mut all = vec![
            block(1, 1_000_200, 500_000),
            wait(1, 1_000_300, 500_000, 0xa0),
            wake(2, 1_000_100, 100, 0xa0),
        ];
        all.extend(events);
        slowest_stalls(&file(all), 1).remove(0).hops
    };
    let on_io = Hop::OnBlockIo { tid: 2, duration_ns: 70, dev: 3, sector: 9 };
    let on_futex = Hop::OnFutex { tid: 2, duration_ns: 80, address: 0xb0 };
    let later_io = chain_with(vec![wait(2, 900_000, 80, 0xb0), io(2, 950_000, 70, 3, 9)]);
    assert_eq!(later_io, vec![Hop::WokenBy { tid: 2 }, on_io]);
    let later_wait = chain_with(vec![wait(2, 950_000, 80, 0xb0), io(2, 900_000, 70, 3, 9)]);
    assert_eq!(later_wait, vec![Hop::WokenBy { tid: 2 }, on_futex]);
    let tie = chain_with(vec![io(2, 950_000, 70, 3, 9), wait(2, 950_000, 80, 0xb0)]);
    assert_eq!(tie, vec![Hop::WokenBy { tid: 2 }, on_futex]);
    let neither = chain_with(vec![io(2, 1_000_050, 70, 3, 9), wait(3, 950_000, 80, 0xb0)]);
    assert_eq!(neither, vec![Hop::WokenBy { tid: 2 }]);
}

#[test]
fn only_listed_devices_are_named() {
    let trace = file(vec![
        block(1, 1_000_200, 500_000),
        wait(1, 1_000_300, 500_000, 0xa0),
        wake(2, 1_000_100, 100, 0xa0),
        io(2, 950_000, 70, 3, 9),
    ]);
    assert_eq!(slowest_stalls(&trace, 1)[0].devices(), vec![3]);
    let mut few = DevNames::new();
    few.name(3, Some("sda".to_string()));
    let mut many = DevNames::new();
    many.name(3, Some("sda".to_string()));
    many.name(4, Some("sdb".to_string()));
    let times = noon(1);
    let a = explain(&trace, 1, &times, &few);
    let b = explain(&trace, 1, &times, &many);
    assert_eq!(a[0].lines, b[0].lines);
    assert!(a[0].lines[2].contains("(dev sda, sector 9)"));
}

#[test]
fn link_gives_the_last_component_of_its_target() {
    let target = "../../devices/pci0000:00/0000:00:1d.0/nvme/nvme0/nvme0n1/nvme0n1p2";
    assert_eq!(link_name(target).as_deref(), Some("nvme0n1p2"));
    assert_eq!(link_name("..").as_deref(), None);
    let paths = [
        "", ".", "..", "/", "//", "/.", "/..", "./", "./.", "../", "...", "a", "a/", "a//", "a/.",
        "a/./", "a/..", "a/../", "a/b", "a/b/.", "a/b/./.", "/a", "//a//", "./a", "../a", "a.b",
        ".a", "a.", "..a", "a/..b", "a/b..", "a/...", "\u{b5}/\u{2014}x", "\u{2014}/", "a/\u{fffd}",
    ];
    for path in paths {
        let expected = std::path::Path::new(path).file_name().map(|f| f.to_string_lossy().into_owned());
        assert_eq!(link_name(path), expected, "{path:?}");
    }
}
