use whyslow::child::{has_exited, wait_until_stopped, WaitOutcome};
use whyslow::cold_read::{after_read, ReadStep, READ_REPEATS, READ_SIZE};
use whyslow::futex_lock::{lock, unlock, LockStep, CONTENDED, LOCKED, UNLOCKED};
use whyslow::ring::{Drain, DrainPhase};
use whyslow::session::{attach_is_over, attach_notice, has_cap_bpf, require_root, CAP_BPF};
use whyslow::ui;

#[test]
fn wait_statuses() {
    assert_eq!(wait_until_stopped(-1, 0), WaitOutcome::Failed);
    assert_eq!(wait_until_stopped(-1, 0x057f), WaitOutcome::Failed);
    // Stopped by SIGTRAP.
    assert_eq!(wait_until_stopped(42, 0x057f), WaitOutcome::Stopped);
    // Exited with 0 and with 3.
    assert_eq!(wait_until_stopped(42, 0), WaitOutcome::Gone);
    assert_eq!(wait_until_stopped(42, 0x0300), WaitOutcome::Gone);
    // Killed, with and without a core dump.
    assert_eq!(wait_until_stopped(42, 9), WaitOutcome::Gone);
    assert_eq!(wait_until_stopped(42, 0x8b), WaitOutcome::Gone);
    // Continued.
    assert_eq!(wait_until_stopped(42, 0xffff), WaitOutcome::Again);
}

#[test]
fn wait_statuses_agree_with_libc() {
    for status in -70_000i32..70_000 {
        let expected = if libc::WIFSTOPPED(status) {
            WaitOutcome::Stopped
        } else if libc::WIFEXITED(status) || libc::WIFSIGNALED(status) {
            WaitOutcome::Gone
        } else {
            WaitOutcome::Again
        };
        assert_eq!(wait_until_stopped(1, status), expected);
        let low = status & 0x7f;
        assert_eq!(libc::WIFSIGNALED(status), low != 0 && low != 0x7f);
        assert_eq!(libc::WIFEXITED(status), low == 0);
        assert_eq!(libc::WIFSTOPPED(status), status & 0xff == 0x7f);
    }
}

#[test]
fn reaped_child_has_exited() {
    // Exited with 0 and with 3; killed, with and without a core dump.
    for status in [0, 0x0300, 9, 0x8b] {
        assert!(has_exited(42, status, false, 42));
    }
    // Nothing to report, another child, an interrupted call.
    assert!(!has_exited(0, 0, false, 42));
    assert!(!has_exited(41, 0, false, 42));
    assert!(!has_exited(-1, 0, false, 42));
}

#[test]
fn reaped_child_stays_exited() {
    assert!(has_exited(42, 0x0300, false, 42));
    assert!(has_exited(-1, 0, true, 42));
    assert!(has_exited(-1, 0, true, 42));
}

#[test]
fn stopped_and_continued_children_have_not_exited() {
    assert!(!has_exited(42, 0x057f, false, 42));
    assert!(!has_exited(42, 0x137f, false, 42));
    assert!(!has_exited(42, 0xffff, false, 42));
}

#[test]
fn root_or_the_capability_is_required() {
    assert!(require_root(0, false).is_ok());
    assert!(require_root(0, true).is_ok());
    assert!(require_root(1000, true).is_ok());
    assert_eq!(
        require_root(1000, false).unwrap_err(),
        "whyslow needs root or CAP_BPF to load its eBPF programs. \
         Try again with sudo (this includes containers / restricted cloud \
         shells / WSL without CAP_BPF configured -- see README.md)."
    );
}

#[test]
fn capability_is_one_bit_of_the_effective_set() {
    assert_eq!(CAP_BPF, 39);
    assert!(has_cap_bpf(1 << 39));
    assert!(has_cap_bpf(u64::MAX));
    assert!(has_cap_bpf(0x0000_01ff_ffff_ffff));
    assert!(!has_cap_bpf(0));
    assert!(!has_cap_bpf(!(1 << 39)));
}

#[test]
fn cold_reads_are_repeated() {
    assert_eq!((READ_SIZE, READ_REPEATS), (64 * 1024, 64));
    let mut done = 0;
    while after_read(done, READ_SIZE as isize) == ReadStep::Again {
        done += 1;
    }
    assert_eq!(done + 1, READ_REPEATS);
    assert_eq!(after_read(63, 0), ReadStep::Done);
    assert_eq!(after_read(usize::MAX, 0), ReadStep::Done);
    assert_eq!(after_read(0, -1), ReadStep::Failed);
    assert_eq!(after_read(63, -1), ReadStep::Failed);
}

#[test]
fn attached_session_ends() {
    assert!(!attach_is_over(false, None, 1_000_000, false));
    assert!(!attach_is_over(false, Some(5), 4, false));
    assert!(attach_is_over(false, Some(5), 5, false));
    assert!(attach_is_over(false, Some(0), 0, false));
    assert!(attach_is_over(true, None, 0, false));
    assert!(attach_is_over(false, None, 0, true));
    assert_eq!(
        attach_notice(4711),
        "whyslow: tracing pid 4711, press Ctrl-C to stop and print results..."
    );
}

fn item(tid: u32) -> Vec<u8> {
    let mut bytes = vec![0u8; 56];
    bytes[28..32].copy_from_slice(&tid.to_le_bytes());
    bytes
}

#[test]
fn ring_is_drained_once_more_after_the_decision_to_stop() {
    let mut drain = Drain::new();
    assert_eq!(drain.phase, DrainPhase::Draining);
    drain.on_item(Some(&item(1)));
    drain.on_item(Some(&[1, 2, 3]));
    drain.on_item(Some(&item(2)));
    assert_eq!(drain.phase, DrainPhase::Draining);
    drain.on_item(None);
    assert_eq!(drain.phase, DrainPhase::Asking);
    drain.on_answer(false);
    assert_eq!(drain.phase, DrainPhase::Polling);
    drain.on_poll();
    assert_eq!(drain.phase, DrainPhase::Draining);
    drain.on_item(None);
    drain.on_answer(true);
    assert_eq!(drain.phase, DrainPhase::LastDrain);
    drain.on_item(Some(&item(3)));
    assert_eq!(drain.phase, DrainPhase::LastDrain);
    drain.on_item(None);
    assert_eq!(drain.phase, DrainPhase::Finished);
    let tids: Vec<u32> = drain.events.iter().map(|e| e.tid).collect();
    assert_eq!(tids, vec![1, 2, 3]);
}

#[test]
fn lock_steps() {
    assert_eq!(lock(LockStep::Exchange, UNLOCKED), LockStep::Acquired);
    assert_eq!(lock(LockStep::Exchange, LOCKED), LockStep::Swap);
    assert_eq!(lock(LockStep::Exchange, CONTENDED), LockStep::Swap);
    assert_eq!(lock(LockStep::Swap, UNLOCKED), LockStep::Acquired);
    assert_eq!(lock(LockStep::Swap, LOCKED), LockStep::Wait);
    assert_eq!(lock(LockStep::Swap, CONTENDED), LockStep::Wait);
    assert_eq!(lock(LockStep::Wait, UNLOCKED), LockStep::Swap);
    assert_eq!(lock(LockStep::Acquired, CONTENDED), LockStep::Acquired);
    assert_eq!(unlock(CONTENDED), Some(1));
    assert_eq!(unlock(LOCKED), None);
    assert_eq!(unlock(UNLOCKED), None);
}

/// Two threads on one word: the second waits until the first has unlocked.
#[test]
fn contended_lock_is_handed_over() {
    let mut word = UNLOCKED;
    let first = lock(LockStep::Exchange, word);
    word = LOCKED;
    assert_eq!(first, LockStep::Acquired);
    let second = lock(LockStep::Exchange, word);
    let seen = word;
    word = CONTENDED;
    let second = lock(second, seen);
    assert_eq!(second, LockStep::Wait);
    let seen = word;
    word = UNLOCKED;
    assert_eq!(unlock(seen), Some(1));
    let second = lock(second, word);
    let seen = word;
    word = CONTENDED;
    assert_eq!(lock(second, seen), LockStep::Acquired);
    assert_eq!(unlock(word), Some(1));
}

#[test]
fn colors() {
    assert_eq!(ui::bold(true, "x"), "\x1b[1mx\x1b[0m");
    assert_eq!(ui::dim(true, "x"), "\x1b[2mx\x1b[0m");
    assert_eq!(ui::bold_yellow(true, "x"), "\x1b[1;93mx\x1b[0m");
    assert_eq!(ui::bold_red(true, "x"), "\x1b[1;91mx\x1b[0m");
    assert_eq!(ui::magenta(true, "x"), "\x1b[1;95mx\x1b[0m");
    assert_eq!(ui::cyan(true, "x"), "\x1b[1;96mx\x1b[0m");
    assert_eq!(ui::green(true, "x"), "\x1b[1;92mx\x1b[0m");
    assert_eq!(ui::bold_cyan(true, "x"), "\x1b[1;96mx\x1b[0m");
    assert_eq!(ui::blue(true, "x"), "\x1b[1;94mx\x1b[0m");
    assert_eq!(ui::blue(false, "x"), "x");
    assert_eq!(ui::paint(true, "7", ""), "\x1b[7m\x1b[0m");
    assert!(ui::color_enabled(false, true));
    assert!(!ui::color_enabled(true, true));
    assert!(!ui::color_enabled(false, false));
    assert!(!ui::color_enabled(true, false));
}

#[test]
fn banner() {
    let plain = ui::banner_lines(false);
    assert_eq!(
        plain,
        vec![
            "",
            r#"           __               __"#,
            r#" _      __/ /_  __  _______/ /___ _      __"#,
            r#"| | /| / / __ \/ / / / ___/ / __ \ | /| / /"#,
            r#"| |/ |/ / / / / /_/ (__  ) / /_/ / |/ |/ /"#,
            r#"|__/|__/_/ /_/\__, /____/_/\____/|__/|__/"#,
            r#"             /____/                        "#,
            "  debug why a Linux process was slow \u{2014} eBPF causal-chain tracing",
            "",
        ]
    );
    let colored = ui::banner_lines(true);
    let codes = ["1;91", "1;93", "1;92", "1;96", "1;94", "1;95"];
    for (i, code) in codes.iter().enumerate() {
        assert_eq!(colored[i + 1], format!("\x1b[{code}m{}\x1b[0m", plain[i + 1]));
    }
    assert!(colored[7].starts_with("  \x1b[1mdebug why"));
}

#[test]
fn command_line_is_announced() {
    let command = vec![String::from("./slow"), String::from("--fast"), String::from("no")];
    assert_eq!(ui::join_words(&command), "./slow --fast no");
    assert_eq!(ui::join_words(&Vec::new()), "");
    assert_eq!(ui::tracing_line(false, &command), "\u{25b8} tracing: ./slow --fast no");
    assert_eq!(
        ui::tracing_line(true, &command),
        "\x1b[1;94m\u{25b8} tracing:\x1b[0m \x1b[1m./slow --fast no\x1b[0m"
    );
}
