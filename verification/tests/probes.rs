use whyslow::causal::{chain_report, explain, slowest_stalls, DevNames};
use whyslow::duration::LocalTime;
use whyslow::event::{
    pack_block_key, Event, EVENT_BLOCK_IO, EVENT_FUTEX_WAIT, EVENT_FUTEX_WAKE, EVENT_SCHED_BLOCK,
};
use whyslow::probe;
use whyslow::probe::{BlockIoStart, BlockStart, FutexStart};
use whyslow::tables::{Tables, Tracepoint, REQUEST_CAPACITY, THREAD_CAPACITY};
use whyslow::trace::{TraceEvent, TraceFile};
use whyslow::vmlinux::{
    TraceEntry, TraceEventRawBlockRq, TraceEventRawBlockRqCompletion, TraceEventRawSchedSwitch,
    TraceEventRawSysEnter, FUTEX_CLOCK_REALTIME, FUTEX_CMD_MASK, FUTEX_PRIVATE_FLAG, FUTEX_WAIT,
    FUTEX_WAIT_BITSET, FUTEX_WAKE, FUTEX_WAKE_BITSET,
};

const TARGET: u32 = 100;
const HOLDER: u32 = 101;
const WAITER: u32 = 102;
const IDLE: i32 = 0;
const NAME: [u8; 16] = *b"synthetic\0\0\0\0\0\0\0";

fn entry() -> TraceEntry {
    TraceEntry { kind: 0, flags: 0, preempt_count: 0, pid: 0 }
}

fn switch(prev: i32, prev_state: i64, next: i32, tgid: u32, ts: u64) -> Tracepoint {
    let evt = TraceEventRawSchedSwitch {
        ent: entry(),
        prev_comm: NAME,
        prev_pid: prev,
        prev_prio: 120,
        prev_state,
        next_comm: [0; 16],
        next_pid: next,
        next_prio: 120,
    };
    Tracepoint::SchedSwitch { evt, tgid, ts }
}

fn enter(tid: u32, uaddr: u64, op: u64, tgid: u32, ts: u64) -> Tracepoint {
    let evt = TraceEventRawSysEnter { ent: entry(), id: 202, args: [uaddr, op, 2, 0, 0, 0] };
    Tracepoint::FutexEnter { evt, tgid, tid, comm: NAME, ts }
}

fn issue(tid: u32, dev: u32, sector: u64, tgid: u32, ts: u64) -> Tracepoint {
    let evt = TraceEventRawBlockRq {
        ent: entry(),
        dev,
        sector,
        nr_sector: 128,
        bytes: 65536,
        ioprio: 0,
        rwbs: [0; 10],
        comm: NAME,
        data_loc_cmd: 0,
    };
    Tracepoint::BlockRqIssue { evt, tgid, tid, comm: NAME, ts }
}

fn complete(dev: u32, sector: u64, ts: u64) -> Tracepoint {
    let evt = TraceEventRawBlockRqCompletion {
        ent: entry(),
        dev,
        sector,
        nr_sector: 128,
        error: 0,
        ioprio: 0,
        rwbs: [0; 10],
        data_loc_cmd: 0,
    };
    Tracepoint::BlockRqComplete { evt, ts }
}

fn fields(ev: &Event) -> (u64, u64, u64, u32, u32, u8) {
    (ev.timestamp_ns, ev.duration_ns, ev.key, ev.pid, ev.tid, ev.event_type)
}

#[test]
fn off_cpu_span_is_one_event() {
    let mut tables = Tables::new();
    assert!(tables.fire(TARGET, &switch(102, 1, IDLE, TARGET, 1_000)).is_none());
    assert!(tables.fire(TARGET, &switch(103, 2, 104, TARGET, 2_000)).is_none());
    let ev = tables.fire(TARGET, &switch(IDLE, 0, 102, 0, 5_000)).unwrap();
    assert_eq!(fields(&ev), (5_000, 4_000, 0, TARGET, 102, EVENT_SCHED_BLOCK));
    assert_eq!(ev.comm, NAME);
    assert!(tables.fire(TARGET, &switch(IDLE, 0, 102, 0, 6_000)).is_none());
}

#[test]
fn runnable_and_foreign_threads_are_not_stalled() {
    let mut tables = Tables::new();
    assert!(tables.fire(TARGET, &switch(102, 0, IDLE, TARGET, 1)).is_none());
    assert!(tables.fire(TARGET, &switch(IDLE, 0, 102, 0, 2)).is_none());
    assert!(tables.fire(TARGET, &switch(700, 1, IDLE, 700, 3)).is_none());
    assert!(tables.fire(TARGET, &switch(IDLE, 0, 700, 0, 4)).is_none());
}

#[test]
fn switch_to_the_same_thread_is_an_empty_span() {
    let mut tables = Tables::new();
    let ev = tables.fire(TARGET, &switch(102, 1, 102, TARGET, 9)).unwrap();
    assert_eq!(fields(&ev), (9, 0, 0, TARGET, 102, EVENT_SCHED_BLOCK));
}

#[test]
fn nothing_is_recorded_before_the_target_is_set() {
    let mut tables = Tables::new();
    assert!(tables.fire(0, &switch(102, 1, IDLE, 0, 1)).is_none());
    assert!(tables.fire(0, &enter(102, 0xf0, 0, 0, 2)).is_none());
    assert!(tables.fire(0, &issue(102, 1, 1, 0, 3)).is_none());
    assert!(tables.fire(TARGET, &switch(IDLE, 0, 102, 0, 4)).is_none());
    assert!(tables.fire(TARGET, &Tracepoint::FutexExit { tid: 102, ts: 5 }).is_none());
    assert!(tables.fire(TARGET, &complete(1, 1, 6)).is_none());
    assert!(!probe::armed(0));
    assert!(probe::armed(TARGET));
}

#[test]
fn switches_are_not_looked_up_without_a_target() {
    let mut tables = Tables::new();
    tables.fire(TARGET, &switch(102, 1, IDLE, TARGET, 1_000));
    assert!(tables.fire(0, &switch(IDLE, 0, 102, 0, 2_000)).is_none());
    assert!(tables.fire(TARGET, &switch(IDLE, 0, 102, 0, 3_000)).is_some());
}

#[test]
fn futex_calls_are_classified_by_their_command() {
    assert_eq!(FUTEX_CMD_MASK, 0xffff_fe7f);
    let cases = [
        (FUTEX_WAIT, Some(EVENT_FUTEX_WAIT)),
        (FUTEX_WAIT_BITSET, Some(EVENT_FUTEX_WAIT)),
        (FUTEX_WAKE, Some(EVENT_FUTEX_WAKE)),
        (FUTEX_WAKE_BITSET, Some(EVENT_FUTEX_WAKE)),
        (2, None),
        (6, None),
    ];
    for (op, expected) in cases {
        for flags in [0, FUTEX_PRIVATE_FLAG, FUTEX_CLOCK_REALTIME, FUTEX_PRIVATE_FLAG | FUTEX_CLOCK_REALTIME] {
            let mut tables = Tables::new();
            let arg = (0xabcd_0000_0000u64 << 16) | (op | flags) as u64;
            assert!(tables.fire(TARGET, &enter(HOLDER, 0x7000, arg, TARGET, 10)).is_none());
            let got = tables.fire(TARGET, &Tracepoint::FutexExit { tid: HOLDER, ts: 35 });
            assert_eq!(got.map(|ev| ev.event_type), expected);
            if let Some(ev) = got {
                assert_eq!((ev.timestamp_ns, ev.duration_ns, ev.key), (35, 25, 0x7000));
                assert_eq!((ev.pid, ev.tid, ev.comm), (TARGET, HOLDER, NAME));
            }
            assert!(tables.fire(TARGET, &Tracepoint::FutexExit { tid: HOLDER, ts: 36 }).is_none());
        }
    }
}

#[test]
fn futex_calls_of_others_are_dropped() {
    let mut tables = Tables::new();
    tables.fire(TARGET, &enter(700, 0x7000, 0, 700, 10));
    assert!(tables.fire(TARGET, &Tracepoint::FutexExit { tid: 700, ts: 20 }).is_none());
}

#[test]
fn request_is_reported_for_its_issuer() {
    let mut tables = Tables::new();
    assert!(tables.fire(TARGET, &issue(HOLDER, 0x0080_0001, 0x1_0000_0005, TARGET, 100)).is_none());
    assert!(tables.fire(TARGET, &complete(0x0080_0001, 6, 150)).is_none());
    // The low 32 bits of the sector are what counts.
    let ev = tables.fire(TARGET, &complete(0x0080_0001, 5, 400)).unwrap();
    assert_eq!(
        fields(&ev),
        (400, 300, pack_block_key(0x0080_0001, 5), TARGET, HOLDER, EVENT_BLOCK_IO)
    );
    assert_eq!(ev.comm, NAME);
    assert!(tables.fire(TARGET, &complete(0x0080_0001, 5, 500)).is_none());
    assert!(tables.fire(TARGET, &issue(700, 1, 1, 700, 600)).is_none());
    assert!(tables.fire(TARGET, &complete(1, 1, 700)).is_none());
}

#[test]
fn clock_going_back_gives_empty_spans() {
    let comm = NAME;
    let resumed = probe::sched_switch_resume(1, 50, Some(BlockStart { ts: 60, tgid: 2, comm })).unwrap();
    assert_eq!((resumed.timestamp_ns, resumed.duration_ns), (50, 0));
    let start = FutexStart { ts: 60, uaddr: 3, op: 0, tgid: 2, comm };
    assert_eq!(probe::futex_exit(1, 50, Some(start)).unwrap().duration_ns, 0);
    let start = BlockIoStart { ts: 60, tgid: 2, tid: 1, comm };
    assert_eq!(probe::block_rq_complete(9, 50, Some(start)).unwrap().duration_ns, 0);
    assert!(probe::sched_switch_resume(1, 50, None).is_none());
    assert!(probe::futex_exit(1, 50, None).is_none());
    assert!(probe::block_rq_complete(9, 50, None).is_none());
}

#[test]
fn ids_are_the_halves_of_the_current_thread() {
    assert_eq!(probe::tgid_of(0x0000_0064_0000_0066), 100);
    assert_eq!(probe::tid_of(0x0000_0064_0000_0066), 102);
}

#[test]
fn full_tables_take_no_new_keys() {
    let mut tables = Tables::new();
    for n in 0..THREAD_CAPACITY as u32 {
        tables.fire(TARGET, &enter(n, 1, 0, TARGET, 10));
    }
    let extra = THREAD_CAPACITY as u32;
    tables.fire(TARGET, &enter(extra, 1, 0, TARGET, 10));
    assert!(tables.fire(TARGET, &Tracepoint::FutexExit { tid: extra, ts: 20 }).is_none());
    // A key that is there already is replaced.
    tables.fire(TARGET, &enter(5, 1, 0, TARGET, 15));
    assert_eq!(tables.fire(TARGET, &Tracepoint::FutexExit { tid: 5, ts: 20 }).unwrap().duration_ns, 5);
    tables.fire(TARGET, &enter(extra, 1, 0, TARGET, 10));
    assert!(tables.fire(TARGET, &Tracepoint::FutexExit { tid: extra, ts: 20 }).is_some());

    for n in 0..REQUEST_CAPACITY as u64 + 1 {
        tables.fire(TARGET, &issue(HOLDER, 1, n, TARGET, 10));
    }
    assert!(tables.fire(TARGET, &complete(1, REQUEST_CAPACITY as u64 - 1, 20)).is_some());
    assert!(tables.fire(TARGET, &complete(1, REQUEST_CAPACITY as u64, 20)).is_none());
}

/// A holder takes a lock and reads from disk, a waiter contends for the lock,
/// and the holder's unlock wakes it.
#[test]
fn simulated_run_shows_the_known_causal_chain() {
    let lock: u64 = 0x7ffd_0000_1000;
    let mut steps = vec![
        issue(HOLDER, 0x1030_0002, 2048, TARGET, 10_000_000),
        switch(HOLDER as i32, 2, IDLE, TARGET, 10_010_000),
        enter(WAITER, lock, 0, TARGET, 12_000_000),
        switch(WAITER as i32, 1, IDLE, TARGET, 12_010_000),
        complete(0x1030_0002, 2048, 60_000_000),
        switch(IDLE, 0, HOLDER as i32, 0, 60_020_000),
        enter(HOLDER, lock, 1, TARGET, 60_500_000),
        Tracepoint::FutexExit { tid: HOLDER, ts: 60_503_000 },
        switch(IDLE, 0, WAITER as i32, 0, 60_520_000),
        Tracepoint::FutexExit { tid: WAITER, ts: 60_525_000 },
    ];
    let mut tables = Tables::new();
    let mut events: Vec<TraceEvent> = Vec::new();
    for step in steps.drain(..) {
        if let Some(ev) = tables.fire(TARGET, &step) {
            events.push(TraceEvent::from(ev));
        }
    }
    assert_eq!(events.len(), 5);
    let trace = TraceFile { realtime_anchor_ns: 0, monotonic_anchor_ns: 0, events };
    assert_eq!(slowest_stalls(&trace, 5).len(), 2);
    let times = vec![LocalTime { hour: 0, minute: 0, second: 0 }; 2];
    let mut names = DevNames::new();
    names.name(0x1030_0002, Some(String::from("nvme0n1p2")));
    let report = chain_report(&explain(&trace, 5, &times, &names));
    assert_eq!(
        report,
        vec![
            "00:00:00.010 \u{2014} tid 101 blocked 50ms on block I/O (dev nvme0n1p2, sector 2048)",
            "",
            "00:00:00.012 \u{2014} tid 102 blocked 48ms on futex 0x7ffd00001000",
            " \u{2190} woken by tid 101",
            " \u{2190} tid 101 blocked 50ms on block I/O (dev nvme0n1p2, sector 2048)",
        ]
    );
}
