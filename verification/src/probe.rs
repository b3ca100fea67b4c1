//! What the kernel-side probes decide: which threads and requests they remember
//! between two tracepoints, and which event they emit when a span completes.
//!
//! The tables that the probes remember things in are the kernel's. A probe asks
//! this module what to put into a table, and hands back what it found there.

use vstd::prelude::*;

use crate::event;
use crate::event::{
    pack_block_key, Event, EVENT_BLOCK_IO, EVENT_FUTEX_WAIT, EVENT_FUTEX_WAKE, EVENT_SCHED_BLOCK,
};
use crate::vmlinux::{
    TraceEventRawBlockRq, TraceEventRawBlockRqCompletion, TraceEventRawSchedSwitch,
    TraceEventRawSysEnter, FUTEX_CLOCK_REALTIME, FUTEX_CMD_MASK, FUTEX_PRIVATE_FLAG, FUTEX_WAIT,
    FUTEX_WAIT_BITSET, FUTEX_WAKE, FUTEX_WAKE_BITSET, TASK_RUNNING,
};

verus! {

/// A thread that went off-CPU.
#[derive(Copy, Clone)]
pub struct BlockStart {
    pub ts: u64,
    pub tgid: u32,
    pub comm: [u8; 16],
}

/// A thread that is inside `futex(2)`.
#[derive(Copy, Clone)]
pub struct FutexStart {
    pub ts: u64,
    pub uaddr: u64,
    pub op: u32,
    pub tgid: u32,
    pub comm: [u8; 16],
}

/// A block I/O request that has been issued, with the thread that did.
#[derive(Copy, Clone)]
pub struct BlockIoStart {
    pub ts: u64,
    pub tgid: u32,
    pub tid: u32,
    pub comm: [u8; 16],
}

/// The time from `start` to `end`, or nothing where the clock went back.
pub open spec fn elapsed(start: u64, end: u64) -> u64 {
    if start <= end {
        (end - start) as u64
    } else {
        0
    }
}

fn elapsed_ns(start: u64, end: u64) -> (ns: u64)
    ensures
        ns == elapsed(start, end),
{
    if start <= end {
        end - start
    } else {
        0
    }
}

/// The thread group in the upper half of what the kernel gives for the current
/// thread.
pub fn tgid_of(pid_tgid: u64) -> (tgid: u32)
    ensures
        tgid == pid_tgid / 0x1_0000_0000,
{
    assert(pid_tgid >> 32 == pid_tgid / 0x1_0000_0000) by (bit_vector);
    (pid_tgid >> 32) as u32
}

/// The thread in the lower half of what the kernel gives for the current
/// thread.
pub fn tid_of(pid_tgid: u64) -> (tid: u32)
    ensures
        tid == pid_tgid % 0x1_0000_0000,
{
    assert(pid_tgid & 0xFFFF_FFFF == pid_tgid % 0x1_0000_0000) by (bit_vector);
    (pid_tgid & 0xFFFF_FFFF) as u32
}

/// Whether a target has been set. Before that, every probe drops everything.
pub fn armed(target: u32) -> (yes: bool)
    ensures
        yes == (target != 0),
{
    target != 0
}

/// Whether the thread group `tgid` is the one that is traced.
pub open spec fn is_target(target: u32, tgid: u32) -> bool {
    target != 0 && tgid == target
}

/// Whether a tracepoint that fires in the thread group `tgid` is of interest.
pub fn traced(target: u32, tgid: u32) -> (yes: bool)
    ensures
        yes == is_target(target, tgid),
{
    armed(target) && tgid == target
}

/// The thread that a switch takes off the CPU is remembered if it is not
/// runnable any more and belongs to the target.
pub open spec fn switch_stash(
    target: u32,
    evt: TraceEventRawSchedSwitch,
    tgid: u32,
    ts: u64,
) -> Option<(u32, BlockStart)> {
    if is_target(target, tgid) && evt.prev_state != TASK_RUNNING {
        Some((evt.prev_pid as u32, BlockStart { ts, tgid, comm: evt.prev_comm }))
    } else {
        None
    }
}

/// A thread that was off-CPU since `start` has resumed running.
pub open spec fn resumed_event(tid: u32, ts: u64, start: BlockStart) -> Event {
    Event {
        timestamp_ns: ts,
        duration_ns: elapsed(start.ts, ts),
        key: 0,
        pid: start.tgid,
        tid,
        event_type: EVENT_SCHED_BLOCK,
        _pad: event::zero_pad(),
        comm: start.comm,
    }
}

/// What to do at a switch, in this order: put `stash` into the table of
/// off-CPU threads, then look up `incoming` in it and hand the result to
/// [`sched_switch_resume`].
pub struct SwitchPlan {
    pub stash: Option<(u32, BlockStart)>,
    pub incoming: Option<u32>,
}

/// `sched_switch`: `tgid` is the thread group of the outgoing thread, in whose
/// context the tracepoint fires.
pub fn sched_switch(target: u32, evt: &TraceEventRawSchedSwitch, tgid: u32, ts: u64) -> (plan:
    SwitchPlan)
    ensures
        plan.stash == switch_stash(target, *evt, tgid, ts),
        plan.incoming == (if target == 0 {
            None
        } else {
            Some(evt.next_pid as u32)
        }),
{
    if !armed(target) {
        return SwitchPlan { stash: None, incoming: None };
    }
    let stash = if evt.prev_state != TASK_RUNNING && traced(target, tgid) {
        Some((evt.prev_pid as u32, BlockStart { ts, tgid, comm: evt.prev_comm }))
    } else {
        None
    };
    SwitchPlan { stash, incoming: Some(evt.next_pid as u32) }
}

/// The event to emit for the incoming thread, where it had been remembered as
/// off-CPU. Its entry is then to be removed.
pub fn sched_switch_resume(tid: u32, ts: u64, found: Option<BlockStart>) -> (emit: Option<Event>)
    ensures
        emit == (match found {
            Some(start) => Some(resumed_event(tid, ts, start)),
            None => None,
        }),
{
    match found {
        Some(start) => {
            let duration = elapsed_ns(start.ts, ts);
            Some(Event::new(ts, duration, 0, start.tgid, tid, EVENT_SCHED_BLOCK, start.comm))
        },
        None => None,
    }
}

/// A thread of the target that enters `futex(2)` is remembered with the address
/// and the low 32 bits of the operation.
pub open spec fn futex_stash(
    target: u32,
    evt: TraceEventRawSysEnter,
    tgid: u32,
    tid: u32,
    comm: [u8; 16],
    ts: u64,
) -> Option<(u32, FutexStart)> {
    if is_target(target, tgid) {
        Some(
            (
                tid,
                FutexStart {
                    ts,
                    uaddr: evt.args@[0],
                    op: (evt.args@[1] % 0x1_0000_0000) as u32,
                    tgid,
                    comm,
                },
            ),
        )
    } else {
        None
    }
}

/// `sys_enter_futex`: what to put into the table of threads in `futex(2)`.
pub fn futex_enter(
    target: u32,
    evt: &TraceEventRawSysEnter,
    tgid: u32,
    tid: u32,
    comm: [u8; 16],
    ts: u64,
) -> (stash: Option<(u32, FutexStart)>)
    ensures
        stash == futex_stash(target, *evt, tgid, tid, comm, ts),
{
    if !traced(target, tgid) {
        return None;
    }
    let uaddr = evt.args[0];
    let arg = evt.args[1];
    assert(arg as u32 == (arg % 0x1_0000_0000) as u32) by (bit_vector);
    let op = arg as u32;
    Some((tid, FutexStart { ts, uaddr, op, tgid, comm }))
}

/// The event type of a futex operation: its command, without the flags for
/// private futexes and for the realtime clock, is a wait or a wake, with or
/// without a bitset. Other commands have none.
pub open spec fn futex_event_type(op: u32) -> Option<u8> {
    let base_op = op & FUTEX_CMD_MASK;
    if base_op == FUTEX_WAIT || base_op == FUTEX_WAIT_BITSET {
        Some(EVENT_FUTEX_WAIT)
    } else if base_op == FUTEX_WAKE || base_op == FUTEX_WAKE_BITSET {
        Some(EVENT_FUTEX_WAKE)
    } else {
        None
    }
}

/// The event for a futex call that has returned.
pub open spec fn futex_event(tid: u32, ts: u64, start: FutexStart) -> Option<Event> {
    match futex_event_type(start.op) {
        Some(event_type) => Some(
            Event {
                timestamp_ns: ts,
                duration_ns: elapsed(start.ts, ts),
                key: start.uaddr,
                pid: start.tgid,
                tid,
                event_type,
                _pad: event::zero_pad(),
                comm: start.comm,
            },
        ),
        None => None,
    }
}

/// `sys_exit_futex`: the event to emit for the thread whose entry `found` was in
/// the table. The entry, if there was one, is removed in any case.
pub fn futex_exit(tid: u32, ts: u64, found: Option<FutexStart>) -> (emit: Option<Event>)
    ensures
        emit == (match found {
            Some(start) => futex_event(tid, ts, start),
            None => None,
        }),
{
    let start = match found {
        Some(start) => start,
        None => return None,
    };
    let duration = elapsed_ns(start.ts, ts);
    let base_op = start.op & FUTEX_CMD_MASK;
    let event_type = if base_op == FUTEX_WAIT || base_op == FUTEX_WAIT_BITSET {
        EVENT_FUTEX_WAIT
    } else if base_op == FUTEX_WAKE || base_op == FUTEX_WAKE_BITSET {
        EVENT_FUTEX_WAKE
    } else {
        return None;
    };
    Some(Event::new(ts, duration, start.uaddr, start.tgid, tid, event_type, start.comm))
}

/// A request that a thread of the target issues is remembered under its device
/// and sector.
pub open spec fn issue_stash(
    target: u32,
    evt: TraceEventRawBlockRq,
    tgid: u32,
    tid: u32,
    comm: [u8; 16],
    ts: u64,
) -> Option<(u64, BlockIoStart)> {
    if is_target(target, tgid) {
        Some((event::block_key(evt.dev, evt.sector) as u64, BlockIoStart { ts, tgid, tid, comm }))
    } else {
        None
    }
}

/// `block_rq_issue`: what to put into the table of requests in flight.
pub fn block_rq_issue(
    target: u32,
    evt: &TraceEventRawBlockRq,
    tgid: u32,
    tid: u32,
    comm: [u8; 16],
    ts: u64,
) -> (stash: Option<(u64, BlockIoStart)>)
    ensures
        stash == issue_stash(target, *evt, tgid, tid, comm, ts),
{
    if !traced(target, tgid) {
        return None;
    }
    let key = pack_block_key(evt.dev, evt.sector);
    Some((key, BlockIoStart { ts, tgid, tid, comm }))
}

/// The key of the request that has completed.
pub fn completed_key(evt: &TraceEventRawBlockRqCompletion) -> (key: u64)
    ensures
        key == event::block_key(evt.dev, evt.sector),
{
    pack_block_key(evt.dev, evt.sector)
}

/// The event for a request that has completed. It carries the thread that
/// issued the request: the completion fires in interrupt context.
pub open spec fn completion_event(key: u64, ts: u64, start: BlockIoStart) -> Event {
    Event {
        timestamp_ns: ts,
        duration_ns: elapsed(start.ts, ts),
        key,
        pid: start.tgid,
        tid: start.tid,
        event_type: EVENT_BLOCK_IO,
        _pad: event::zero_pad(),
        comm: start.comm,
    }
}

/// `block_rq_complete`: the event to emit where the request had been remembered
/// under `key`. Its entry is then to be removed.
pub fn block_rq_complete(key: u64, ts: u64, found: Option<BlockIoStart>) -> (emit: Option<Event>)
    ensures
        emit == (match found {
            Some(start) => Some(completion_event(key, ts, start)),
            None => None,
        }),
{
    match found {
        Some(start) => {
            let duration = elapsed_ns(start.ts, ts);
            Some(
                Event::new(ts, duration, key, start.tgid, start.tid, EVENT_BLOCK_IO, start.comm),
            )
        },
        None => None,
    }
}

/// The flags for private futexes and for the realtime clock make no difference
/// to what a futex call counts as.
pub proof fn law_futex_flags_are_ignored(op: u32)
    ensures
        futex_event_type(op | FUTEX_PRIVATE_FLAG) == futex_event_type(op),
        futex_event_type(op | FUTEX_CLOCK_REALTIME) == futex_event_type(op),
{
    assert((op | 128u32) & !(128u32 | 256u32) == op & !(128u32 | 256u32)) by (bit_vector);
    assert((op | 256u32) & !(128u32 | 256u32) == op & !(128u32 | 256u32)) by (bit_vector);
}

/// A span that starts at `start` and completes at `end` lasts from the one to the
/// other; where the clock went back it lasts no time at all.
pub proof fn law_span_lasts_from_start_to_end(start: u64, end: u64)
    ensures
        start <= end ==> start + elapsed(start, end) == end,
        end < start ==> elapsed(start, end) == 0,
{
}

/// A futex call counts as a wait where its command, with the private flag (128) and
/// the realtime flag (256) taken off, is 0 or 9, as a wake where it is 1 or 10, and
/// as nothing else.
pub proof fn law_futex_calls_are_waits_or_wakes(op: u32)
    ensures
        op & 0xffff_fe7f == 0 || op & 0xffff_fe7f == 9 ==> futex_event_type(op) == Some(1u8),
        op & 0xffff_fe7f == 1 || op & 0xffff_fe7f == 10 ==> futex_event_type(op) == Some(2u8),
        futex_event_type(op) is Some ==> op & 0xffff_fe7f == 0 || op & 0xffff_fe7f == 9 || op
            & 0xffff_fe7f == 1 || op & 0xffff_fe7f == 10,
{
    assert(!(128u32 | 256u32) == 0xffff_fe7fu32) by (bit_vector);
}

} // verus!
