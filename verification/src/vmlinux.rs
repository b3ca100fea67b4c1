//! The fields of the kernel's tracepoint records, and the kernel constants that
//! the probes compare them with.

use vstd::prelude::*;

verus! {

/// The header of every tracepoint record.
pub struct TraceEntry {
    pub kind: u16,
    pub flags: u8,
    pub preempt_count: u8,
    pub pid: i32,
}

/// `sched:sched_switch`
pub struct TraceEventRawSchedSwitch {
    pub ent: TraceEntry,
    pub prev_comm: [u8; 16],
    pub prev_pid: i32,
    pub prev_prio: i32,
    pub prev_state: i64,
    pub next_comm: [u8; 16],
    pub next_pid: i32,
    pub next_prio: i32,
}

/// `syscalls:sys_enter_futex` (shares the generic `sys_enter` layout; `args`
/// are the six raw syscall arguments in order).
pub struct TraceEventRawSysEnter {
    pub ent: TraceEntry,
    pub id: i64,
    pub args: [u64; 6],
}

/// `syscalls:sys_exit_futex`
pub struct TraceEventRawSysExit {
    pub ent: TraceEntry,
    pub id: i64,
    pub ret: i64,
}

/// `block:block_rq_issue` (and `block_rq_insert`, unused here).
pub struct TraceEventRawBlockRq {
    pub ent: TraceEntry,
    pub dev: u32,
    pub sector: u64,
    pub nr_sector: u32,
    pub bytes: u32,
    pub ioprio: u16,
    pub rwbs: [u8; 10],
    pub comm: [u8; 16],
    pub data_loc_cmd: u32,
}

/// `block:block_rq_complete`
pub struct TraceEventRawBlockRqCompletion {
    pub ent: TraceEntry,
    pub dev: u32,
    pub sector: u64,
    pub nr_sector: u32,
    pub error: i32,
    pub ioprio: u16,
    pub rwbs: [u8; 10],
    pub data_loc_cmd: u32,
}

// futex op codes (include/uapi/linux/futex.h), stable UAPI.
pub const FUTEX_WAIT: u32 = 0;

pub const FUTEX_WAKE: u32 = 1;

pub const FUTEX_WAIT_BITSET: u32 = 9;

pub const FUTEX_WAKE_BITSET: u32 = 10;

pub const FUTEX_PRIVATE_FLAG: u32 = 128;

pub const FUTEX_CLOCK_REALTIME: u32 = 256;

pub const FUTEX_CMD_MASK: u32 = !(FUTEX_PRIVATE_FLAG | FUTEX_CLOCK_REALTIME);

// task state (include/linux/sched.h): TASK_RUNNING is the only all-zero state;
// every other bit pattern means the task is not currently runnable.
pub const TASK_RUNNING: i64 = 0;

} // verus!
