//! What the results of `waitpid` say about a traced child.

use vstd::prelude::*;

verus! {

/// `libc::WIFSTOPPED`: the low byte of the status is 0x7f.
pub assume_specification[ libc::WIFSTOPPED ](status: libc::c_int) -> (stopped: bool)
    ensures
        stopped == (status & 0xff == 0x7f),
;

/// `libc::WIFEXITED`: the low seven bits of the status are zero.
pub assume_specification[ libc::WIFEXITED ](status: libc::c_int) -> (exited: bool)
    ensures
        exited == (status & 0x7f == 0),
;

/// `libc::WIFSIGNALED`: the low seven bits of the status, which hold the number
/// of the signal, are neither all zero nor all one.
pub assume_specification[ libc::WIFSIGNALED ](status: libc::c_int) -> (signaled: bool)
    ensures
        signaled == (status & 0x7f != 0 && status & 0x7f != 0x7f),
;

/// What a return from `waitpid` means to someone who waits for a child to stop.
#[derive(Clone, Copy, Debug, PartialEq, Eq, Structural)]
pub enum WaitOutcome {
    /// The call failed.
    Failed,
    /// The child has stopped.
    Stopped,
    /// The child has exited, or was killed, before it stopped.
    Gone,
    /// Something else happened: wait again.
    Again,
}

/// What a return of `ret` with `status` from `waitpid` means.
pub open spec fn wait_outcome(ret: i32, status: i32) -> WaitOutcome {
    if ret < 0 {
        WaitOutcome::Failed
    } else if status & 0xff == 0x7f {
        WaitOutcome::Stopped
    } else if status & 0x7f != 0x7f {
        WaitOutcome::Gone
    } else {
        WaitOutcome::Again
    }
}

/// What a return of `ret` with `status` from `waitpid` means to someone who
/// waits for the child to hit its post-exec trap.
pub fn wait_until_stopped(ret: i32, status: i32) -> (outcome: WaitOutcome)
    ensures
        outcome == wait_outcome(ret, status),
        outcome == WaitOutcome::Failed <==> ret < 0,
        outcome == WaitOutcome::Stopped <==> ret >= 0 && status & 0xff == 0x7f,
        outcome == WaitOutcome::Gone <==> ret >= 0 && status & 0xff != 0x7f && status & 0x7f
            != 0x7f,
        outcome == WaitOutcome::Again <==> ret >= 0 && status & 0xff != 0x7f && status & 0x7f
            == 0x7f,
{
    if ret < 0 {
        return WaitOutcome::Failed;
    }
    if libc::WIFSTOPPED(status) {
        return WaitOutcome::Stopped;
    }
    if libc::WIFEXITED(status) || libc::WIFSIGNALED(status) {
        return WaitOutcome::Gone;
    }
    WaitOutcome::Again
}

/// What a non-blocking `waitpid` gave back.
pub struct WaitReply {
    pub ret: i32,
    pub status: i32,
    /// The call failed because there is no such child (any more).
    pub no_child: bool,
}

/// The reply of a non-blocking `waitpid` for `pid` says that the child has ended:
/// it was reaped by this call, or by one before. The low seven bits of the status
/// are all ones only where the child was stopped or continued.
pub open spec fn says_ended(reply: WaitReply, pid: u32) -> bool {
    reply.no_child || (reply.ret == pid as i32 && (reply.status & 0x7f) != 0x7f)
}

/// Whether the child `pid` has ended, by what a non-blocking `waitpid` for it
/// gave back. `no_child` is that the call failed because there is no such child.
pub fn has_exited(ret: i32, status: i32, no_child: bool, pid: u32) -> (exited: bool)
    ensures
        exited == (no_child || (ret == pid as i32 && (status & 0x7f) != 0x7f)),
        exited == says_ended(WaitReply { ret, status, no_child }, pid),
{
    no_child || (ret == pid as i32 && (libc::WIFEXITED(status) || libc::WIFSIGNALED(status)))
}

/// A child as its parent sees it.
pub enum ChildState {
    /// It runs, or is stopped.
    Alive,
    /// It has ended with `status`, and nobody has waited for it yet.
    Ended { status: i32 },
    /// It has ended, and was waited for.
    Reaped,
}

/// A non-blocking `waitpid` for the child `pid` gives `reply` and leaves the child
/// in the state `after`: of a live child at most a stop or a continuation is
/// reported, one that has ended is reaped, and one that was reaped is no child.
pub open spec fn waited(state: ChildState, pid: u32, reply: WaitReply, after: ChildState) -> bool {
    match state {
        ChildState::Alive => {
            &&& !reply.no_child
            &&& reply.ret == pid as i32 ==> (reply.status & 0x7f) == 0x7f
            &&& after is Alive
        },
        ChildState::Ended { status } => {
            &&& !reply.no_child
            &&& reply.ret == pid as i32
            &&& reply.status == status
            &&& (status & 0x7f) != 0x7f
            &&& after is Reaped
        },
        ChildState::Reaped => {
            &&& reply.no_child
            &&& after is Reaped
        },
    }
}

/// Asked at any time and any number of times, the answer is whether the child has
/// ended; a child that is said to have ended has been reaped, and is said to have
/// ended whenever that is asked again.
pub proof fn law_end_is_reported_for_good(
    state: ChildState,
    pid: u32,
    reply: WaitReply,
    after: ChildState,
    again: WaitReply,
    last: ChildState,
)
    requires
        waited(state, pid, reply, after),
    ensures
        says_ended(reply, pid) <==> !(state is Alive),
        says_ended(reply, pid) ==> after is Reaped,
        says_ended(reply, pid) && waited(after, pid, again, last) ==> says_ended(again, pid),
{
}

} // verus!
