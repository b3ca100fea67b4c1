//! The cold reads of the ground-truth reproducer: how often to read, and what to
//! do after each read.

use vstd::prelude::*;

verus! {

/// Bytes per read. Comfortably under typical `max_sectors_kb`, so that each read
/// stays a single block I/O request.
pub const READ_SIZE: usize = 65536;

/// How often to read: the reads together reliably outlast the time it takes to
/// start a thread.
pub const READ_REPEATS: usize = 64;

/// What to do after a read.
#[derive(Clone, Copy, Debug, PartialEq, Eq, Structural)]
pub enum ReadStep {
    /// Read once more.
    Again,
    /// Nothing: that was the last read.
    Done,
    /// Give up: the read failed.
    Failed,
}

/// What to do after a read that returned `ret`, with `done` reads before it.
pub fn after_read(done: usize, ret: isize) -> (step: ReadStep)
    ensures
        step == (if ret < 0 {
            ReadStep::Failed
        } else if done + 1 < READ_REPEATS {
            ReadStep::Again
        } else {
            ReadStep::Done
        }),
        step == ReadStep::Failed <==> ret < 0,
        step == ReadStep::Again <==> ret >= 0 && done < 63,
{
    if ret < 0 {
        ReadStep::Failed
    } else if done < READ_REPEATS - 1 {
        ReadStep::Again
    } else {
        ReadStep::Done
    }
}

} // verus!
