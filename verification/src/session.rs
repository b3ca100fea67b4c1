//! The decisions of a tracing session.

use vstd::prelude::*;

use crate::text;

verus! {

/// The number of the capability to load eBPF programs (`linux/capability.h`).
pub const CAP_BPF: u64 = 39;

/// Whether `effective`, the set of effective capabilities with one bit for each,
/// holds [`CAP_BPF`].
pub fn has_cap_bpf(effective: u64) -> (has: bool)
    ensures
        has == (effective / 0x80_0000_0000 % 2 == 1),
{
    assert((effective >> 39) & 1 == effective / 0x80_0000_0000 % 2) by (bit_vector);
    (effective >> CAP_BPF) & 1 == 1
}

/// Loading eBPF programs takes root or `CAP_BPF`: `euid` is the effective user
/// id, and `has_cap_bpf` whether the process has the capability.
pub fn require_root(euid: u32, has_cap_bpf: bool) -> (checked: Result<(), String>)
    ensures
        checked is Ok <==> euid == 0 || has_cap_bpf,
        checked matches Err(message) ==> message@
            == "whyslow needs root or CAP_BPF to load its eBPF programs. Try again with sudo (this includes containers / restricted cloud shells / WSL without CAP_BPF configured -- see README.md)."@,
{
    if euid != 0 && !has_cap_bpf {
        Err(
            "whyslow needs root or CAP_BPF to load its eBPF programs. Try again with sudo (this includes containers / restricted cloud shells / WSL without CAP_BPF configured -- see README.md).".to_owned(),
        )
    } else {
        Ok(())
    }
}

/// Whether tracing a process that was attached to is over: a stop was requested,
/// the time limit, if there is one, has been reached, or the process is gone.
pub fn attach_is_over(
    stop_requested: bool,
    limit_secs: Option<u64>,
    elapsed_secs: u64,
    target_gone: bool,
) -> (over: bool)
    ensures
        over == (stop_requested || (limit_secs matches Some(limit) && elapsed_secs >= limit)
            || target_gone),
{
    if stop_requested {
        return true;
    }
    if let Some(limit) = limit_secs {
        if elapsed_secs >= limit {
            return true;
        }
    }
    target_gone
}

/// The line that tells how to end an attached session.
pub fn attach_notice(pid: u32) -> (line: String)
    ensures
        line@ == "whyslow: tracing pid "@ + text::decimal(pid as nat)
            + ", press Ctrl-C to stop and print results..."@,
{
    let mut line = String::new();
    line.append("whyslow: tracing pid ");
    text::push_decimal(&mut line, pid as u64);
    line.append(", press Ctrl-C to stop and print results...");
    assert(line@ =~= "whyslow: tracing pid "@ + text::decimal(pid as nat)
        + ", press Ctrl-C to stop and print results..."@);
    line
}

} // verus!
