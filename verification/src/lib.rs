//! Finding out why a Linux process was slow: the record schema that the probes
//! and the analyser share, the decisions that the probes take, the inference of
//! causal chains out of a recorded trace, and the text that reports them.
//!
//! Everything that touches the machine (eBPF maps, system calls, files, the
//! terminal) is outside this crate. It hands plain values in and carries out
//! what comes back.

pub mod causal;
pub mod chain;
pub mod child;
pub mod cold_read;
pub mod duration;
pub mod event;
pub mod futex_lock;
pub mod matching;
pub mod probe;
pub mod rank;
pub mod ring;
pub mod session;
pub mod tables;
pub mod text;
pub mod trace;
pub mod ui;
pub mod vmlinux;
