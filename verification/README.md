# whyslow

Finds out *why* a Linux process was slow: this thread was stuck here, because
that thread woke it late, because that thread was stuck on a disk read.

```
14:32:07.001 — tid 4821 blocked 412ms on futex 0x7f2a3c001000
 ← woken by tid 4809
 ← tid 4809 blocked 380ms on block I/O (dev nvme0n1p2, sector 88213)
```

Probes on `sched_switch`, futex and block I/O tracepoints write fixed-size
records into one ring buffer; the program drains it, joins the events within a
bounded window, and prints the longest stalls with their chains.

## Layout

`src/` is the library. Verus verifies all of it.

- `event`, `trace`: the records of the ring buffer, their owned form, wall time
- `probe`, `tables`, `vmlinux`: what the kernel-side probes remember and emit
- `ring`: draining the ring buffer
- `matching`, `chain`, `rank`, `causal`: from events to the `explain` report
- `duration`, `text`, `ui`: the text of it all
- `session`, `child`: the decisions around a traced process
- `futex_lock`, `cold_read`: the lock of the ground-truth reproducer, with its
  proof, and its reads

Functions named `law_...` state what holds of the library as a whole.

`app/` is the program around it: arguments, files, process control, loading the
probes (`bpf.rs`), the maps and entry points of the probes (`ebpf.rs`), and the
reproducer (`synthetic.rs`, which runs when the program is called as
`whyslow-synthetic`). The object with the probes is built apart from the program.
The program loads it from `$WHYSLOW_EBPF`, or from `whyslow-ebpf` beside itself,
and needs root or `CAP_BPF` for that.

`aya-build` is no crate of this program. `aya-ebpf` builds with it, and its line
in `Cargo.toml` holds it to a version that Rust 1.95 compiles.

`tests/` runs the library on concrete traces, records and tracepoints.

## What is taken on trust

`String::from_utf8_lossy` (in `trace`), and `WIFSTOPPED`, `WIFEXITED` and
`WIFSIGNALED` of the `libc` crate (in `child`).
