[package]
name = "whyslow"
version = "0.1.1"
edition = "2021"
publish = false

[dependencies]
anyhow = "=1.0.104"
aya = "=0.13.1"
# Not used itself: holds the build dependency of aya-ebpf to a version that
# Rust 1.95 compiles.
aya-build = "=0.2.0"
aya-ebpf = "=0.2.1"
clap = { version = "=4.6.7", features = ["derive"] }
libc = "=0.2.191"
serde = { version = "=1.0.229", features = ["derive"] }
serde_json = "=1.0.154"
