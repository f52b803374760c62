[package]
name = "ffi_trace"
version = "0.1.0"
edition = "2021"
publish = false

[dependencies]
capstone = "0.13"
nix = { version = "0.30", features = ["mman", "process", "ptrace", "signal"] }
ipc-channel = "0.20"
libc = "0.2"
proc-maps = "0.4"
serde = { version = "1", features = ["derive"] }
