//! Verified core of fspy, a file-system access tracer: the seccomp filter
//! it installs, the shared-memory channels its traced processes report
//! through, what they report, and the code patching that routes raw
//! syscalls to an allowed gate.
pub mod artifact;
pub mod channel;
pub mod exec;
pub mod intercept;
pub mod ipc;
pub mod payload;
pub mod seccomp;
pub mod shm;
pub mod spawn;
pub mod spawn_args;
pub mod windows_shm;
