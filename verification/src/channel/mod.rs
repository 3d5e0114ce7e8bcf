//! Shared-memory IPC channels between traced processes and the tracer.
pub mod conf;
pub mod gate;
pub mod gated;
pub mod shm_io;
