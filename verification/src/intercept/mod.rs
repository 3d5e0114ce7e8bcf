//! Startup-only interception of raw Linux syscall instructions: the
//! decisions and byte encodings behind patching a syscall site to branch
//! through a trampoline to the tracer's gate.
pub mod aarch64;
pub mod arch;
pub mod dispatcher;
pub mod elf;
pub mod gate;
pub mod image;
pub mod install;
pub mod patcher;
pub mod raw;
pub mod x86_64;
