//! What raw syscall results mean: Linux returns `-errno` in the result
//! register, and a value in `-4095..0` is an error for every syscall.
use vstd::prelude::*;

verus! {

/// `EIO`, reported when an error number does not fit.
pub const EIO: i32 = 5;

/// The mapped address of a raw `mmap`, or `None` when it failed.
pub fn mmap_result(result: isize) -> (mapping: Option<usize>)
    ensures
        mapping == (if -4095 <= result < 0 {
            None
        } else {
            Some(result as usize)
        }),
{
    if -4095 <= result && result < 0 {
        None
    } else {
        Some(result as usize)
    }
}

/// The C-style status of a raw `mprotect` or `munmap`: its result, or -1
/// when it failed or does not fit.
pub fn status_result(result: isize) -> (status: i32)
    ensures
        status == (if result < 0 || result > i32::MAX {
            -1i32
        } else {
            result as i32
        }),
{
    if result < 0 || result > 0x7fff_ffff {
        -1
    } else {
        result as i32
    }
}

/// Why opening a control file failed.
#[derive(Debug, Clone, Copy, PartialEq, Eq, Structural)]
pub enum OpenFailure {
    /// The kernel refused with this error number.
    Errno(i32),
    /// The result is no file descriptor.
    NotADescriptor,
}

/// The file descriptor a raw `openat` returned, or why there is none.
pub fn control_file_result(result: isize) -> (fd: Result<i32, OpenFailure>)
    ensures
        fd == (if result < 0 {
            Err(OpenFailure::Errno(if -result <= i32::MAX {
                (-result) as i32
            } else {
                EIO
            }))
        } else if result > i32::MAX {
            Err(OpenFailure::NotADescriptor)
        } else {
            Ok(result as i32)
        }),
{
    if result < 0 {
        if result >= -0x7fff_ffff {
            Err(OpenFailure::Errno((0 - result) as i32))
        } else {
            Err(OpenFailure::Errno(EIO))
        }
    } else if result > 0x7fff_ffff {
        Err(OpenFailure::NotADescriptor)
    } else {
        Ok(result as i32)
    }
}

} // verus!
