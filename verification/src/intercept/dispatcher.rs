//! The architecture-neutral view of an intercepted syscall that the
//! consumer's callback receives, and which gate runs it on its answer.
use vstd::prelude::*;

verus! {

/// Architecture-neutral snapshot of a raw syscall number and its arguments.
#[derive(Clone, Copy, Debug)]
pub struct SyscallContext {
    syscall_number: usize,
    arguments: [usize; 6],
}

impl SyscallContext {
    pub closed spec fn spec_syscall_number(&self) -> usize {
        self.syscall_number
    }

    pub closed spec fn spec_arguments(&self) -> [usize; 6] {
        self.arguments
    }

    pub fn new(syscall_number: usize, arguments: [usize; 6]) -> (context: Self)
        ensures
            context.spec_syscall_number() == syscall_number,
            context.spec_arguments() == arguments,
    {
        SyscallContext { syscall_number, arguments }
    }

    /// Returns the Linux syscall number.
    pub fn syscall_number(&self) -> (number: usize)
        ensures
            number == self.spec_syscall_number(),
    {
        self.syscall_number
    }

    /// Returns the six raw syscall argument registers.
    pub fn arguments(&self) -> (arguments: [usize; 6])
        ensures
            arguments == self.spec_arguments(),
    {
        self.arguments
    }
}

} // verus!
