//! The payload a supervisor hands to the process it traces: where to
//! reach the supervisor and the seccomp filter to install.
pub mod filter;
pub mod notify;
pub mod supervisor;

use vstd::prelude::*;

pub use self::filter::{Architecture, CodableSockFilter, Filter};

verus! {

/// What a traced process needs to install the user-notification filter.
#[derive(Debug, Clone)]
pub struct SeccompPayload {
    pub ipc_path: Vec<u8>,
    pub filter: Filter,
}

impl SeccompPayload {
    /// Builds a payload whose installation is guaranteed to fail: the filter
    /// is empty (the kernel refuses it) and nothing listens on `ipc_path`.
    pub fn unreachable(ipc_path: Vec<u8>) -> (payload: Self)
        ensures
            payload.ipc_path@ == ipc_path@,
            payload.filter.0@.len() == 0,
    {
        SeccompPayload { ipc_path, filter: Filter(Vec::new()) }
    }
}

} // verus!
