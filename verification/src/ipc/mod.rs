//! What a traced process reports: the paths it accessed and how.
pub mod native_str;

use vstd::prelude::*;

verus! {

/// The flag bits of the access modes.
pub const READ_BITS: u8 = 1;
pub const WRITE_BITS: u8 = 2;
pub const READ_DIR_BITS: u8 = 4;

/// How a path was accessed: a set of the flags read, write and read-dir.
#[derive(Debug, Clone, Copy, PartialEq, Eq, Structural)]
pub struct AccessMode {
    bits: u8,
}

impl AccessMode {
    /// Reading a file.
    pub fn read() -> (mode: AccessMode)
        ensures
            mode.spec_bits() == READ_BITS,
    {
        AccessMode { bits: READ_BITS }
    }

    /// Writing a file.
    pub fn write() -> (mode: AccessMode)
        ensures
            mode.spec_bits() == WRITE_BITS,
    {
        AccessMode { bits: WRITE_BITS }
    }

    /// Listing a directory.
    pub fn read_dir() -> (mode: AccessMode)
        ensures
            mode.spec_bits() == READ_DIR_BITS,
    {
        AccessMode { bits: READ_DIR_BITS }
    }

    pub closed spec fn spec_bits(self) -> u8 {
        self.bits
    }

    /// The raw flag bits.
    pub fn bits(self) -> (bits: u8)
        ensures
            bits == self.spec_bits(),
    {
        self.bits
    }

    /// The mode with exactly the known flags among `bits`.
    pub fn from_bits_truncate(bits: u8) -> (mode: AccessMode)
        ensures
            mode.spec_bits() == bits & (READ_BITS | WRITE_BITS | READ_DIR_BITS),
    {
        AccessMode { bits: bits & (READ_BITS | WRITE_BITS | READ_DIR_BITS) }
    }

    /// No access at all.
    pub fn empty() -> (mode: AccessMode)
        ensures
            mode.spec_bits() == 0,
    {
        AccessMode { bits: 0 }
    }

    /// Whether every flag of `other` is in `self`.
    pub fn contains(self, other: AccessMode) -> (contained: bool)
        ensures
            contained == (self.spec_bits() & other.spec_bits() == other.spec_bits()),
    {
        self.bits & other.bits == other.bits
    }

    /// The flags of both.
    pub fn union(self, other: AccessMode) -> (mode: AccessMode)
        ensures
            mode.spec_bits() == self.spec_bits() | other.spec_bits(),
    {
        AccessMode { bits: self.bits | other.bits }
    }
}

/// One access of one path.
#[derive(Debug, Clone, PartialEq, Eq)]
pub struct PathAccess {
    pub mode: AccessMode,
    /// The accessed path, as the process named it.
    pub path: Vec<u8>,
}

impl PathAccess {
    /// A read of `path`.
    pub fn read(path: &[u8]) -> (access: PathAccess)
        ensures
            access.mode.spec_bits() == READ_BITS,
            access.path@ == path@,
    {
        PathAccess { mode: AccessMode::read(), path: vstd::slice::slice_to_vec(path) }
    }

    /// A listing of the directory `path`.
    pub fn read_dir(path: &[u8]) -> (access: PathAccess)
        ensures
            access.mode.spec_bits() == READ_DIR_BITS,
            access.path@ == path@,
    {
        PathAccess { mode: AccessMode::read_dir(), path: vstd::slice::slice_to_vec(path) }
    }
}

/// Bytes of a record frame's length header.
pub const FRAME_HEADER_LEN: usize = 4;

/// A path-access record framed for a pipe: its length as a little-endian
/// `u32`, then the record.
pub fn frame_record(payload: &[u8]) -> (frame: Vec<u8>)
    requires
        payload@.len() <= u32::MAX,
    ensures
        frame@ == vstd::bytes::spec_u32_to_le_bytes(payload@.len() as u32) + payload@,
        frame@.len() == FRAME_HEADER_LEN + payload@.len(),
        vstd::bytes::spec_u32_from_le_bytes(frame@.subrange(0, 4)) == payload@.len(),
        frame@.subrange(4, frame@.len() as int) == payload@,
{
    proof {
        vstd::bytes::lemma_auto_spec_u32_to_from_le_bytes();
    }
    let mut frame = vstd::bytes::u32_to_le_bytes(payload.len() as u32);
    let mut body = vstd::slice::slice_to_vec(payload);
    frame.append(&mut body);
    assert(frame@.subrange(0, 4) =~= vstd::bytes::spec_u32_to_le_bytes(payload@.len() as u32));
    assert(frame@.subrange(4, frame@.len() as int) =~= payload@);
    frame
}

} // verus!
