//! Encoding of one descriptor slot with an aborted state.
//!
//! ```text
//! bit 63     bits 32..=62               bits 0..=31
//! ABORTED    payload length (31)        payload offset (32)
//! ```
//!
//! | Value                     | State                                          |
//! | ------------------------- | ---------------------------------------------- |
//! | `0`                       | Unfinished: slot reserved, nothing published   |
//! | `1 << 63`                 | Aborted: the receiver froze the unfinished slot |
//! | nonzero, bit 63 clear     | Committed: offset and length of the payload    |
//!
//! Committed lengths are nonzero, so a committed value is always nonzero and
//! the three states are disjoint; anything else is corrupt.
use vstd::prelude::*;

use super::alloc_word::MAX_PAYLOAD_LEN;

verus! {

pub const UNFINISHED: u64 = 0;
pub const ABORTED: u64 = 0x8000_0000_0000_0000;

/// A decoded descriptor slot value.
#[derive(Debug, Clone, Copy, PartialEq, Eq, Structural)]
pub enum SlotState {
    /// The slot was reserved but no payload has been committed.
    Unfinished,
    /// The receiver froze the slot; its payload is permanently unreachable.
    Aborted,
    /// A payload was committed. The range is unvalidated.
    Committed { payload_offset: usize, payload_len: usize },
    /// A value no protocol operation produces.
    Corrupt,
}

pub open spec fn spec_committed(payload_offset: int, payload_len: int) -> u64 {
    ((payload_len as u64) << 32u64) | (payload_offset as u64)
}

pub open spec fn spec_decode(bits: u64) -> SlotState {
    if bits == UNFINISHED {
        SlotState::Unfinished
    } else if bits == ABORTED {
        SlotState::Aborted
    } else if bits & ABORTED != 0 {
        SlotState::Corrupt
    } else if (bits >> 32u64) == 0 {
        SlotState::Corrupt
    } else {
        SlotState::Committed {
            payload_offset: (bits & 0xffff_ffff) as usize,
            payload_len: (bits >> 32u64) as usize,
        }
    }
}

/// Encodes a committed descriptor. The ranges below hold for any admitted
/// reservation.
pub fn committed(payload_offset: usize, payload_len: usize) -> (bits: u64)
    requires
        1 <= payload_len <= MAX_PAYLOAD_LEN,
        payload_offset <= u32::MAX,
    ensures
        bits == spec_committed(payload_offset as int, payload_len as int),
        spec_decode(bits) == (SlotState::Committed { payload_offset, payload_len }),
{
    let bits: u64 = ((payload_len as u64) << 32) | payload_offset as u64;
    proof {
        let l = payload_len as u64;
        let o = payload_offset as u64;
        assert(1 <= l <= 0x7fff_ffffu64 && o <= 0xffff_ffffu64 ==> {
            let b = (l << 32u64) | o;
            &&& b != 0u64
            &&& b != 0x8000_0000_0000_0000u64
            &&& b & 0x8000_0000_0000_0000u64 == 0
            &&& (b >> 32u64) == l
            &&& (b & 0xffff_ffffu64) == o
        }) by (bit_vector);
    }
    bits
}

/// Decodes a slot value read back from shared memory.
pub fn decode(bits: u64) -> (state: SlotState)
    ensures
        state == spec_decode(bits),
{
    if bits == UNFINISHED {
        SlotState::Unfinished
    } else if bits == ABORTED {
        SlotState::Aborted
    } else if bits & ABORTED != 0 {
        SlotState::Corrupt
    } else {
        assert(bits & 0x8000_0000_0000_0000u64 == 0 ==> (bits >> 32u64) <= 0x7fff_ffffu64) by (bit_vector);
        let payload_len: usize = (bits >> 32) as usize;
        let payload_offset: usize = (bits & 0xffff_ffff) as usize;
        if payload_len == 0 {
            SlotState::Corrupt
        } else {
            SlotState::Committed { payload_offset, payload_len }
        }
    }
}

} // verus!
