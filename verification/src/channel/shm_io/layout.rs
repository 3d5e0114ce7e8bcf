//! The descriptor slot codec and the CLOSED gate bit.
//!
//! One slot is a 64-bit value that publishes a frame:
//!
//! ```text
//! bits 32..=63           bits 0..=31
//! payload length (32)    payload offset (32)
//! ```
//!
//! | Value                 | State                                           |
//! | --------------------- | ----------------------------------------------- |
//! | `0`                   | Unfinished: slot claimed, nothing published yet |
//! | length field nonzero  | Committed: offset and length of the payload     |
//!
//! A claimed frame is never zero-length, so a committed value always has a
//! nonzero length field and can never be read as the zero a fresh slot
//! starts at.
use vstd::prelude::*;

verus! {

/// The CLOSED gate bit of the claim counter.
pub const CLOSED: u64 = 0x8000_0000_0000_0000;

/// The committed descriptor for a frame at `offset` of `len` bytes.
pub open spec fn spec_encode_committed(offset: u32, len: u32) -> u64 {
    (offset as u64) | ((len as u64) << 32u64)
}

/// The offset half of a slot value.
pub open spec fn slot_offset(value: u64) -> u32 {
    (value & 0xffff_ffff) as u32
}

/// The length half of a slot value.
pub open spec fn slot_len(value: u64) -> u32 {
    (value >> 32u64) as u32
}

/// The codec is a bijection between committed descriptors and values with a
/// nonzero length half, and zero reads as unfinished.
pub proof fn lemma_slot_codec(offset: u32, len: u32)
    ensures
        slot_offset(spec_encode_committed(offset, len)) == offset,
        slot_len(spec_encode_committed(offset, len)) == len,
        slot_len(0) == 0,
        len != 0 ==> spec_encode_committed(offset, len) != 0,
{
    assert((((offset as u64) | ((len as u64) << 32u64)) & 0xffff_ffff) as u32 == offset) by (bit_vector);
    assert(((((offset as u64) | ((len as u64) << 32u64)) >> 32u64) as u32) == len) by (bit_vector);
    assert(((0u64 >> 32u64) as u32) == 0u32) by (bit_vector);
    assert(len != 0 ==> ((offset as u64) | ((len as u64) << 32u64)) != 0) by (bit_vector);
}

/// Every slot value is the encoding of its two halves.
pub proof fn lemma_slot_halves(value: u64)
    ensures
        value == spec_encode_committed(slot_offset(value), slot_len(value)),
{
    assert(value == ((((value & 0xffff_ffff) as u32) as u64) | ((((value >> 32u64) as u32) as u64) << 32u64)))
        by (bit_vector);
}

/// A decoded descriptor slot.
#[derive(Debug, Clone, Copy, PartialEq, Eq, Structural)]
pub enum SlotState {
    /// Nothing is published in the slot.
    Unfinished,
    /// A payload is committed. `len` is nonzero.
    Committed { offset: u32, len: u32 },
}

pub open spec fn spec_decode(value: u64) -> SlotState {
    if slot_len(value) == 0 {
        SlotState::Unfinished
    } else {
        SlotState::Committed { offset: slot_offset(value), len: slot_len(value) }
    }
}

pub open spec fn spec_encode(state: SlotState) -> u64 {
    match state {
        SlotState::Unfinished => 0,
        SlotState::Committed { offset, len } => spec_encode_committed(offset, len),
    }
}

impl SlotState {
    /// Decodes a slot value into its state.
    pub fn decode(slot_value: u64) -> (state: Self)
        ensures
            state == spec_decode(slot_value),
    {
        let offset: u32 = (slot_value & 0xffff_ffff) as u32;
        let len: u32 = (slot_value >> 32) as u32;
        if len == 0 {
            SlotState::Unfinished
        } else {
            SlotState::Committed { offset, len }
        }
    }

    /// Encodes this state as a slot value; the inverse of [`Self::decode`]
    /// for every state with a nonzero committed length.
    pub fn encode(self) -> (value: u64)
        ensures
            value == spec_encode(self),
    {
        match self {
            SlotState::Unfinished => 0,
            SlotState::Committed { offset, len } => (offset as u64) | ((len as u64) << 32),
        }
    }
}

/// Decoding undoes encoding: a committed state with a nonzero length comes
/// back as itself, and so does the unfinished state.
pub proof fn lemma_decode_encode(state: SlotState)
    requires
        state matches SlotState::Committed { len, .. } ==> len != 0,
    ensures
        spec_decode(spec_encode(state)) == state,
{
    match state {
        SlotState::Unfinished => {
            lemma_slot_codec(0, 0);
        },
        SlotState::Committed { offset, len } => {
            lemma_slot_codec(offset, len);
        },
    }
}

/// Encoding undoes decoding for every value whose length half is nonzero,
/// and for zero.
pub proof fn lemma_encode_decode(value: u64)
    requires
        value == 0 || slot_len(value) != 0,
    ensures
        spec_encode(spec_decode(value)) == value,
{
    lemma_slot_halves(value);
    if value == 0 {
        lemma_slot_codec(0, 0);
    }
}

} // verus!
