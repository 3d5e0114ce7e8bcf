//! Encoding of an allocator word: the single 64-bit value that admits
//! claims, closes the channel, and records lost frames.
//!
//! ```text
//! bit 63    bit 62        bits 32..=61       bits 0..=31
//! CLOSED    INCOMPLETE    slot count (30)    reserved payload bytes (32)
//! ```
//!
//! - `CLOSED`: set once by the receiver; no claim is admitted afterwards.
//! - `INCOMPLETE`: set by a writer that lost a frame it may still act on.
//! - slot count / reserved payload bytes: the two region frontiers. A claim
//!   moves both in one compare-and-swap of the whole word, so the regions
//!   can never overlap: slots grow up from the header, payload spans grow
//!   down from the end of the mapping.
//!
//! Pure bit manipulation: [`AllocWord::reserve`] computes the word a claim
//! installs.
use vstd::prelude::*;

verus! {

pub const CLOSED: u64 = 0x8000_0000_0000_0000;
pub const INCOMPLETE: u64 = 0x4000_0000_0000_0000;
pub const SLOT_COUNT_MAX: u64 = 0x3fff_ffff;
pub const PAYLOAD_BYTES_MAX: u64 = 0xffff_ffff;

/// Bytes of the region header in front of the descriptor table.
pub const HEADER_LEN: usize = 64;
/// Bytes of one descriptor slot.
pub const SLOT_LEN: usize = 8;
/// The largest payload one frame may have.
pub const MAX_PAYLOAD_LEN: usize = 0x7fff_ffff;
/// The largest mapping a region may span: 4 GiB.
pub const MAX_MAPPING_LEN: u64 = 0x1_0000_0000;

/// The payload bytes a frame of `payload_len` bytes reserves: its length
/// rounded up to whole `u64` words.
pub open spec fn spec_reserved_payload_len(payload_len: int) -> int {
    (payload_len + 7) / 8 * 8
}

pub fn reserved_payload_len(payload_len: usize) -> (reserved: usize)
    requires
        payload_len <= MAX_PAYLOAD_LEN,
    ensures
        reserved == spec_reserved_payload_len(payload_len as int),
        payload_len <= reserved < payload_len + 8,
        reserved % 8 == 0,
{
    (payload_len + 7) / 8 * 8
}

/// Whether the header, `slot_count` slots and `payload_bytes` payload
/// bytes fit a `mapping_len`-byte mapping.
pub open spec fn spec_fits(mapping_len: int, slot_count: int, payload_bytes: int) -> bool {
    HEADER_LEN + slot_count * SLOT_LEN + payload_bytes <= mapping_len
}

pub fn fits(mapping_len: usize, slot_count: usize, payload_bytes: usize) -> (fit: bool)
    requires
        slot_count <= SLOT_COUNT_MAX + 1,
        payload_bytes <= PAYLOAD_BYTES_MAX,
    ensures
        fit == spec_fits(mapping_len as int, slot_count as int, payload_bytes as int),
{
    let needed: u64 = 64 + (slot_count as u64) * 8 + payload_bytes as u64;
    needed <= mapping_len as u64
}

/// Why a claim was not admitted.
#[derive(Debug, Clone, Copy, PartialEq, Eq, Structural)]
pub enum ReserveError {
    /// The receiver has closed the channel.
    Closed,
    /// The frame does not fit: it is larger than [`MAX_PAYLOAD_LEN`], or the
    /// descriptor-table and payload frontiers would meet.
    Capacity,
}

/// A decoded snapshot of the allocator word.
#[derive(Debug, Clone, Copy, PartialEq, Eq, Structural)]
pub struct AllocWord(pub u64);

/// A successful reservation of one descriptor slot and one payload span.
#[derive(Debug)]
pub struct Reservation {
    /// The allocator word to install with compare-and-swap.
    pub new_word: AllocWord,
    /// Index of the reserved descriptor slot.
    pub slot_index: usize,
    /// Byte offset of the reserved payload span. Word-aligned.
    pub payload_offset: usize,
}

pub open spec fn spec_slot_count(bits: u64) -> u64 {
    (bits >> 32u64) & SLOT_COUNT_MAX
}

pub open spec fn spec_reserved_bytes(bits: u64) -> u64 {
    bits & PAYLOAD_BYTES_MAX
}

/// The word with the given flags and frontiers.
pub open spec fn spec_word(closed: bool, incomplete: bool, slot_count: u64, payload_bytes: u64) -> u64 {
    (if closed { CLOSED } else { 0 }) | (if incomplete { INCOMPLETE } else { 0 }) | (slot_count << 32u64)
        | payload_bytes
}

/// The fields of a word built from flags and frontiers read back unchanged.
pub proof fn lemma_word_fields(closed: bool, incomplete: bool, slot_count: u64, payload_bytes: u64)
    requires
        slot_count <= SLOT_COUNT_MAX,
        payload_bytes <= PAYLOAD_BYTES_MAX,
    ensures
        (spec_word(closed, incomplete, slot_count, payload_bytes) & CLOSED != 0) == closed,
        (spec_word(closed, incomplete, slot_count, payload_bytes) & INCOMPLETE != 0) == incomplete,
        spec_slot_count(spec_word(closed, incomplete, slot_count, payload_bytes)) == slot_count,
        spec_reserved_bytes(spec_word(closed, incomplete, slot_count, payload_bytes)) == payload_bytes,
{
    let c: u64 = if closed { CLOSED } else { 0 };
    let i: u64 = if incomplete { INCOMPLETE } else { 0 };
    assert(c == 0 || c == 0x8000_0000_0000_0000u64);
    assert(i == 0 || i == 0x4000_0000_0000_0000u64);
    assert((c == 0 || c == 0x8000_0000_0000_0000u64) && (i == 0 || i == 0x4000_0000_0000_0000u64)
        && slot_count <= 0x3fff_ffffu64 && payload_bytes <= 0xffff_ffffu64 ==> {
        let w = c | i | (slot_count << 32u64) | payload_bytes;
        &&& ((w & 0x8000_0000_0000_0000u64 != 0) == (c != 0))
        &&& ((w & 0x4000_0000_0000_0000u64 != 0) == (i != 0))
        &&& ((w >> 32u64) & 0x3fff_ffffu64) == slot_count
        &&& (w & 0xffff_ffffu64) == payload_bytes
    }) by (bit_vector);
}

impl AllocWord {
    pub fn from_bits(bits: u64) -> (word: Self)
        ensures
            word.0 == bits,
    {
        AllocWord(bits)
    }

    pub fn bits(self) -> (bits: u64)
        ensures
            bits == self.0,
    {
        self.0
    }

    pub fn is_closed(self) -> (closed: bool)
        ensures
            closed == (self.0 & CLOSED != 0),
    {
        self.0 & CLOSED != 0
    }

    pub fn is_incomplete(self) -> (incomplete: bool)
        ensures
            incomplete == (self.0 & INCOMPLETE != 0),
    {
        self.0 & INCOMPLETE != 0
    }

    pub fn slot_count(self) -> (count: usize)
        ensures
            count == spec_slot_count(self.0),
            count <= SLOT_COUNT_MAX,
    {
        let bits: u64 = self.0;
        assert((bits >> 32u64) & 0x3fff_ffffu64 <= 0x3fff_ffffu64) by (bit_vector);
        ((self.0 >> 32) & SLOT_COUNT_MAX) as usize
    }

    pub fn reserved_payload_bytes(self) -> (bytes: usize)
        ensures
            bytes == spec_reserved_bytes(self.0),
            bytes <= PAYLOAD_BYTES_MAX,
    {
        let bits: u64 = self.0;
        assert(bits & 0xffff_ffffu64 <= 0xffff_ffffu64) by (bit_vector);
        (self.0 & PAYLOAD_BYTES_MAX) as usize
    }

    /// Whether this word describes in-bounds regions of a `mapping_len`-byte
    /// mapping.
    pub fn is_valid_for(self, mapping_len: usize) -> (valid: bool)
        ensures
            valid == spec_fits(mapping_len as int, spec_slot_count(self.0) as int, spec_reserved_bytes(self.0) as int),
    {
        fits(mapping_len, self.slot_count(), self.reserved_payload_bytes())
    }

    /// Computes the reservation of one slot and a word-aligned span for a
    /// `payload_len`-byte payload, or reports why the claim is not admitted.
    ///
    /// Pure: the caller installs `new_word` with a compare-and-swap against
    /// the word this was computed from.
    pub fn reserve(self, payload_len: usize, mapping_len: usize) -> (reservation: Result<Reservation, ReserveError>)
        ensures
            match reservation {
                Err(ReserveError::Closed) => self.0 & CLOSED != 0,
                Err(ReserveError::Capacity) => {
                    &&& self.0 & CLOSED == 0
                    &&& {
                        ||| payload_len > MAX_PAYLOAD_LEN
                        ||| spec_slot_count(self.0) + 1 > SLOT_COUNT_MAX
                        ||| spec_reserved_bytes(self.0) + spec_reserved_payload_len(payload_len as int)
                            > PAYLOAD_BYTES_MAX
                        ||| !spec_fits(
                            mapping_len as int,
                            spec_slot_count(self.0) + 1,
                            spec_reserved_bytes(self.0) + spec_reserved_payload_len(payload_len as int),
                        )
                    }
                },
                Ok(r) => {
                    let new_slots = spec_slot_count(self.0) + 1;
                    let new_bytes = spec_reserved_bytes(self.0) + spec_reserved_payload_len(payload_len as int);
                    &&& self.0 & CLOSED == 0
                    &&& payload_len <= MAX_PAYLOAD_LEN
                    &&& new_slots <= SLOT_COUNT_MAX
                    &&& new_bytes <= PAYLOAD_BYTES_MAX
                    &&& spec_fits(mapping_len as int, new_slots, new_bytes)
                    &&& r.slot_index == spec_slot_count(self.0)
                    &&& r.payload_offset == mapping_len - new_bytes
                    &&& r.new_word.0 == spec_word(false, self.0 & INCOMPLETE != 0, new_slots as u64, new_bytes as u64)
                    &&& r.new_word.0 & CLOSED == 0
                    &&& (r.new_word.0 & INCOMPLETE != 0) == (self.0 & INCOMPLETE != 0)
                    &&& spec_slot_count(r.new_word.0) == new_slots
                    &&& spec_reserved_bytes(r.new_word.0) == new_bytes
                },
            },
    {
        if self.is_closed() {
            return Err(ReserveError::Closed);
        }
        if payload_len > MAX_PAYLOAD_LEN {
            return Err(ReserveError::Capacity);
        }
        let slot_index: usize = self.slot_count();
        let new_slot_count: usize = slot_index + 1;
        let new_bytes: u64 = self.reserved_payload_bytes() as u64 + reserved_payload_len(payload_len) as u64;
        if new_slot_count as u64 > SLOT_COUNT_MAX || new_bytes > PAYLOAD_BYTES_MAX {
            return Err(ReserveError::Capacity);
        }
        let new_payload_bytes: usize = new_bytes as usize;
        if !fits(mapping_len, new_slot_count, new_payload_bytes) {
            return Err(ReserveError::Capacity);
        }
        let incomplete: u64 = self.0 & INCOMPLETE;
        let new_bits: u64 = incomplete | ((new_slot_count as u64) << 32) | new_payload_bytes as u64;
        proof {
            let bits = self.0;
            assert(bits & 0x4000_0000_0000_0000u64 == 0 || bits & 0x4000_0000_0000_0000u64
                == 0x4000_0000_0000_0000u64) by (bit_vector);
            let ns = new_slot_count as u64;
            let nb = new_payload_bytes as u64;
            assert(incomplete | (ns << 32u64) | nb == 0u64 | incomplete | (ns << 32u64) | nb) by (bit_vector);
            lemma_word_fields(false, bits & INCOMPLETE != 0, ns, nb);
        }
        Ok(Reservation {
            new_word: AllocWord(new_bits),
            slot_index,
            payload_offset: mapping_len - new_payload_bytes,
        })
    }
}

} // verus!
