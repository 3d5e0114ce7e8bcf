//! A crash-tolerant, nonblocking frame channel in a shared memory region.
//!
//! Many writers append variable-length frames; one receiver seals the
//! channel and collects every committed frame without waiting for any
//! writer. A writer may stop at any point (claiming, writing, just before
//! committing) and the only thing lost is its own unfinished frame.
//!
//! # Region layout
//!
//! ```text
//! +----------+--------+--------+---------+-----------+-----------+------+
//! | counters | slot 0 | slot 1 | ...     | payload 0 | payload 1 | ...  |
//! +----------+--------+--------+---------+-----------+-----------+------+
//! ```
//!
//! The counters are the claim counter (bit 63 is the CLOSED gate, the low
//! bits count claims) and the payload counter (payload bytes ever reserved).
//! A claim bumps the payload counter, checks that its span fits the payload
//! area, then bumps the claim counter, whose old value is its slot index. A
//! failed claim sets the CLOSED bit to report the loss. A writer commits its frame
//! by storing the descriptor ([`layout`]) into its slot. The receiver's seal
//! swaps the CLOSED bit into the claim counter: the old count says how many slots
//! to read, and a gate already set says a record was lost.
//!
//! [`MappedLayout`] is the region: the [`Meta`] counters and table and the
//! payload area, owned by this value. The writer and reader sides take it
//! explicitly.
pub mod alloc_word;
pub mod layout;
pub mod slot;

use vstd::prelude::*;

use self::layout::{lemma_slot_codec, slot_len, slot_offset, spec_encode_committed, SlotState, CLOSED};
use super::gate::{lemma_gate_word, word_closed, word_count, COUNT_MASK};

verus! {

/// The fixed part of the region: the counters and the descriptor table.
#[derive(Debug)]
pub struct Meta {
    /// Bit 63 is the CLOSED gate; the low bits count claims.
    claims: u64,
    /// Payload bytes ever reserved, failed claims included.
    payload_reserved: u64,
    /// One descriptor slot per frame.
    table: Vec<u64>,
}

/// Bytes the counters take in front of the table.
pub const COUNTERS_LEN: usize = 16;
/// Bytes of one descriptor slot.
pub const SLOT_LEN: usize = 8;

/// The offset a `len`-byte frame reserved at `start` gets, or `None` when
/// it does not fit: the start must fit a descriptor's 32-bit offset and the
/// frame must end inside a `payload_len`-byte payload area.
pub open spec fn spec_fitted_offset(start: u64, len: u32, payload_len: u32) -> Option<u32> {
    if start <= u32::MAX && start + len <= payload_len {
        Some(start as u32)
    } else {
        None
    }
}

pub fn fitted_offset(start: u64, len: u32, payload_len: u32) -> (offset: Option<u32>)
    ensures
        offset == spec_fitted_offset(start, len, payload_len),
{
    if start > 0xffff_ffff {
        return None;
    }
    let offset: u32 = start as u32;
    match offset.checked_add(len) {
        Some(end) => if end <= payload_len {
            Some(offset)
        } else {
            None
        },
        None => None,
    }
}

/// A decoded view of one admitted slot: the committed frame's bytes, or
/// `None` while it is unfinished.
pub type SlotView = Option<Seq<u8>>;

/// The committed frames among `slots`, in slot order.
pub open spec fn committed_frames(slots: Seq<SlotView>) -> Seq<Seq<u8>>
    decreases slots.len(),
{
    if slots.len() == 0 {
        Seq::empty()
    } else {
        let rest = committed_frames(slots.drop_last());
        match slots.last() {
            Some(frame) => rest.push(frame),
            None => rest,
        }
    }
}

/// The shared region: counters, descriptor table and payload area.
pub struct MappedLayout {
    meta: Meta,
    payload: Vec<u8>,
    payload_len: u32,
    /// The span (offset, length) each admitted slot reserved, in slot order.
    spans: Ghost<Seq<(int, int)>>,
}

impl MappedLayout {
    pub closed spec fn spec_claims(&self) -> u64 {
        self.meta.claims
    }

    pub closed spec fn spec_payload_reserved(&self) -> u64 {
        self.meta.payload_reserved
    }

    pub closed spec fn spec_table(&self) -> Seq<u64> {
        self.meta.table@
    }

    pub closed spec fn spec_payload(&self) -> Seq<u8> {
        self.payload@
    }

    pub closed spec fn spec_payload_len(&self) -> u32 {
        self.payload_len
    }

    /// The spans of the admitted slots, in slot order.
    pub closed spec fn spans(&self) -> Seq<(int, int)> {
        self.spans@
    }

    /// The admitted slots: each one's committed bytes, or `None`.
    pub open spec fn frames(&self) -> Seq<SlotView> {
        Seq::new(
            self.spans().len(),
            |i: int|
                if self.spec_table()[i] == 0 {
                    None
                } else {
                    Some(self.spec_payload().subrange(self.spans()[i].0, self.spans()[i].0 + self.spans()[i].1))
                },
        )
    }

    /// The current bytes of an admitted slot's span.
    pub open spec fn span_bytes(&self, slot: int) -> Seq<u8> {
        self.spec_payload().subrange(self.spans()[slot].0, self.spans()[slot].0 + self.spans()[slot].1)
    }

    pub closed spec fn wf(&self) -> bool {
        let spans = self.spans@;
        let table = self.meta.table@;
        &&& self.payload@.len() == self.payload_len
        &&& spans.len() <= table.len()
        &&& forall|i: int|
            0 <= i < spans.len() ==> {
                &&& 0 <= #[trigger] spans[i].0
                &&& 1 <= spans[i].1 <= u32::MAX
                &&& spans[i].0 + spans[i].1 <= self.payload_len
                &&& spans[i].0 + spans[i].1 <= self.meta.payload_reserved
                &&& (table[i] == 0 || table[i] == spec_encode_committed(spans[i].0 as u32, spans[i].1 as u32))
            }
        &&& forall|i: int, j: int| 0 <= i < j < spans.len() ==> #[trigger] spans[i].0 + spans[i].1 <= #[trigger] spans[j].0
        &&& forall|i: int| spans.len() <= i < table.len() ==> #[trigger] table[i] == 0
        &&& !word_closed(self.meta.claims) ==> spans.len() == (if word_count(self.meta.claims) <= table.len() {
            word_count(self.meta.claims) as int
        } else {
            table.len() as int
        })
    }

    /// Locates the parts of a `mapping_len`-byte mapping with a `slots`-slot
    /// table, zero-initialized, or `None` when it cannot hold the protocol:
    /// too little room for the counters and table, or a payload area longer
    /// than a 32-bit offset reaches.
    pub fn new(mapping_len: usize, slots: usize) -> (layout: Option<Self>)
        ensures
            match layout {
                None => COUNTERS_LEN + SLOT_LEN * slots > mapping_len
                    || mapping_len - (COUNTERS_LEN + SLOT_LEN * slots) > u32::MAX,
                Some(layout) => {
                    &&& COUNTERS_LEN + SLOT_LEN * slots <= mapping_len
                    &&& layout.spec_payload_len() == mapping_len - (COUNTERS_LEN + SLOT_LEN * slots)
                    &&& layout.wf()
                    &&& layout.spec_claims() == 0
                    &&& layout.spec_payload_reserved() == 0
                    &&& layout.spec_table().len() == slots
                    &&& layout.frames().len() == 0
                },
            },
    {
        let table_len: usize = match slots.checked_mul(8) {
            Some(n) => n,
            None => return None,
        };
        let meta_len: usize = match table_len.checked_add(16) {
            Some(n) => n,
            None => return None,
        };
        if meta_len > mapping_len {
            return None;
        }
        let rest: usize = mapping_len - meta_len;
        if rest > 0xffff_ffff {
            return None;
        }
        let payload_len: u32 = rest as u32;
        let mut table: Vec<u64> = Vec::new();
        let mut i: usize = 0;
        while i < slots
            invariant
                table@.len() == i <= slots,
                forall|k: int| 0 <= k < i ==> table@[k] == 0,
            decreases slots - i,
        {
            table.push(0);
            i = i + 1;
        }
        let mut payload: Vec<u8> = Vec::new();
        let mut j: u32 = 0;
        while j < payload_len
            invariant
                payload@.len() == j <= payload_len,
            decreases payload_len - j,
        {
            payload.push(0);
            j = j + 1;
        }
        proof {
            lemma_gate_word(0);
        }
        Some(MappedLayout {
            meta: Meta { claims: 0, payload_reserved: 0, table },
            payload,
            payload_len,
            spans: Ghost(Seq::empty()),
        })
    }

    /// The claim counter.
    pub fn claims(&self) -> (claims: u64)
        ensures
            claims == self.spec_claims(),
    {
        self.meta.claims
    }

    /// The payload counter.
    pub fn payload_reserved(&self) -> (reserved: u64)
        ensures
            reserved == self.spec_payload_reserved(),
    {
        self.meta.payload_reserved
    }

    /// The descriptor table.
    pub fn table(&self) -> (table: &[u64])
        ensures
            table@ == self.spec_table(),
    {
        self.meta.table.as_slice()
    }

    /// Length of the payload area.
    pub fn payload_len(&self) -> (len: u32)
        ensures
            len == self.spec_payload_len(),
    {
        self.payload_len
    }
}

/// Why a frame could not be claimed.
#[derive(Debug, Clone, Copy, PartialEq, Eq, Structural)]
pub enum ClaimError {
    /// The CLOSED gate is set, by a seal or by an earlier failed claim.
    Closed,
    /// No room left, or a frame longer than a descriptor can describe. The
    /// claim set the CLOSED gate, so the seal fails and every later claim
    /// is refused.
    Capacity,
}

/// Why a channel could not be sealed.
#[derive(Debug, Clone, Copy, PartialEq, Eq, Structural)]
pub enum SealError {
    /// The mapping cannot hold the protocol at all.
    UnsupportedRegion,
    /// The channel was already closed when the seal ran: a claim had
    /// failed, or someone sealed earlier.
    Closed,
}

/// Whether a claim of `size` bytes is admitted.
pub open spec fn claim_admitted(claims: u64, reserved: u64, payload_len: u32, slots: int, size: int) -> bool {
    &&& size <= u32::MAX
    &&& spec_fitted_offset(reserved, size as u32, payload_len) is Some
    &&& !word_closed(claims)
    &&& claims < slots
}

/// Why a refused claim of `size` bytes is refused.
pub open spec fn claim_refusal(claims: u64, reserved: u64, payload_len: u32, size: int) -> ClaimError {
    if size <= u32::MAX && spec_fitted_offset(reserved, size as u32, payload_len) is Some && word_closed(claims) {
        ClaimError::Closed
    } else {
        ClaimError::Capacity
    }
}

/// The claim counter after a claim of `size` bytes.
pub open spec fn claims_after(claims: u64, reserved: u64, payload_len: u32, slots: int, size: int) -> u64 {
    if size > u32::MAX || spec_fitted_offset(reserved, size as u32, payload_len) is None {
        claims | CLOSED
    } else if !word_closed(claims) && claims >= slots {
        ((claims + 1) as u64) | CLOSED
    } else {
        (claims + 1) as u64
    }
}

/// The payload counter after a claim of `size` bytes.
pub open spec fn reserved_after(reserved: u64, size: int) -> u64 {
    if size > u32::MAX {
        reserved
    } else {
        (reserved + size) as u64
    }
}

/// What a well-formed region keeps, for callers: the payload area is
/// `spec_payload_len` bytes, every admitted slot's span lies inside it and
/// below the payload counter, spans follow one another in slot order, and
/// while the channel is open the admitted slots are the claim count, capped
/// at the table's length.
pub proof fn lemma_region_facts(region: MappedLayout)
    requires
        region.wf(),
    ensures
        region.spec_payload().len() == region.spec_payload_len(),
        region.spans().len() <= region.spec_table().len(),
        forall|i: int|
            0 <= i < region.spans().len() ==> {
                &&& 0 <= #[trigger] region.spans()[i].0
                &&& 1 <= region.spans()[i].1
                &&& region.spans()[i].0 + region.spans()[i].1 <= region.spec_payload_len()
                &&& region.spans()[i].0 + region.spans()[i].1 <= region.spec_payload_reserved()
                &&& region.span_bytes(i).len() == region.spans()[i].1
            },
        forall|i: int, j: int|
            0 <= i < j < region.spans().len() ==> #[trigger] region.spans()[i].0 + region.spans()[i].1
                <= #[trigger] region.spans()[j].0,
        forall|i: int| region.spans().len() <= i < region.spec_table().len() ==> #[trigger] region.spec_table()[i] == 0,
        !word_closed(region.spec_claims()) ==> region.spans().len() == (if word_count(region.spec_claims())
            <= region.spec_table().len() {
            word_count(region.spec_claims()) as int
        } else {
            region.spec_table().len() as int
        }),
{
}

/// Two frames claimed in one region for different slots never share a
/// payload byte: one ends at or before the other begins.
pub proof fn lemma_claimed_frames_never_overlap(region: MappedLayout, a: FrameMut, b: FrameMut)
    requires
        region.wf(),
        a.held_in(&region),
        b.held_in(&region),
        a.slot() != b.slot(),
    ensures
        a.span().0 + a.span().1 <= b.span().0 || b.span().0 + b.span().1 <= a.span().0,
{
    lemma_region_facts(region);
    if a.slot() < b.slot() {
        assert(region.spans()[a.slot()].0 + region.spans()[a.slot()].1 <= region.spans()[b.slot()].0);
    } else {
        assert(region.spans()[b.slot()].0 + region.spans()[b.slot()].1 <= region.spans()[a.slot()].0);
    }
}

/// A refused claim closes the channel: the claim counter it leaves has the
/// CLOSED bit set, so the seal that follows fails and no partial set of
/// frames is ever handed out. And both counters only ever climb, refused
/// claims included.
pub proof fn lemma_refused_claim_closes_the_channel(claims: u64, reserved: u64, payload_len: u32, slots: int, size: int)
    requires
        word_count(claims) < COUNT_MASK,
        size <= u32::MAX ==> reserved + size <= u64::MAX,
        size >= 0,
    ensures
        !claim_admitted(claims, reserved, payload_len, slots, size) ==> word_closed(
            claims_after(claims, reserved, payload_len, slots, size),
        ),
        word_count(claims_after(claims, reserved, payload_len, slots, size)) >= word_count(claims),
        reserved_after(reserved, size) >= reserved,
{
    lemma_gate_word(claims);
    let bumped = (claims + 1) as u64;
    lemma_gate_word(bumped);
    lemma_gate_word(bumped | CLOSED);
    assert(claims & 0x8000_0000_0000_0000u64 != 0 && claims & 0x7fff_ffff_ffff_ffffu64 < 0x7fff_ffff_ffff_ffffu64
        ==> ((claims + 1) as u64) & 0x8000_0000_0000_0000u64 != 0 && ((claims + 1) as u64) & 0x7fff_ffff_ffff_ffffu64
        == (claims & 0x7fff_ffff_ffff_ffffu64) + 1) by (bit_vector);
}

/// A writer on a shared region.
#[derive(Debug)]
pub struct ShmWriter {
    _attached: (),
}

/// An exclusively owned frame, claimed but not yet published.
#[derive(Debug)]
pub struct FrameMut {
    slot_index: usize,
    slot_to_commit: u64,
    offset: u32,
    len: u32,
}

impl FrameMut {
    pub closed spec fn slot(&self) -> int {
        self.slot_index as int
    }

    pub closed spec fn span(&self) -> (int, int) {
        (self.offset as int, self.len as int)
    }

    /// Whether this frame belongs to `region`'s slot it names.
    pub open spec fn held_in(&self, region: &MappedLayout) -> bool {
        &&& 0 <= self.slot() < region.spans().len()
        &&& region.spans()[self.slot()] == self.span()
        &&& self.committed_value() == spec_encode_committed(self.span().0 as u32, self.span().1 as u32)
    }

    pub closed spec fn committed_value(&self) -> u64 {
        self.slot_to_commit
    }

    /// The frame's length in bytes.
    pub fn len(&self) -> (len: usize)
        ensures
            len == self.span().1,
    {
        self.len as usize
    }

    /// Writes `data` into the start of the frame's payload span.
    pub fn write(&self, region: &mut MappedLayout, data: &[u8])
        requires
            old(region).wf(),
            self.held_in(old(region)),
            old(region).spec_table()[self.slot()] == 0,
            data@.len() <= self.span().1,
        ensures
            final(region).wf(),
            final(region).spec_claims() == old(region).spec_claims(),
            final(region).spec_payload_reserved() == old(region).spec_payload_reserved(),
            final(region).spec_table() == old(region).spec_table(),
            final(region).spans() == old(region).spans(),
            final(region).frames() == old(region).frames(),
            final(region).spec_payload_len() == old(region).spec_payload_len(),
            old(region).span_bytes(self.slot()).len() == self.span().1,
            final(region).span_bytes(self.slot()) == data@ + old(region).span_bytes(self.slot()).subrange(
                data@.len() as int,
                self.span().1,
            ),
    {
        let start: usize = self.offset as usize;
        let mut i: usize = 0;
        while i < data.len()
            invariant
                region.wf(),
                self.held_in(region),
                region.spec_table() == old(region).spec_table(),
                region.spec_claims() == old(region).spec_claims(),
                region.spec_payload_reserved() == old(region).spec_payload_reserved(),
                region.spans() == old(region).spans(),
                region.spec_payload().len() == old(region).spec_payload().len(),
                start == self.span().0,
                data@.len() <= self.span().1,
                0 <= i <= data@.len(),
                forall|k: int| 0 <= k < i ==> region.spec_payload()[start + k] == data@[k],
                forall|k: int|
                    0 <= k < region.spec_payload().len() && (k < start || k >= start + i)
                        ==> region.spec_payload()[k] == old(region).spec_payload()[k],
            decreases data@.len() - i,
        {
            region.payload.set(start + i, data[i]);
            i = i + 1;
        }
        proof {
            let slot = self.slot();
            let spans = region.spans();
            assert forall|j: int| 0 <= j < spans.len() implies #[trigger] region.frames()[j] == old(region).frames()[j] by {
                if region.spec_table()[j] != 0 {
                    assert(j != slot);
                    assert(region.span_bytes(j) =~= old(region).span_bytes(j)) by {
                        if j < slot {
                            assert(spans[j].0 + spans[j].1 <= spans[slot].0);
                        } else {
                            assert(spans[slot].0 + spans[slot].1 <= spans[j].0);
                        }
                    }
                }
            }
            assert(region.frames() =~= old(region).frames());
            assert(region.span_bytes(slot) =~= data@ + old(region).span_bytes(slot).subrange(
                data@.len() as int,
                self.span().1,
            ));
        }
    }

    /// Commits the frame, making it visible to the receiver.
    pub fn finish(self, region: &mut MappedLayout)
        requires
            old(region).wf(),
            self.held_in(old(region)),
        ensures
            final(region).wf(),
            final(region).spec_claims() == old(region).spec_claims(),
            final(region).spec_payload_reserved() == old(region).spec_payload_reserved(),
            final(region).spec_payload() == old(region).spec_payload(),
            final(region).spans() == old(region).spans(),
            final(region).spec_payload_len() == old(region).spec_payload_len(),
            final(region).spec_table() == old(region).spec_table().update(self.slot(), self.committed_value()),
            final(region).frames() == old(region).frames().update(
                self.slot(),
                Some(old(region).span_bytes(self.slot())),
            ),
    {
        proof {
            lemma_slot_codec(self.offset, self.len);
        }
        region.meta.table.set(self.slot_index, self.slot_to_commit);
        proof {
            let slot = self.slot();
            assert(region.frames() =~= old(region).frames().update(slot, Some(old(region).span_bytes(slot))));
        }
    }
}

impl ShmWriter {
    /// Attaches a writer to a region.
    pub fn new(region: &MappedLayout) -> (writer: Self) {
        ShmWriter { _attached: () }
    }

    /// Reports a record this writer could not write, which closes the
    /// channel and fails its seal.
    pub fn report_lost_record(&self, region: &mut MappedLayout)
        requires
            old(region).wf(),
        ensures
            final(region).wf(),
            final(region).spec_claims() == old(region).spec_claims() | CLOSED,
            word_closed(final(region).spec_claims()),
            final(region).spec_payload_reserved() == old(region).spec_payload_reserved(),
            final(region).spec_table() == old(region).spec_table(),
            final(region).spec_payload() == old(region).spec_payload(),
            final(region).spec_payload_len() == old(region).spec_payload_len(),
            final(region).spans() == old(region).spans(),
    {
        proof {
            lemma_gate_word(region.meta.claims);
        }
        region.meta.claims = region.meta.claims | CLOSED;
    }

    /// Whether the CLOSED gate is set, by a seal or by a failed claim.
    pub fn is_closed(&self, region: &MappedLayout) -> (closed: bool)
        ensures
            closed == word_closed(region.spec_claims()),
    {
        region.meta.claims & CLOSED != 0
    }

    /// Claims a frame of exactly `frame_size` bytes.
    ///
    /// The receiver cannot see the frame until [`FrameMut::finish`] commits
    /// it; a frame never finished leaves its slot unfinished, and the
    /// receiver skips it. A claim that does not fit sets the CLOSED gate and
    /// returns `Capacity`; one made after the CLOSED bit is set returns `Closed`.
    ///
    /// The counters never wrap in practice (that takes 2^63 claims or 2^64
    /// payload bytes); the requirements below say so.
    pub fn claim_frame(&self, region: &mut MappedLayout, frame_size: usize) -> (frame: Result<FrameMut, ClaimError>)
        requires
            old(region).wf(),
            frame_size >= 1,
            frame_size <= u32::MAX ==> old(region).spec_payload_reserved() + frame_size <= u64::MAX,
            word_count(old(region).spec_claims()) < COUNT_MASK,
        ensures
            final(region).wf(),
            final(region).spec_table() == old(region).spec_table(),
            final(region).spec_payload() == old(region).spec_payload(),
            final(region).spec_payload_len() == old(region).spec_payload_len(),
            final(region).spec_claims() == claims_after(
                old(region).spec_claims(),
                old(region).spec_payload_reserved(),
                old(region).spec_payload_len(),
                old(region).spec_table().len() as int,
                frame_size as int,
            ),
            final(region).spec_payload_reserved() == reserved_after(old(region).spec_payload_reserved(), frame_size as int),
            match frame {
                Ok(frame) => {
                    &&& claim_admitted(
                        old(region).spec_claims(),
                        old(region).spec_payload_reserved(),
                        old(region).spec_payload_len(),
                        old(region).spec_table().len() as int,
                        frame_size as int,
                    )
                    &&& frame.slot() == old(region).spans().len()
                    &&& frame.slot() == old(region).spec_claims()
                    &&& frame.span() == (old(region).spec_payload_reserved() as int, frame_size as int)
                    &&& frame.held_in(final(region))
                    &&& final(region).spans() == old(region).spans().push(frame.span())
                    &&& final(region).frames() == old(region).frames().push(None)
                },
                Err(error) => {
                    &&& !claim_admitted(
                        old(region).spec_claims(),
                        old(region).spec_payload_reserved(),
                        old(region).spec_payload_len(),
                        old(region).spec_table().len() as int,
                        frame_size as int,
                    )
                    &&& error == claim_refusal(
                        old(region).spec_claims(),
                        old(region).spec_payload_reserved(),
                        old(region).spec_payload_len(),
                        frame_size as int,
                    )
                    &&& final(region).spans() == old(region).spans()
                    &&& final(region).frames() == old(region).frames()
                },
            },
    {
        proof {
            lemma_gate_word(region.meta.claims);
        }
        if frame_size > 0xffff_ffff {
            region.meta.claims = region.meta.claims | CLOSED;
            return Err(ClaimError::Capacity);
        }
        let size: u32 = frame_size as u32;
        let payload_start: u64 = region.meta.payload_reserved;
        region.meta.payload_reserved = payload_start + size as u64;
        let payload_offset: u32 = match fitted_offset(payload_start, size, region.payload_len) {
            Some(offset) => offset,
            None => {
                region.meta.claims = region.meta.claims | CLOSED;
                proof {
                    assert(region.frames() =~= old(region).frames());
                }
                return Err(ClaimError::Capacity);
            },
        };
        let claims: u64 = region.meta.claims;
        region.meta.claims = claims + 1;
        proof {
            lemma_gate_word((claims + 1) as u64);
        }
        if claims & CLOSED != 0 {
            proof {
                assert(region.frames() =~= old(region).frames());
            }
            return Err(ClaimError::Closed);
        }
        let slots: usize = region.meta.table.len();
        if claims >= slots as u64 {
            region.meta.claims = region.meta.claims | CLOSED;
            proof {
                assert(region.frames() =~= old(region).frames());
            }
            return Err(ClaimError::Capacity);
        }
        let slot_index: usize = claims as usize;
        let slot_to_commit: u64 = SlotState::Committed { offset: payload_offset, len: size }.encode();
        proof {
            let new_span = (payload_offset as int, size as int);
            region.spans@ = region.spans@.push(new_span);
            assert(region.frames() =~= old(region).frames().push(None));
        }
        Ok(FrameMut { slot_index, slot_to_commit, offset: payload_offset, len: size })
    }

    /// Claims, fills and commits one frame holding `frame`; false when the
    /// frame is empty or the claim is refused.
    pub fn try_write_frame(&self, region: &mut MappedLayout, frame: &[u8]) -> (written: bool)
        requires
            old(region).wf(),
            frame@.len() <= u32::MAX ==> old(region).spec_payload_reserved() + frame@.len() <= u64::MAX,
            word_count(old(region).spec_claims()) < COUNT_MASK,
        ensures
            final(region).wf(),
            written == (frame@.len() >= 1 && claim_admitted(
                old(region).spec_claims(),
                old(region).spec_payload_reserved(),
                old(region).spec_payload_len(),
                old(region).spec_table().len() as int,
                frame@.len() as int,
            )),
            written ==> final(region).frames() == old(region).frames().push(Some(frame@)),
            !written ==> final(region).frames() == old(region).frames(),
            frame@.len() >= 1 ==> final(region).spec_claims() == claims_after(
                old(region).spec_claims(),
                old(region).spec_payload_reserved(),
                old(region).spec_payload_len(),
                old(region).spec_table().len() as int,
                frame@.len() as int,
            ),
            frame@.len() == 0 ==> final(region).spec_claims() == old(region).spec_claims(),
            frame@.len() >= 1 ==> final(region).spec_payload_reserved() == reserved_after(
                old(region).spec_payload_reserved(),
                frame@.len() as int,
            ),
            frame@.len() == 0 ==> final(region).spec_payload_reserved() == old(region).spec_payload_reserved(),
            final(region).spec_payload_len() == old(region).spec_payload_len(),
            final(region).spec_table().len() == old(region).spec_table().len(),
    {
        if frame.len() == 0 {
            return false;
        }
        match self.claim_frame(region, frame.len()) {
            Err(_) => false,
            Ok(frame_mut) => {
                let ghost slot = frame_mut.slot();
                frame_mut.write(region, frame);
                let ghost before_finish = *region;
                frame_mut.finish(region);
                proof {
                    assert(before_finish.span_bytes(slot) =~= frame@);
                    assert(region.frames() =~= old(region).frames().push(Some(frame@)));
                }
                true
            },
        }
    }
}

/// A reader over the committed frames of a sealed channel.
#[derive(Debug)]
pub struct ShmReader {
    admitted: usize,
}

impl ShmReader {
    /// How many slots the seal admitted.
    pub closed spec fn admitted(&self) -> int {
        self.admitted as int
    }

    /// Seals the channel against further records and returns the reader of
    /// its committed frames.
    ///
    /// One swap fixes how far reading goes and sets the CLOSED bit. If that bit
    /// was already set (a claim had failed, or someone sealed earlier) there
    /// is no complete set of records and this fails instead.
    pub fn seal(region: &mut MappedLayout) -> (reader: Result<Self, SealError>)
        requires
            old(region).wf(),
        ensures
            final(region).wf(),
            final(region).spec_claims() == CLOSED,
            final(region).spec_payload_reserved() == old(region).spec_payload_reserved(),
            final(region).spec_table() == old(region).spec_table(),
            final(region).spec_payload() == old(region).spec_payload(),
            final(region).spans() == old(region).spans(),
            final(region).frames() == old(region).frames(),
            match reader {
                Ok(reader) => {
                    &&& !word_closed(old(region).spec_claims())
                    &&& reader.admitted() == old(region).frames().len()
                    &&& reader.admitted() == (if word_count(old(region).spec_claims()) <= old(region).spec_table().len() {
                        word_count(old(region).spec_claims()) as int
                    } else {
                        old(region).spec_table().len() as int
                    })
                },
                Err(error) => word_closed(old(region).spec_claims()) && error == SealError::Closed,
            },
    {
        let claims: u64 = region.meta.claims;
        region.meta.claims = CLOSED;
        proof {
            lemma_gate_word(claims);
            lemma_gate_word(CLOSED);
            assert(region.frames() =~= old(region).frames());
        }
        if claims & CLOSED != 0 {
            return Err(SealError::Closed);
        }
        let slots: usize = region.meta.table.len();
        let admitted: usize = if claims <= slots as u64 {
            claims as usize
        } else {
            slots
        };
        Ok(ShmReader { admitted })
    }

    /// An iterator over the committed frames of the admitted slots, in claim
    /// order.
    pub fn iter(&self) -> (iter: Iter)
        ensures
            iter.position() == 0,
            iter.end() == self.admitted(),
    {
        Iter { position: 0, end: self.admitted }
    }
}

/// Splitting the slots anywhere splits their committed frames there.
proof fn lemma_committed_frames_concat(a: Seq<SlotView>, b: Seq<SlotView>)
    ensures
        committed_frames(a + b) == committed_frames(a) + committed_frames(b),
    decreases b.len(),
{
    if b.len() == 0 {
        assert(a + b =~= a);
        assert(committed_frames(a) + committed_frames(b) =~= committed_frames(a));
    } else {
        lemma_committed_frames_concat(a, b.drop_last());
        assert((a + b).drop_last() =~= a + b.drop_last());
        assert((a + b).last() == b.last());
        match b.last() {
            Some(frame) => {
                assert(committed_frames(a) + committed_frames(b.drop_last()).push(frame) =~= (committed_frames(a)
                    + committed_frames(b.drop_last())).push(frame));
            },
            None => {},
        }
    }
}

/// A frame whose writer died or gave the claim up is the only thing lost:
/// its slot stays unfinished, and the frames committed before and after
/// it are read as if it were not there.
pub proof fn lemma_unfinished_frames_hide_nothing(before: Seq<SlotView>, after: Seq<SlotView>)
    ensures
        committed_frames(before.push(None) + after) == committed_frames(before) + committed_frames(after),
{
    lemma_committed_frames_concat(before.push(None), after);
    assert(before.push(None).drop_last() =~= before);
}

/// The reader's position in the admitted slots: it yields the committed
/// frames among slots `position..end`, reading each slot only when it gets
/// there.
#[derive(Debug)]
pub struct Iter {
    position: usize,
    end: usize,
}

impl Iter {
    pub closed spec fn position(&self) -> int {
        self.position as int
    }

    pub closed spec fn end(&self) -> int {
        self.end as int
    }

    /// The committed frames this iterator has yet to yield, as `region`
    /// reads now.
    pub open spec fn remaining(&self, region: &MappedLayout) -> Seq<Seq<u8>> {
        committed_frames(region.frames().subrange(self.position(), self.end()))
    }

    /// The next committed frame, or `None` once the admitted slots are
    /// exhausted. A slot is read when the iterator reaches it, so a frame
    /// whose writer commits after the seal but before this call shows up.
    pub fn next(&mut self, region: &MappedLayout) -> (frame: Option<Vec<u8>>)
        requires
            region.wf(),
            old(self).position() <= old(self).end() <= region.frames().len(),
        ensures
            final(self).end() == old(self).end(),
            old(self).position() <= final(self).position() <= final(self).end(),
            match frame {
                Some(frame) => old(self).remaining(region) == seq![frame@] + final(self).remaining(region),
                None => old(self).remaining(region) == Seq::<Seq<u8>>::empty() && final(self).position()
                    == final(self).end(),
            },
    {
        let ghost slots = region.frames();
        let ghost start = self.position as int;
        let ghost end = self.end as int;
        while self.position < self.end
            invariant
                region.wf(),
                slots == region.frames(),
                self.end == end,
                0 <= start <= self.position <= end <= slots.len(),
                start == old(self).position(),
                end == old(self).end(),
                committed_frames(slots.subrange(start, self.position as int)) == Seq::<Seq<u8>>::empty(),
            decreases end - self.position,
        {
            let i: usize = self.position;
            let value: u64 = region.meta.table[i];
            proof {
                lemma_slot_codec(region.spans@[i as int].0 as u32, region.spans@[i as int].1 as u32);
                lemma_committed_frames_concat(slots.subrange(start, i as int), slots.subrange(i as int, i as int + 1));
                assert(slots.subrange(start, i as int) + slots.subrange(i as int, i as int + 1) =~= slots.subrange(
                    start,
                    i as int + 1,
                ));
                let one = slots.subrange(i as int, i as int + 1);
                assert(one.drop_last() =~= Seq::<SlotView>::empty());
                assert(committed_frames(one.drop_last()) =~= Seq::<Seq<u8>>::empty());
                assert(one.last() == slots[i as int]);
                assert(committed_frames(one) =~= match slots[i as int] {
                    Some(frame) => seq![frame],
                    None => Seq::<Seq<u8>>::empty(),
                });
                lemma_committed_frames_concat(slots.subrange(start, i as int), slots.subrange(i as int, end));
                assert(slots.subrange(start, i as int) + slots.subrange(i as int, end) =~= slots.subrange(start, end));
                lemma_committed_frames_concat(one, slots.subrange(i as int + 1, end));
                assert(one + slots.subrange(i as int + 1, end) =~= slots.subrange(i as int, end));
            }
            self.position = i + 1;
            match SlotState::decode(value) {
                SlotState::Unfinished => {
                    proof {
                        assert(value == 0);
                        assert(slots[i as int] is None);
                        let one = slots.subrange(i as int, i as int + 1);
                        assert(committed_frames(one) =~= Seq::<Seq<u8>>::empty());
                        assert(committed_frames(slots.subrange(start, i as int + 1)) =~= Seq::<Seq<u8>>::empty());
                    }
                },
                SlotState::Committed { offset, len } => {
                    let begin: usize = offset as usize;
                    let stop: usize = begin + len as usize;
                    let frame = vstd::slice::slice_to_vec(
                        vstd::slice::slice_subrange(region.payload.as_slice(), begin, stop),
                    );
                    proof {
                        assert(slots[i as int] == Some(frame@));
                        let one = slots.subrange(i as int, i as int + 1);
                        assert(committed_frames(one) =~= seq![frame@]);
                        assert(committed_frames(slots.subrange(i as int, end)) =~= seq![frame@] + committed_frames(
                            slots.subrange(i as int + 1, end),
                        ));
                        assert(committed_frames(slots.subrange(start, end)) =~= seq![frame@] + committed_frames(
                            slots.subrange(i as int + 1, end),
                        ));
                    }
                    return Some(frame);
                },
            }
        }
        proof {
            assert(self.position == end);
        }
        None
    }
}

} // verus!
