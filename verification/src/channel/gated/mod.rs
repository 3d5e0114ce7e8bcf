//! A close gate in front of a frame arena.
//!
//! Region layout:
//!
//! ```text
//! | gate word: u64 | padding to 64 bytes | frame arena |
//! ```
//!
//! Writers reach the arena only while holding a gate guard, for the
//! lifetime of every frame. The read end starts as a [`GatedShmReceiver`],
//! and the only way to obtain a [`GatedShmReader`] is a successful
//! [`GatedShmReceiver::close`], which requires that no guard was held: so
//! "never read memory that is still being written" is a property of the
//! types.
//!
//! [`GatedRegion`] is the region both ends act on; each end's operations
//! take it explicitly.
pub mod shm_io;

use vstd::prelude::*;

use self::shm_io::{arena_frames, arena_readable, lemma_written_arena_reads_back, spec_claim_update, FrameSpan, ShmReader, ShmWriter};
use super::gate::{word_closed, word_count, EnterError, Gate, GateGuard, COUNT_MASK};

verus! {

/// Bytes reserved in front of the arena for the admission word.
pub const GATE_REGION_SIZE: usize = 64;

/// Why a frame could not be claimed.
#[derive(Debug, Clone, Copy, PartialEq, Eq, Structural)]
pub enum ClaimError {
    /// This region is closed. The caller must discard the access silently.
    Closed,
    /// The arena is full, the frame is larger than a header can describe,
    /// or the admission count saturated.
    Capacity,
}

/// The claim error a gate refusal stands for.
impl From<EnterError> for ClaimError {
    fn from(error: EnterError) -> (claim: ClaimError) {
        match error {
            EnterError::Closed => ClaimError::Closed,
            EnterError::Saturated => ClaimError::Capacity,
        }
    }
}

impl vstd::std_specs::convert::FromSpecImpl<EnterError> for ClaimError {
    open spec fn obeys_from_spec() -> bool {
        true
    }

    open spec fn from_spec(error: EnterError) -> ClaimError {
        match error {
            EnterError::Closed => ClaimError::Closed,
            EnterError::Saturated => ClaimError::Capacity,
        }
    }
}

/// A close found writers still in flight, so the region cannot be read.
#[derive(Debug, Clone, Copy, PartialEq, Eq, Structural)]
pub struct StillWriting {
    /// How many gate guards were held at the instant of the close.
    pub in_flight: u64,
}

/// A gated shared-memory region: an admission word and the frame arena.
pub struct GatedRegion {
    gate: Gate,
    arena: ShmWriter,
}

impl GatedRegion {
    pub closed spec fn gate_word(&self) -> u64 {
        self.gate@
    }

    /// The arena bytes.
    pub closed spec fn arena(&self) -> Seq<u8> {
        self.arena@
    }

    /// The frames claimed so far, in claim order, with their current bytes.
    pub closed spec fn frames(&self) -> Seq<Seq<u8>> {
        self.arena.frames()
    }

    pub closed spec fn holds(&self, span: FrameSpan) -> bool {
        self.arena.holds(span)
    }

    pub closed spec fn wf(&self) -> bool {
        self.arena.wf()
    }

    /// What well-formedness tells a caller: the arena has room for its end
    /// word, its end lies inside it with only zeros after it, and the arena
    /// as it stands reads back exactly the claimed frames.
    pub proof fn lemma_region_facts(&self)
        requires
            self.wf(),
        ensures
            shm_io::END_OFFSET_SIZE <= self.arena().len() <= shm_io::MAX_ARENA_LEN,
            shm_io::END_OFFSET_SIZE + shm_io::arena_end(self.arena()) <= self.arena().len(),
            forall|i: int|
                shm_io::END_OFFSET_SIZE + shm_io::arena_end(self.arena()) <= i < self.arena().len()
                    ==> #[trigger] self.arena()[i] == 0,
            shm_io::arena_readable(self.arena()),
            shm_io::arena_frames(self.arena()) == self.frames(),
    {
        shm_io::lemma_arena_bounds(self.arena);
        shm_io::lemma_written_arena_reads_back(self.arena);
    }

    /// A zero-initialized region of `region_len` bytes with its two ends.
    ///
    /// The region must be larger than its admission header, and the arena behind
    /// it needs room for its end word.
    pub fn new(region_len: usize) -> (endpoints: (Self, GatedShmWriter, GatedShmReceiver))
        requires
            GATE_REGION_SIZE + shm_io::END_OFFSET_SIZE <= region_len <= shm_io::MAX_ARENA_LEN,
        ensures
            endpoints.0.wf(),
            endpoints.0.gate_word() == 0,
            endpoints.0.frames().len() == 0,
            endpoints.0.arena().len() == region_len - GATE_REGION_SIZE,
            shm_io::arena_end(endpoints.0.arena()) == 0,
            forall|k: int| 0 <= k < endpoints.0.arena().len() ==> #[trigger] endpoints.0.arena()[k] == 0,
    {
        let arena = ShmWriter::new(region_len - GATE_REGION_SIZE);
        (
            GatedRegion { gate: Gate::new(0), arena },
            GatedShmWriter { _end: () },
            GatedShmReceiver { _end: () },
        )
    }
}

/// The write end of a gated region.
#[derive(Debug)]
pub struct GatedShmWriter {
    _end: (),
}

/// An exclusively owned frame together with the guard that keeps the
/// region open while it is written.
#[derive(Debug)]
pub struct FrameMut {
    span: FrameSpan,
    _gate: GateGuard,
}

impl FrameMut {
    pub closed spec fn span(&self) -> FrameSpan {
        self.span
    }

    /// The frame's length in bytes.
    pub fn len(&self) -> (len: usize)
        ensures
            len == self.span().len,
    {
        self.span.len
    }

    /// Writes `data` into the start of the frame's content.
    pub fn write(&self, region: &mut GatedRegion, data: &[u8])
        requires
            old(region).wf(),
            old(region).holds(self.span()),
            data@.len() <= self.span().len,
        ensures
            final(region).wf(),
            final(region).gate_word() == old(region).gate_word(),
            final(region).arena().len() == old(region).arena().len(),
            shm_io::arena_end(final(region).arena()) == shm_io::arena_end(old(region).arena()),
            forall|span: FrameSpan| old(region).holds(span) ==> final(region).holds(span),
            final(region).frames() == old(region).frames().update(
                self.span().index as int,
                data@ + old(region).frames()[self.span().index as int].subrange(
                    data@.len() as int,
                    self.span().len as int,
                ),
            ),
    {
        region.arena.write_frame(self.span, data);
    }

    /// Ends the frame: releasing its guard is what publishes the
    /// content to a reader.
    pub fn finish(self, region: &mut GatedRegion)
        requires
            old(region).wf(),
            word_count(old(region).gate_word()) > 0,
        ensures
            final(region).wf(),
            final(region).gate_word() == old(region).gate_word() - 1,
            word_count(final(region).gate_word()) == word_count(old(region).gate_word()) - 1,
            word_closed(final(region).gate_word()) == word_closed(old(region).gate_word()),
            final(region).frames() == old(region).frames(),
            final(region).arena() == old(region).arena(),
            forall|span: FrameSpan| old(region).holds(span) ==> final(region).holds(span),
    {
        let FrameMut { span, _gate } = self;
        region.gate.release(_gate);
    }
}

impl GatedShmWriter {
    /// Claims a frame of `size` bytes, holding the region open until the
    /// frame is finished.
    ///
    /// `Closed` once the read end has closed the region; `Capacity` when the
    /// gate count saturated or the arena cannot fit the frame. A refused
    /// claim leaves the region as it was.
    pub fn claim_frame(&self, region: &mut GatedRegion, size: usize) -> (frame: Result<FrameMut, ClaimError>)
        requires
            old(region).wf(),
            size >= 1,
        ensures
            final(region).wf(),
            match frame {
                Ok(frame) => {
                    &&& !word_closed(old(region).gate_word())
                    &&& word_count(old(region).gate_word()) < COUNT_MASK
                    &&& size <= u32::MAX
                    &&& spec_claim_update(
                        shm_io::arena_end(old(region).arena()),
                        size as int,
                        old(region).arena().len() as int,
                    ) is Some
                    &&& final(region).gate_word() == old(region).gate_word() + 1
                    &&& word_count(final(region).gate_word()) == word_count(old(region).gate_word()) + 1
                    &&& final(region).arena().len() == old(region).arena().len()
                    &&& spec_claim_update(
                        shm_io::arena_end(old(region).arena()),
                        size as int,
                        old(region).arena().len() as int,
                    ) == Some(shm_io::arena_end(final(region).arena()))
                    &&& frame.span().index == old(region).frames().len()
                    &&& frame.span().len == size
                    &&& final(region).holds(frame.span())
                    &&& final(region).frames() == old(region).frames().push(Seq::new(size as nat, |i: int| 0u8))
                    &&& forall|span: FrameSpan| old(region).holds(span) ==> final(region).holds(span)
                },
                Err(error) => {
                    &&& final(region).gate_word() == old(region).gate_word()
                    &&& final(region).arena() == old(region).arena()
                    &&& final(region).frames() == old(region).frames()
                    &&& forall|span: FrameSpan| old(region).holds(span) <==> final(region).holds(span)
                    &&& (error == ClaimError::Closed <==> word_closed(old(region).gate_word()))
                    &&& (error == ClaimError::Capacity <==> !word_closed(old(region).gate_word()) && {
                        ||| word_count(old(region).gate_word()) == COUNT_MASK
                        ||| size > u32::MAX
                        ||| spec_claim_update(
                            shm_io::arena_end(old(region).arena()),
                            size as int,
                            old(region).arena().len() as int,
                        ) is None
                    })
                },
            },
    {
        let guard = match region.gate.enter() {
            Ok(guard) => guard,
            Err(error) => return Err(ClaimError::from(error)),
        };
        match region.arena.claim_frame(size) {
            Some(span) => Ok(FrameMut { span, _gate: guard }),
            None => {
                region.gate.release(guard);
                Err(ClaimError::Capacity)
            },
        }
    }
}

/// Why an encoded value could not be written as a frame.
#[derive(Debug, Clone, Copy, PartialEq, Eq, Structural)]
pub enum WriteEncodedError {
    /// The frame could not be claimed.
    Claim(ClaimError),
    /// The value encodes to nothing, and a frame is never empty.
    ZeroSizedFrame,
}

impl GatedShmWriter {
    /// Appends the encoding `encoded` of a value as one frame.
    ///
    /// Admission is taken before the encoding is looked at, so a write
    /// after the close reports `Closed` whatever the value encodes to; an
    /// empty encoding is refused next, and the region is then as it was.
    pub fn write_encoded(&self, region: &mut GatedRegion, encoded: &[u8]) -> (written: Result<(), WriteEncodedError>)
        requires
            old(region).wf(),
        ensures
            final(region).wf(),
            final(region).gate_word() == old(region).gate_word(),
            match written {
                Ok(()) => {
                    &&& !word_closed(old(region).gate_word())
                    &&& word_count(old(region).gate_word()) < COUNT_MASK
                    &&& encoded@.len() >= 1
                    &&& final(region).frames() == old(region).frames().push(encoded@)
                },
                Err(WriteEncodedError::Claim(ClaimError::Closed)) => {
                    &&& word_closed(old(region).gate_word())
                    &&& final(region).frames() == old(region).frames()
                },
                Err(WriteEncodedError::ZeroSizedFrame) => {
                    &&& !word_closed(old(region).gate_word())
                    &&& word_count(old(region).gate_word()) < COUNT_MASK
                    &&& encoded@.len() == 0
                    &&& final(region).frames() == old(region).frames()
                },
                Err(WriteEncodedError::Claim(ClaimError::Capacity)) => {
                    &&& !word_closed(old(region).gate_word())
                    &&& final(region).frames() == old(region).frames()
                    &&& {
                        ||| word_count(old(region).gate_word()) == COUNT_MASK
                        ||| (encoded@.len() >= 1 && (encoded@.len() > u32::MAX || spec_claim_update(
                            shm_io::arena_end(old(region).arena()),
                            encoded@.len() as int,
                            old(region).arena().len() as int,
                        ) is None))
                    }
                },
            },
    {
        let guard = match region.gate.enter() {
            Ok(guard) => guard,
            Err(error) => return Err(WriteEncodedError::Claim(ClaimError::from(error))),
        };
        if encoded.len() == 0 {
            region.gate.release(guard);
            return Err(WriteEncodedError::ZeroSizedFrame);
        }
        match region.arena.claim_frame(encoded.len()) {
            Some(span) => {
                let frame = FrameMut { span, _gate: guard };
                frame.write(region, encoded);
                proof {
                    assert(encoded@ + region.frames()[span.index as int].subrange(
                        encoded@.len() as int,
                        span.len as int,
                    ) =~= encoded@);
                }
                frame.finish(region);
                assert(region.frames() =~= old(region).frames().push(encoded@));
                Ok(())
            },
            None => {
                region.gate.release(guard);
                Err(WriteEncodedError::Claim(ClaimError::Capacity))
            },
        }
    }
}

/// The read end before the region has been frozen.
#[derive(Debug)]
pub struct GatedShmReceiver {
    _end: (),
}

impl GatedShmReceiver {
    /// Closes the region and, if nothing was in flight, hands out the reader.
    ///
    /// On success every later claim fails against the closed bit, so the
    /// arena is never written again: the reader holds its final bytes and
    /// yields exactly the frames claimed before the close, in claim order.
    pub fn close(self, region: &mut GatedRegion) -> (reader: Result<GatedShmReader, StillWriting>)
        requires
            old(region).wf(),
        ensures
            final(region).wf(),
            final(region).arena() == old(region).arena(),
            final(region).frames() == old(region).frames(),
            word_closed(final(region).gate_word()),
            word_count(final(region).gate_word()) == word_count(old(region).gate_word()),
            forall|span: FrameSpan| old(region).holds(span) <==> final(region).holds(span),
            match reader {
                Ok(reader) => {
                    &&& word_count(old(region).gate_word()) == 0
                    &&& reader.readable()
                    &&& reader.frames() == old(region).frames()
                },
                Err(still_writing) => {
                    &&& word_count(old(region).gate_word()) != 0
                    &&& still_writing.in_flight == word_count(old(region).gate_word())
                },
            },
    {
        let in_flight: u64 = region.gate.close();
        if in_flight == 0 {
            proof {
                lemma_written_arena_reads_back(region.arena);
            }
            let mem = region.arena.copy_memory();
            Ok(GatedShmReader { frames: ShmReader::new(mem) })
        } else {
            Err(StillWriting { in_flight })
        }
    }
}

/// A frozen region, obtainable only from a successful
/// [`GatedShmReceiver::close`].
#[derive(Debug)]
pub struct GatedShmReader {
    frames: ShmReader,
}

impl GatedShmReader {
    pub closed spec fn readable(&self) -> bool {
        arena_readable(self.frames@)
    }

    /// The frames this reader yields.
    pub closed spec fn frames(&self) -> Seq<Seq<u8>> {
        arena_frames(self.frames@)
    }

    /// Every frame written before the close, in claim order.
    pub fn iter_frames(&self) -> (frames: Vec<Vec<u8>>)
        requires
            self.readable(),
        ensures
            frames@.map_values(|frame: Vec<u8>| frame@) == self.frames(),
    {
        self.frames.iter_frames()
    }
}

} // verus!
