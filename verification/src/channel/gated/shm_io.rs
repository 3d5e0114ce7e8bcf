//! A frame arena in a shared memory region.
//!
//! Region layout:
//!
//! ```text
//! | total byte size of frames: u64 | frame | frame | ... |
//! ```
//!
//! and every frame is
//!
//! ```text
//! | size: u32 | content | padding to the next 4-byte boundary |
//! ```
//!
//! Integers are stored little-endian. One word, the end offset, carries the
//! whole arena: a claim moves it past a new frame ([`claim_update`]) and
//! writes the frame's size header at the old end; nothing else ever touches
//! a header. The reader walks the headers from the start
//! ([`ShmReader::iter_frames`]).
use vstd::bytes::*;
use vstd::prelude::*;
use vstd::slice::*;

verus! {

/// Bytes of the end-offset word in front of the frames.
pub const END_OFFSET_SIZE: usize = 8;
/// Bytes of a frame's size header.
pub const FRAME_HEADER_SIZE: usize = 4;
/// Arena lengths stay below this bound, as every mapping's does.
pub const MAX_ARENA_LEN: u64 = 0x7fff_ffff_ffff_ffff;

/// `size` rounded up to the next multiple of the header alignment (4).
pub open spec fn spec_roundup(size: int) -> int {
    (size + 3) / 4 * 4
}

pub fn roundup_to_align_frame_header(size: u64) -> (rounded: u64)
    requires
        size <= u64::MAX - 3,
    ensures
        rounded == spec_roundup(size as int),
        size <= rounded < size + 4,
        rounded % 4 == 0,
{
    (size + 3) / 4 * 4
}

/// The end offset a claim of `frame_size` content bytes moves `current_end`
/// to, or `None` when the frame would not fit an arena of `arena_len` bytes.
pub open spec fn spec_claim_update(current_end: int, frame_size: int, arena_len: int) -> Option<int> {
    let new_end = spec_roundup(current_end + FRAME_HEADER_SIZE + frame_size);
    if END_OFFSET_SIZE + new_end > arena_len {
        None
    } else {
        Some(new_end)
    }
}

/// The decision a claim applies to the end-offset word: the new end, or
/// `None` when the arena has no room for the frame.
pub fn claim_update(current_end: u64, frame_size: u32, arena_len: u64) -> (new_end: Option<u64>)
    requires
        current_end <= arena_len <= MAX_ARENA_LEN,
    ensures
        new_end == (match spec_claim_update(current_end as int, frame_size as int, arena_len as int) {
            Some(end) => Some(end as u64),
            None => None,
        }),
{
    let new_end: u64 = roundup_to_align_frame_header(current_end + 4 + frame_size as u64);
    if 8 + new_end > arena_len {
        None
    } else {
        Some(new_end)
    }
}

// --- The byte format ---------------------------------------------------------

/// The little-endian `u32` at `pos`.
pub open spec fn le_u32_at(content: Seq<u8>, pos: int) -> u32 {
    spec_u32_from_le_bytes(content.subrange(pos, pos + 4))
}

/// Whether the reader can walk `content` from `pos` to its end: every
/// header it meets names a nonzero frame that fits, padding included.
/// Fewer than four trailing bytes end the walk.
pub open spec fn frames_wf_from(content: Seq<u8>, pos: int) -> bool
    decreases content.len() - pos,
{
    if pos < 0 || content.len() - pos < 4 {
        true
    } else {
        let size = le_u32_at(content, pos) as int;
        let next = pos + 4 + spec_roundup(size);
        size != 0 && next <= content.len() && frames_wf_from(content, next)
    }
}

/// The frames the reader yields from `pos`, in order.
pub open spec fn frames_from(content: Seq<u8>, pos: int) -> Seq<Seq<u8>>
    decreases content.len() - pos,
{
    if pos < 0 || content.len() - pos < 4 {
        Seq::empty()
    } else {
        let size = le_u32_at(content, pos) as int;
        let next = pos + 4 + spec_roundup(size);
        if size == 0 || next > content.len() {
            Seq::empty()
        } else {
            seq![content.subrange(pos + 4, pos + 4 + size)] + frames_from(content, next)
        }
    }
}

/// The end offset stored in an arena's first word.
pub open spec fn arena_end(mem: Seq<u8>) -> int {
    spec_u64_from_le_bytes(mem.subrange(0, 8)) as int
}

/// The frame bytes of an arena: everything up to the end offset.
pub open spec fn arena_content(mem: Seq<u8>) -> Seq<u8> {
    mem.subrange(END_OFFSET_SIZE as int, END_OFFSET_SIZE + arena_end(mem))
}

/// Whether a reader can walk the arena without failing.
pub open spec fn arena_readable(mem: Seq<u8>) -> bool {
    &&& mem.len() >= END_OFFSET_SIZE
    &&& END_OFFSET_SIZE + arena_end(mem) <= mem.len()
    &&& frames_wf_from(arena_content(mem), 0)
}

/// The frames a reader yields from an arena.
pub open spec fn arena_frames(mem: Seq<u8>) -> Seq<Seq<u8>> {
    frames_from(arena_content(mem), 0)
}

/// The headers from `pos` describe exactly the frames `spans` (each a
/// content start and length, relative to the content), ending exactly at
/// the content's end.
pub open spec fn layout_from(content: Seq<u8>, pos: int, spans: Seq<(int, int)>) -> bool
    decreases spans.len(),
{
    if spans.len() == 0 {
        pos == content.len()
    } else {
        let start = spans[0].0;
        let len = spans[0].1;
        let next = pos + 4 + spec_roundup(len);
        &&& 0 <= pos
        &&& start == pos + 4
        &&& 1 <= len <= u32::MAX
        &&& next <= content.len()
        &&& le_u32_at(content, pos) == len
        &&& layout_from(content, next, spans.drop_first())
    }
}

pub open spec fn span_bytes(content: Seq<u8>, spans: Seq<(int, int)>) -> Seq<Seq<u8>> {
    Seq::new(spans.len(), |i: int| content.subrange(spans[i].0, spans[i].0 + spans[i].1))
}

/// A layout parses as its frames.
pub proof fn lemma_layout_parses(content: Seq<u8>, pos: int, spans: Seq<(int, int)>)
    requires
        layout_from(content, pos, spans),
    ensures
        frames_wf_from(content, pos),
        frames_from(content, pos) == span_bytes(content, spans),
    decreases spans.len(),
{
    if spans.len() > 0 {
        let next = pos + 4 + spec_roundup(spans[0].1);
        lemma_layout_parses(content, next, spans.drop_first());
        assert(span_bytes(content, spans) =~= seq![content.subrange(pos + 4, pos + 4 + spans[0].1)]
            + span_bytes(content, spans.drop_first()));
    } else {
        assert(span_bytes(content, spans) =~= Seq::<Seq<u8>>::empty());
    }
}

/// Appending one frame at the content's end extends the layout.
proof fn lemma_layout_append(
    content: Seq<u8>,
    extended: Seq<u8>,
    pos: int,
    spans: Seq<(int, int)>,
    len: int,
)
    requires
        layout_from(content, pos, spans),
        extended.len() == content.len() + 4 + spec_roundup(len),
        extended.subrange(0, content.len() as int) == content,
        le_u32_at(extended, content.len() as int) == len,
        1 <= len <= u32::MAX,
    ensures
        layout_from(extended, pos, spans.push((content.len() as int + 4, len))),
    decreases spans.len(),
{
    let new_spans = spans.push((content.len() as int + 4, len));
    if spans.len() == 0 {
        assert(new_spans.len() == 1);
        assert(new_spans[0] == (content.len() as int + 4, len));
        assert(new_spans.drop_first() =~= Seq::<(int, int)>::empty());
        assert(layout_from(extended, extended.len() as int, new_spans.drop_first()));
    } else {
        assert(new_spans[0] == spans[0]);
        let next = pos + 4 + spec_roundup(spans[0].1);
        lemma_layout_append(content, extended, next, spans.drop_first(), len);
        assert(new_spans.drop_first() =~= spans.drop_first().push((content.len() as int + 4, len)));
        assert(extended.subrange(pos, pos + 4) =~= content.subrange(pos, pos + 4)) by {
            assert forall|i: int| 0 <= i < 4 implies #[trigger] extended.subrange(pos, pos + 4)[i] == content.subrange(pos, pos + 4)[i] by {
                assert(extended.subrange(0, content.len() as int)[pos + i] == content[pos + i]);
            }
        }
    }
}

/// Changing bytes that lie before `pos` or inside one frame's content keeps
/// every header, so the layout stays.
proof fn lemma_layout_content_write(
    content: Seq<u8>,
    changed: Seq<u8>,
    pos: int,
    spans: Seq<(int, int)>,
    a: int,
    b: int,
)
    requires
        layout_from(content, pos, spans),
        changed.len() == content.len(),
        a <= b,
        forall|i: int| 0 <= i < content.len() && (i < a || i >= b) ==> changed[i] == content[i],
        b <= pos || exists|k: int| 0 <= k < spans.len() && spans[k].0 <= a && b <= spans[k].0 + spans[k].1,
    ensures
        layout_from(changed, pos, spans),
    decreases spans.len(),
{
    if spans.len() > 0 {
        let next = pos + 4 + spec_roundup(spans[0].1);
        if b <= pos {
        } else {
            let k = choose|k: int| 0 <= k < spans.len() && spans[k].0 <= a && b <= spans[k].0 + spans[k].1;
            if k > 0 {
                assert(spans.drop_first()[k - 1] == spans[k]);
            }
        }
        assert(changed.subrange(pos, pos + 4) =~= content.subrange(pos, pos + 4)) by {
            if !(b <= pos) {
                let k = choose|k: int| 0 <= k < spans.len() && spans[k].0 <= a && b <= spans[k].0 + spans[k].1;
                if k > 0 {
                    lemma_layout_span_after(content, next, spans.drop_first(), k - 1);
                }
            }
        }
        lemma_layout_content_write(content, changed, next, spans.drop_first(), a, b);
    }
}

/// Every frame of a layout starts after the layout's first header.
proof fn lemma_layout_span_after(content: Seq<u8>, pos: int, spans: Seq<(int, int)>, k: int)
    requires
        layout_from(content, pos, spans),
        0 <= k < spans.len(),
    ensures
        spans[k].0 >= pos + 4,
        1 <= spans[k].1 <= u32::MAX,
        spans[k].0 + spans[k].1 <= content.len(),
    decreases spans.len(),
{
    let next = pos + 4 + spec_roundup(spans[0].1);
    if k > 0 {
        lemma_layout_span_after(content, next, spans.drop_first(), k - 1);
    }
}

/// Reads the little-endian `u32` at `pos`.
fn read_u32_at(content: &[u8], pos: usize) -> (value: u32)
    requires
        pos + 4 <= content@.len(),
    ensures
        value == le_u32_at(content@, pos as int),
{
    let n: usize = content.len();
    u32_from_le_bytes(slice_subrange(content, pos, pos + 4))
}

/// Copies `content[start..end]`.
fn copy_range(content: &[u8], start: usize, end: usize) -> (out: Vec<u8>)
    requires
        start <= end <= content@.len(),
    ensures
        out@ == content@.subrange(start as int, end as int),
{
    slice_to_vec(slice_subrange(content, start, end))
}

/// Walks `content` and returns every frame in it, in order.
pub fn parse_frames(content: &[u8]) -> (frames: Vec<Vec<u8>>)
    requires
        frames_wf_from(content@, 0),
    ensures
        frames@.map_values(|frame: Vec<u8>| frame@) == frames_from(content@, 0),
{
    let mut frames: Vec<Vec<u8>> = Vec::new();
    let mut pos: usize = 0;
    while content.len() - pos >= 4
        invariant
            0 <= pos <= content@.len(),
            frames_wf_from(content@, pos as int),
            frames_from(content@, 0) == frames@.map_values(|frame: Vec<u8>| frame@) + frames_from(
                content@,
                pos as int,
            ),
        decreases content@.len() - pos,
    {
        let size: u32 = read_u32_at(content, pos);
        let start: usize = pos + 4;
        let end: usize = start + size as usize;
        let ghost old_frames = frames@;
        let frame = copy_range(content, start, end);
        frames.push(frame);
        assert(frames@.map_values(|frame: Vec<u8>| frame@) =~= old_frames.map_values(
            |frame: Vec<u8>| frame@,
        ).push(content@.subrange(start as int, end as int)));
        pos = start + (size as usize + 3) / 4 * 4;
    }
    assert(frames_from(content@, pos as int) =~= Seq::<Seq<u8>>::empty());
    assert(frames@.map_values(|frame: Vec<u8>| frame@) + Seq::<Seq<u8>>::empty() =~= frames@.map_values(
        |frame: Vec<u8>| frame@,
    ));
    frames
}

// --- The writer ------------------------------------------------------------------

/// One claimed frame: its claim-order index and the absolute position and
/// length of its content in the arena.
#[derive(Debug, Clone, Copy, PartialEq, Eq, Structural)]
pub struct FrameSpan {
    pub index: usize,
    pub offset: usize,
    pub len: usize,
}

/// The arena and its writer side. The arena bytes are the region a real
/// mapping would hold; this value owns them.
pub struct ShmWriter {
    mem: Vec<u8>,
    frame_count: usize,
    spans: Ghost<Seq<(int, int)>>,
}

impl ShmWriter {
    pub closed spec fn view(&self) -> Seq<u8> {
        self.mem@
    }

    /// The claimed frames, as content start and length relative to the
    /// content (`END_OFFSET_SIZE` bytes into the arena).
    pub closed spec fn spans(&self) -> Seq<(int, int)> {
        self.spans@
    }

    /// What a reader would yield right now for each claimed frame.
    pub open spec fn frames(&self) -> Seq<Seq<u8>> {
        span_bytes(arena_content(self@), self.spans())
    }

    pub closed spec fn wf(&self) -> bool {
        &&& self.mem@.len() >= END_OFFSET_SIZE
        &&& self.mem@.len() <= MAX_ARENA_LEN
        &&& END_OFFSET_SIZE + arena_end(self.mem@) <= self.mem@.len()
        &&& layout_from(arena_content(self.mem@), 0, self.spans@)
        &&& self.frame_count == self.spans@.len()
        &&& forall|i: int|
            END_OFFSET_SIZE + arena_end(self.mem@) <= i < self.mem@.len() ==> self.mem@[i] == 0
    }

    /// Whether `frame` is a frame this writer handed out.
    pub open spec fn holds(&self, frame: FrameSpan) -> bool {
        &&& frame.index < self.spans().len()
        &&& self.spans()[frame.index as int] == (frame.offset - END_OFFSET_SIZE, frame.len as int)
    }

    /// A zero-initialized arena of `arena_len` bytes.
    pub fn new(arena_len: usize) -> (writer: Self)
        requires
            END_OFFSET_SIZE <= arena_len <= MAX_ARENA_LEN,
        ensures
            writer.wf(),
            writer@.len() == arena_len,
            writer.spans().len() == 0,
            arena_end(writer@) == 0,
            forall|k: int| 0 <= k < writer@.len() ==> #[trigger] writer@[k] == 0,
    {
        let mut mem: Vec<u8> = Vec::new();
        let mut i: usize = 0;
        while i < arena_len
            invariant
                mem@.len() == i <= arena_len,
                forall|k: int| 0 <= k < i ==> mem@[k] == 0,
            decreases arena_len - i,
        {
            mem.push(0);
            i = i + 1;
        }
        let writer = ShmWriter { mem, frame_count: 0, spans: Ghost(Seq::empty()) };
        proof {
            lemma_zero_word(writer.mem@);
            assert(arena_content(writer.mem@) =~= Seq::<u8>::empty());
        }
        writer
    }

    /// The end offset: content bytes claimed so far, padding included.
    pub fn end_offset(&self) -> (end: u64)
        requires
            self.wf(),
        ensures
            end == arena_end(self@),
    {
        u64_from_le_bytes(slice_subrange(self.mem.as_slice(), 0, 8))
    }

    /// Claims `frame_size` bytes of frame content, writing the frame's
    /// header. `None` when the frame is larger than a header can describe
    /// or the arena has no room left; the arena is then unchanged.
    pub fn claim_frame(&mut self, frame_size: usize) -> (frame: Option<FrameSpan>)
        requires
            old(self).wf(),
            frame_size >= 1,
        ensures
            final(self).wf(),
            final(self)@.len() == old(self)@.len(),
            match frame {
                None => {
                    &&& (frame_size > u32::MAX || spec_claim_update(
                        arena_end(old(self)@),
                        frame_size as int,
                        old(self)@.len() as int,
                    ) is None)
                    &&& final(self)@ == old(self)@
                    &&& final(self).spans() == old(self).spans()
                },
                Some(frame) => {
                    &&& frame_size <= u32::MAX
                    &&& spec_claim_update(arena_end(old(self)@), frame_size as int, old(self)@.len() as int)
                        == Some(arena_end(final(self)@))
                    &&& frame.index == old(self).spans().len()
                    &&& frame.offset == END_OFFSET_SIZE + arena_end(old(self)@) + FRAME_HEADER_SIZE
                    &&& frame.len == frame_size
                    &&& final(self).spans() == old(self).spans().push(
                        (frame.offset - END_OFFSET_SIZE, frame_size as int),
                    )
                    &&& final(self).holds(frame)
                    &&& final(self).frames() == old(self).frames().push(Seq::new(frame_size as nat, |i: int| 0u8))
                },
            },
    {
        if frame_size > 0xffff_ffff {
            return None;
        }
        let size: u32 = frame_size as u32;
        let arena_len: u64 = self.mem.len() as u64;
        let current_end: u64 = self.end_offset();
        match claim_update(current_end, size, arena_len) {
            None => None,
            Some(new_end) => {
                proof {
                    lemma_layout_size(arena_content(self.mem@), 0, self.spans@);
                }
                let ghost old_spans = self.spans@;
                let ghost old_mem = self.mem@;
                let ghost old_content = arena_content(old_mem);
                let header_pos: usize = 8 + current_end as usize;
                let header = u32_to_le_bytes(size);
                let end_bytes = u64_to_le_bytes(new_end);
                self.write_bytes(header_pos, &header);
                self.write_bytes(0, &end_bytes);
                proof {
                    lemma_auto_spec_u32_to_from_le_bytes();
                    lemma_auto_spec_u64_to_from_le_bytes();
                    let mem = self.mem@;
                    assert(mem.subrange(0, 8) =~= end_bytes@);
                    assert(arena_end(mem) == new_end);
                    let content = arena_content(mem);
                    assert(content.subrange(0, old_content.len() as int) =~= old_content);
                    assert(content.subrange(old_content.len() as int, old_content.len() as int + 4) =~= header@);
                    lemma_roundup_shift(old_content.len() as int, frame_size as int);
                    lemma_layout_append(old_content, content, 0, self.spans@, frame_size as int);
                    self.spans@ = self.spans@.push((old_content.len() as int + 4, frame_size as int));
                    assert forall|k: int| 0 <= k < old_spans.len() implies
                        #[trigger] self.frames()[k] == span_bytes(old_content, old_spans)[k] by {
                        lemma_layout_span_after(old_content, 0, old_spans, k);
                        assert(self.spans@[k] == old_spans[k]);
                        assert forall|t: int| 0 <= t < old_spans[k].1 implies
                            #[trigger] content.subrange(old_spans[k].0, old_spans[k].0 + old_spans[k].1)[t]
                            == old_content.subrange(old_spans[k].0, old_spans[k].0 + old_spans[k].1)[t] by {
                            assert(content.subrange(0, old_content.len() as int)[old_spans[k].0 + t] == old_content[old_spans[k].0 + t]);
                        }
                        assert(content.subrange(old_spans[k].0, old_spans[k].0 + old_spans[k].1)
                            =~= old_content.subrange(old_spans[k].0, old_spans[k].0 + old_spans[k].1));
                    }
                    let last = self.spans@.len() - 1;
                    assert(self.frames()[last] =~= Seq::new(frame_size as nat, |i: int| 0u8)) by {
                        assert forall|i: int| 0 <= i < frame_size implies self.frames()[last][i] == 0u8 by {
                            assert(self.frames()[last][i] == mem[8 + old_content.len() + 4 + i]);
                            assert(mem[8 + old_content.len() + 4 + i] == old_mem[8 + old_content.len() + 4 + i]);
                        }
                    }
                    assert(self.frames() =~= span_bytes(old_content, old_spans).push(
                        Seq::new(frame_size as nat, |i: int| 0u8),
                    ));
                    assert(old_spans =~= old(self).spans());
                }
                let index: usize = self.frame_count;
                self.frame_count = self.frame_count + 1;
                Some(FrameSpan { index, offset: header_pos + 4, len: frame_size })
            },
        }
    }

    /// Writes `data` at `pos`, leaving every other byte as it was.
    fn write_bytes(&mut self, pos: usize, data: &Vec<u8>)
        requires
            pos + data@.len() <= old(self).mem@.len(),
        ensures
            final(self).mem@.len() == old(self).mem@.len(),
            final(self).mem@.subrange(pos as int, pos + data@.len()) == data@,
            forall|i: int|
                0 <= i < old(self).mem@.len() && (i < pos || i >= pos + data@.len())
                    ==> final(self).mem@[i] == old(self).mem@[i],
            final(self).spans == old(self).spans,
            final(self).frame_count == old(self).frame_count,
    {
        let n: usize = self.mem.len();
        let mut i: usize = 0;
        while i < data.len()
            invariant
                pos + data@.len() <= self.mem@.len(),
                self.mem@.len() == old(self).mem@.len(),
                0 <= i <= data@.len(),
                forall|k: int| 0 <= k < i ==> self.mem@[pos + k] == data@[k],
                forall|k: int|
                    0 <= k < old(self).mem@.len() && (k < pos || k >= pos + i) ==> self.mem@[k] == old(
                        self,
                    ).mem@[k],
                self.spans == old(self).spans,
                self.frame_count == old(self).frame_count,
                self.mem@.len() == n,
            decreases data@.len() - i,
        {
            self.mem.set(pos + i, data[i]);
            i = i + 1;
        }
        assert(self.mem@.subrange(pos as int, pos + data@.len()) =~= data@);
    }

    /// Writes `data` into the start of a claimed frame's content.
    pub fn write_frame(&mut self, frame: FrameSpan, data: &[u8])
        requires
            old(self).wf(),
            old(self).holds(frame),
            data@.len() <= frame.len,
        ensures
            final(self).wf(),
            final(self)@.len() == old(self)@.len(),
            arena_end(final(self)@) == arena_end(old(self)@),
            final(self).spans() == old(self).spans(),
            final(self).frames() == old(self).frames().update(
                frame.index as int,
                data@ + old(self).frames()[frame.index as int].subrange(data@.len() as int, frame.len as int),
            ),
    {
        let ghost old_mem = self.mem@;
        let ghost spans = self.spans@;
        let ghost content = arena_content(old_mem);
        let ghost k = frame.index as int;
        proof {
            lemma_layout_span_after(content, 0, spans, k);
        }
        let bytes = slice_to_vec(data);
        self.write_bytes(frame.offset, &bytes);
        proof {
            let mem = self.mem@;
            assert(mem.subrange(0, 8) =~= old_mem.subrange(0, 8));
            let new_content = arena_content(mem);
            let a = frame.offset - 8;
            let b = a + data@.len();
            assert forall|i: int| 0 <= i < content.len() && (i < a || i >= b) implies new_content[i] == content[i] by {
                assert(new_content[i] == mem[8 + i]);
            }
            lemma_layout_content_write(content, new_content, 0, spans, a, b);
            let expected = old(self).frames().update(
                k,
                data@ + old(self).frames()[k].subrange(data@.len() as int, frame.len as int),
            );
            assert forall|j: int| 0 <= j < spans.len() implies #[trigger] self.frames()[j] == expected[j] by {
                lemma_layout_span_after(content, 0, spans, j);
                if j == k {
                    assert(self.frames()[j] =~= expected[j]) by {
                        assert forall|t: int| 0 <= t < frame.len implies self.frames()[j][t] == expected[j][t] by {
                            assert(self.frames()[j][t] == mem[8 + a + t]);
                            if t < data@.len() {
                                assert(mem.subrange(frame.offset as int, frame.offset + data@.len())[t] == data@[t]);
                            } else {
                                assert(mem[8 + a + t] == old_mem[8 + a + t]);
                            }
                        }
                    }
                } else {
                    lemma_spans_disjoint(content, 0, spans, j, k);
                    assert(expected[j] == old(self).frames()[j]);
                    assert(self.frames()[j] =~= expected[j]) by {
                        assert forall|t: int| 0 <= t < spans[j].1 implies self.frames()[j][t] == expected[j][t] by {
                            assert(self.frames()[j][t] == mem[8 + spans[j].0 + t]);
                            assert(old(self).frames()[j][t] == old_mem[8 + spans[j].0 + t]);
                            assert(mem[8 + spans[j].0 + t] == old_mem[8 + spans[j].0 + t]);
                        }
                    }
                }
            }
            assert(self.frames() =~= expected);
        }
    }

    /// A copy of the arena bytes.
    pub fn copy_memory(&self) -> (mem: Vec<u8>)
        ensures
            mem@ == self@,
    {
        slice_to_vec(self.mem.as_slice())
    }

    /// The arena bytes, handed over to a reader once writing is over.
    pub fn into_memory(self) -> (mem: Vec<u8>)
        ensures
            mem@ == self@,
    {
        self.mem
    }
}

proof fn lemma_roundup_shift(e: int, s: int)
    requires
        e >= 0,
        s >= 0,
        e % 4 == 0,
    ensures
        spec_roundup(e + 4 + s) == e + 4 + spec_roundup(s),
{
}

/// Every frame of a layout takes at least eight bytes.
proof fn lemma_layout_size(content: Seq<u8>, pos: int, spans: Seq<(int, int)>)
    requires
        layout_from(content, pos, spans),
    ensures
        pos + 8 * spans.len() <= content.len(),
        (content.len() as int - pos) % 4 == 0,
    decreases spans.len(),
{
    if spans.len() > 0 {
        let next = pos + 4 + spec_roundup(spans[0].1);
        lemma_layout_size(content, next, spans.drop_first());
    }
}

/// Two different frames of a layout never share a byte.
proof fn lemma_spans_disjoint(content: Seq<u8>, pos: int, spans: Seq<(int, int)>, j: int, k: int)
    requires
        layout_from(content, pos, spans),
        0 <= j < spans.len(),
        0 <= k < spans.len(),
        j != k,
    ensures
        spans[j].0 + spans[j].1 <= spans[k].0 || spans[k].0 + spans[k].1 <= spans[j].0,
    decreases spans.len(),
{
    let next = pos + 4 + spec_roundup(spans[0].1);
    if j == 0 {
        lemma_layout_span_after(content, next, spans.drop_first(), k - 1);
    } else if k == 0 {
        lemma_layout_span_after(content, next, spans.drop_first(), j - 1);
    } else {
        lemma_spans_disjoint(content, next, spans.drop_first(), j - 1, k - 1);
    }
}

/// Eight zero bytes hold the end offset 0.
proof fn lemma_zero_word(mem: Seq<u8>)
    requires
        mem.len() >= 8,
        forall|k: int| 0 <= k < 8 ==> mem[k] == 0,
    ensures
        arena_end(mem) == 0,
{
    lemma_auto_spec_u64_to_from_le_bytes();
    spec_u64_to_le_bytes_to_open(0);
    let zeros = spec_u64_to_le_bytes_open(0);
    assert(zeros =~= mem.subrange(0, 8)) by {
        assert(((0u64 & 0xff) as u8) == 0u8) by (bit_vector);
        assert((((0u64 >> 8) & 0xff) as u8) == 0u8) by (bit_vector);
        assert((((0u64 >> 16) & 0xff) as u8) == 0u8) by (bit_vector);
        assert((((0u64 >> 24) & 0xff) as u8) == 0u8) by (bit_vector);
        assert((((0u64 >> 32) & 0xff) as u8) == 0u8) by (bit_vector);
        assert((((0u64 >> 40) & 0xff) as u8) == 0u8) by (bit_vector);
        assert((((0u64 >> 48) & 0xff) as u8) == 0u8) by (bit_vector);
        assert((((0u64 >> 56) & 0xff) as u8) == 0u8) by (bit_vector);
    }
}

/// What a writer leaves behind is readable, and a reader yields exactly
/// the writer's frames, in claim order.
pub proof fn lemma_written_arena_reads_back(writer: ShmWriter)
    requires
        writer.wf(),
    ensures
        arena_readable(writer@),
        arena_frames(writer@) == writer.frames(),
{
    lemma_layout_parses(arena_content(writer@), 0, writer.spans());
}

/// What a well-formed writer's arena looks like from outside: room for
/// its end word, the end inside the arena, and nothing but zeros after it.
pub proof fn lemma_arena_bounds(writer: ShmWriter)
    requires
        writer.wf(),
    ensures
        END_OFFSET_SIZE <= writer@.len() <= MAX_ARENA_LEN,
        0 <= arena_end(writer@),
        END_OFFSET_SIZE + arena_end(writer@) <= writer@.len(),
        forall|i: int|
            END_OFFSET_SIZE + arena_end(writer@) <= i < writer@.len() ==> #[trigger] writer@[i] == 0,
        writer.frames().len() == writer.spans().len(),
{
}

// --- The reader ------------------------------------------------------------------

/// Reader of the frames a [`ShmWriter`] appended, over arena bytes that are
/// no longer written.
#[derive(Debug)]
pub struct ShmReader {
    mem: Vec<u8>,
}

impl ShmReader {
    pub closed spec fn view(&self) -> Seq<u8> {
        self.mem@
    }

    pub fn new(mem: Vec<u8>) -> (reader: Self)
        ensures
            reader@ == mem@,
    {
        ShmReader { mem }
    }

    /// Every frame in the arena, in claim order.
    ///
    /// The arena must be readable: no shorter than its end word, its end
    /// inside it, and every frame header well formed.
    pub fn iter_frames(&self) -> (frames: Vec<Vec<u8>>)
        requires
            arena_readable(self@),
        ensures
            frames@.map_values(|frame: Vec<u8>| frame@) == arena_frames(self@),
    {
        let mem = self.mem.as_slice();
        let n: usize = mem.len();
        let content_size: u64 = u64_from_le_bytes(slice_subrange(mem, 0, 8));
        assert(content_size as int <= n - 8);
        let content = slice_subrange(mem, 8, 8 + content_size as usize);
        parse_frames(content)
    }
}

} // verus!
