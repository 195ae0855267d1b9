//! The chars of a range of a rope, decoded chunk by chunk, with a memory of the last
//! two chars read so that a reader can step back over them.
use vstd::prelude::*;
use std::ops::Range;

use bstr::ByteSlice;

use crate::iter::{chunks_from, continues_char, ChunkAndRanges};
use crate::point::Point;
use crate::rope::Rope;
use crate::bytes::count_nl;
use crate::lines::line_start;
use crate::util::{min_int, Bound, Bounds};

verus! {

/// The chars that `bytes` decode to, each with the range of bytes it comes from; bytes
/// that are not UTF-8 decode to replacement chars.
pub uninterp spec fn char_indices(bytes: Seq<u8>) -> Seq<(usize, usize, char)>;

/// The decoding of `bytes` by `bstr::ByteSlice::char_indices`, whose ranges run from
/// zero, each starting where the one before ends, each holding at least one byte, all
/// within the bytes.
#[verifier::external_body]
fn decode(bytes: &[u8]) -> (r: Vec<(usize, usize, char)>)
    ensures
        r@ == char_indices(bytes@),
        forall|i: int| 0 <= i < r@.len() ==> #[trigger] r@[i].0 < r@[i].1 <= bytes@.len(),
        forall|i: int| 0 < i < r@.len() ==> #[trigger] r@[i].0 == r@[i - 1].1,
        r@.len() > 0 ==> r@[0].0 == 0,
{
    bytes.char_indices().collect()
}

/// The decoded chars of `cs`, placed at `base`.
pub open spec fn placed(cs: Seq<(usize, usize, char)>, base: int) -> Seq<(char, int, int)> {
    Seq::new(cs.len(), |i: int| (cs[i].2, base + cs[i].0, base + cs[i].1))
}

/// The chars that a sequence of chunks decodes to, chunk by chunk, each with the range of
/// bytes of the rope it comes from.
pub open spec fn decoded(chunks: Seq<(Seq<u8>, int)>) -> Seq<(char, int, int)>
    decreases chunks.len(),
{
    if chunks.len() == 0 {
        Seq::empty()
    } else {
        placed(char_indices(chunks[0].0), chunks[0].1) + decoded(chunks.drop_first())
    }
}

#[verifier::external_type_specification]
#[verifier::external_body]
#[verifier::reject_recursive_types(T)]
pub struct ExCircularBuffer<const N: usize, T>(circular_buffer::CircularBuffer<N, T>);

/// The chars a buffer of the last chars read holds, the latest first.
pub uninterp spec fn recent_items(
    buffer: circular_buffer::CircularBuffer<2, (char, usize, usize)>,
) -> Seq<(char, usize, usize)>;

/// An empty buffer; `CircularBuffer::new` holds nothing.
#[verifier::external_body]
fn recent_new() -> (r: circular_buffer::CircularBuffer<2, (char, usize, usize)>)
    ensures
        recent_items(r) == Seq::<(char, usize, usize)>::empty(),
{
    circular_buffer::CircularBuffer::new()
}

/// Puts `item` in front; `CircularBuffer::push_front` drops the back item of a full
/// buffer of two.
#[verifier::external_body]
fn recent_push_front(
    buffer: &mut circular_buffer::CircularBuffer<2, (char, usize, usize)>,
    item: (char, usize, usize),
)
    ensures
        recent_items(*final(buffer)) == if recent_items(*old(buffer)).len() >= 2 {
            seq![item] + recent_items(*old(buffer)).take(1)
        } else {
            seq![item] + recent_items(*old(buffer))
        },
{
    buffer.push_front(item)
}

/// The item at `index` from the front; `CircularBuffer::get` has none past the back.
#[verifier::external_body]
fn recent_get(
    buffer: &circular_buffer::CircularBuffer<2, (char, usize, usize)>,
    index: usize,
) -> (r: Option<(char, usize, usize)>)
    ensures
        r == if index < recent_items(*buffer).len() {
            Some(recent_items(*buffer)[index as int])
        } else {
            None
        },
{
    buffer.get(index).copied()
}

/// The chunk being decoded: its range, its decoded chars, how many of them are read, and
/// how many bytes they cover.
struct CharRangeState {
    chunk_range: Range<usize>,
    chars: Vec<(usize, usize, char)>,
    next: usize,
    chars_offset: usize,
}

/// Whether the reader is reading on, or reading again chars it stepped back over.
enum CharRangeBufferState {
    Buffering,
    Replaying { offset: usize },
}

/// The chars of a range of a rope, each with the range of bytes it comes from.
pub struct CharRange {
    chunks: ChunkAndRanges,
    curr: Option<CharRangeState>,
    buffer: circular_buffer::CircularBuffer<2, (char, usize, usize)>,
    state: CharRangeBufferState,
}

impl CharRangeState {
    spec fn wf(&self) -> bool {
        let cs = self.chars@;
        &&& self.next <= cs.len()
        &&& forall|i: int| 0 <= i < cs.len() ==> #[trigger] cs[i].0 < cs[i].1
        &&& forall|i: int| 0 < i < cs.len() ==> #[trigger] cs[i].0 == cs[i - 1].1
        &&& cs.len() > 0 ==> cs[0].0 == 0
        &&& forall|i: int| 0 <= i < cs.len() ==> self.chunk_range.start + #[trigger] cs[i].1
            <= usize::MAX
        &&& self.chars_offset == if self.next == 0 {
            0
        } else {
            cs[self.next - 1].1 as int
        }
    }
}

impl CharRange {
    /// The chars yet to be read, once any replay is over.
    pub closed spec fn ahead(&self) -> Seq<(char, int, int)> {
        match self.curr {
            None => Seq::empty(),
            Some(st) => placed(st.chars@, st.chunk_range.start as int).skip(st.next as int)
                + decoded(self.chunks.rest()),
        }
    }

    /// The last chars read, the latest first.
    pub closed spec fn recent(&self) -> Seq<(char, usize, usize)> {
        recent_items(self.buffer)
    }

    /// How many chars the reader has stepped back over.
    pub closed spec fn replay(&self) -> int {
        match self.state {
            CharRangeBufferState::Buffering => 0,
            CharRangeBufferState::Replaying { offset } => offset as int,
        }
    }

    /// A chunk is being decoded; once the chunks run out, nothing more is read.
    pub closed spec fn started(&self) -> bool {
        self.curr is Some
    }

    /// The byte the reader is at, before stepping back: past the chars read of the
    /// chunk, or the position of the walk over the chunks once they ran out.
    pub closed spec fn position(&self) -> int {
        match self.curr {
            Some(st) => st.chunk_range.start + st.chars_offset,
            None => self.chunks.offset() as int,
        }
    }

    pub closed spec fn wf(&self) -> bool {
        &&& self.chunks.wf()
        &&& self.recent().len() <= 2
        &&& 0 <= self.replay() <= self.recent().len()
        &&& self.state matches CharRangeBufferState::Replaying { offset } ==> offset > 0
        &&& match self.curr {
            Some(st) => st.wf(),
            None => true,
        }
    }

    /// Decodes the next chunk, if any.
    fn fetch(chunks: &mut ChunkAndRanges) -> (r: Option<CharRangeState>)
        requires
            old(chunks).wf(),
        ensures
            final(chunks).wf(),
            final(chunks).text() == old(chunks).text(),
            final(chunks).root() == old(chunks).root(),
            r matches Some(st) ==> st.wf() && st.next == 0 && old(chunks).rest().len() > 0
                && decoded(old(chunks).rest()) == placed(st.chars@, st.chunk_range.start as int)
                + decoded(final(chunks).rest()) && final(chunks).rest().len() < old(
                chunks,
            ).rest().len(),
            r is None ==> old(chunks).rest().len() == 0 && final(chunks).rest().len() == 0,
    {
        match chunks.next() {
            None => None,
            Some((chunk, chunk_range)) => {
                let bytes = chunk.as_bytes();
                let chars = decode(bytes);
                let ghost rest = old(chunks).rest();
                proof {
                    assert(bytes@ == chunk@);
                    assert(rest[0] == (chunk@, chunk_range.start as int));
                    assert(rest.drop_first() =~= chunks.rest());
                    assert(rest.len() == chunks.rest().len() + 1);
                    assert(chunk_range.end == chunk_range.start + bytes@.len());
                    assert forall|i: int| 0 <= i < chars@.len() implies chunk_range.start
                        + #[trigger] chars@[i].1 <= usize::MAX by {
                        assert(chars@[i].0 < chars@[i].1 <= bytes@.len());
                    }
                    assert(decoded(rest) == placed(chars@, chunk_range.start as int) + decoded(
                        chunks.rest(),
                    ));
                }
                Some(CharRangeState { chunk_range, chars, next: 0, chars_offset: 0 })
            },
        }
    }

    pub fn new(rope: &Rope, range: Range<usize>, offset: usize) -> (r: CharRange)
        requires
            range.start + offset <= usize::MAX,
        ensures
            r.wf(),
            r.replay() == 0,
            r.recent() == Seq::<(char, usize, usize)>::empty(),
            r.ahead() == decoded(
                chunks_from(
                    rope@,
                    rope.root(),
                    range,
                    false,
                    offset as int,
                    range.start + offset < rope@.len(),
                ),
            ),
    {
        let mut chunks = ChunkAndRanges::new(rope, range, offset);
        let curr = Self::fetch(&mut chunks);
        let buffer = recent_new();
        CharRange { curr, chunks, buffer, state: CharRangeBufferState::Buffering }
    }

    /// The byte the reader is at, less the chars it stepped back over.
    pub fn offset(&self) -> (r: usize)
        requires
            self.wf(),
            self.position() >= self.replay(),
        ensures
            r == self.position() - self.replay(),
    {
        let offset = match &self.curr {
            Some(s) => s.chunk_range.start + s.chars_offset,
            None => self.chunks.offset_value(),
        };
        let replay_offset = match self.state {
            CharRangeBufferState::Buffering => 0,
            CharRangeBufferState::Replaying { offset } => offset,
        };
        offset - replay_offset
    }

    /// The next char and its range: one stepped back over, read again; else the next one
    /// decoded; none once the chunks run out.
    pub fn next(&mut self) -> (r: Option<(char, Range<usize>)>)
        requires
            old(self).wf(),
        ensures
            final(self).wf(),
            !old(self).started() ==> r is None && final(self).ahead() == old(self).ahead()
                && final(self).recent() == old(self).recent() && final(self).replay() == old(
                self,
            ).replay(),
            old(self).started() && old(self).replay() > 0 ==> {
                let item = old(self).recent()[old(self).replay() - 1];
                &&& r matches Some((c, rg)) && c == item.0 && rg.start == item.1 && rg.end
                    == item.2
                &&& final(self).replay() == old(self).replay() - 1
                &&& final(self).recent() == old(self).recent()
                &&& final(self).ahead() == old(self).ahead()
                &&& final(self).started()
            },
            old(self).started() && old(self).replay() == 0 && old(self).ahead().len() > 0 ==> {
                let item = old(self).ahead()[0];
                &&& r matches Some((c, rg)) && c == item.0 && rg.start == item.1 && rg.end
                    == item.2
                &&& final(self).replay() == 0
                &&& final(self).ahead() == old(self).ahead().drop_first()
                &&& final(self).recent() == if old(self).recent().len() >= 2 {
                    seq![(item.0, item.1 as usize, item.2 as usize)] + old(self).recent().take(1)
                } else {
                    seq![(item.0, item.1 as usize, item.2 as usize)] + old(self).recent()
                }
                &&& final(self).started()
            },
            old(self).started() && old(self).replay() == 0 && old(self).ahead().len() == 0 ==> {
                &&& r is None
                &&& !final(self).started()
                &&& final(self).recent() == old(self).recent()
                &&& final(self).replay() == 0
            },
    {
        let mut result: Option<(char, Range<usize>)> = None;
        loop
            invariant_except_break
                result is None,
                self.ahead() == old(self).ahead(),
                self.recent() == old(self).recent(),
                self.replay() == old(self).replay(),
                old(self).started() ==> self.replay() == 0 || self.started(),
                !old(self).started() ==> !self.started(),
            invariant
                self.wf(),
            ensures
                self.wf(),
                !old(self).started() ==> result is None && self.ahead() == old(self).ahead()
                    && self.recent() == old(self).recent() && self.replay() == old(
                    self,
                ).replay(),
                old(self).started() && old(self).replay() > 0 ==> {
                    let item = old(self).recent()[old(self).replay() - 1];
                    &&& result matches Some((c, rg)) && c == item.0 && rg.start == item.1 && rg.end
                        == item.2
                    &&& self.replay() == old(self).replay() - 1
                    &&& self.recent() == old(self).recent()
                    &&& self.ahead() == old(self).ahead()
                    &&& self.started()
                },
                old(self).started() && old(self).replay() == 0 && old(self).ahead().len() > 0 ==> {
                    let item = old(self).ahead()[0];
                    &&& result matches Some((c, rg)) && c == item.0 && rg.start == item.1 && rg.end
                        == item.2
                    &&& self.replay() == 0
                    &&& self.ahead() == old(self).ahead().drop_first()
                    &&& self.recent() == if old(self).recent().len() >= 2 {
                        seq![(item.0, item.1 as usize, item.2 as usize)] + old(self).recent().take(1)
                    } else {
                        seq![(item.0, item.1 as usize, item.2 as usize)] + old(self).recent()
                    }
                    &&& self.started()
                },
                old(self).started() && old(self).replay() == 0 && old(self).ahead().len() == 0
                    ==> {
                    &&& result is None
                    &&& !self.started()
                    &&& self.recent() == old(self).recent()
                    &&& self.replay() == 0
                },
            decreases if self.curr is Some {
                1int
            } else {
                0int
            }, self.chunks.rest().len(),
        {
            match self.curr {
                None => {
                    break;
                },
                Some(_) => {},
            }
            match self.state {
                CharRangeBufferState::Replaying { offset } => {
                    self.state = if offset == 1 {
                        CharRangeBufferState::Buffering
                    } else {
                        CharRangeBufferState::Replaying { offset: offset - 1 }
                    };
                    let item = recent_get(&self.buffer, offset - 1);
                    let out = match item {
                        Some((c, s, e)) => Some((c, s..e)),
                        None => None,
                    };
                    result = out;
                    break;
                },
                CharRangeBufferState::Buffering => {},
            }
            let mut st = self.curr.take().unwrap();
            if st.next < st.chars.len() {
                let (start, end, c) = st.chars[st.next];
                let ghost before = placed(st.chars@, st.chunk_range.start as int);
                let range_offset = st.chunk_range.start;
                let range = (range_offset + start)..(range_offset + end);
                st.next = st.next + 1;
                st.chars_offset = end;
                proof {
                    assert(before.skip(st.next - 1).drop_first() == before.skip(st.next as int));
                }
                self.curr = Some(st);
                recent_push_front(&mut self.buffer, (c, range.start, range.end));
                result = Some((c, range));
                break;
            } else {
                proof {
                    let cs = placed(st.chars@, st.chunk_range.start as int);
                    assert(cs.skip(st.next as int) == Seq::<(char, int, int)>::empty());
                }
                self.curr = Self::fetch(&mut self.chunks);
                proof {
                    if let Some(nst) = &self.curr {
                        assert(placed(nst.chars@, nst.chunk_range.start as int).skip(0)
                            == placed(nst.chars@, nst.chunk_range.start as int));
                    }
                }
            }
        }
        result
    }

    /// Steps back over the last char read and gives it again; the two latest can be
    /// stepped back over.
    pub fn prev(&mut self) -> (r: Option<(char, Range<usize>)>)
        requires
            old(self).wf(),
            old(self).replay() < old(self).recent().len(),
        ensures
            final(self).wf(),
            final(self).replay() == old(self).replay() + 1,
            final(self).recent() == old(self).recent(),
            final(self).ahead() == old(self).ahead(),
            final(self).started() == old(self).started(),
            final(self).position() == old(self).position(),
            ({
                let item = old(self).recent()[old(self).replay()];
                r matches Some((c, rg)) && c == item.0 && rg.start == item.1 && rg.end == item.2
            }),
    {
        let offset = match self.state {
            CharRangeBufferState::Buffering => 0,
            CharRangeBufferState::Replaying { offset } => offset,
        };
        self.state = CharRangeBufferState::Replaying { offset: offset + 1 };
        match recent_get(&self.buffer, offset) {
            None => None,
            Some((c, s, e)) => Some((c, s..e)),
        }
    }
}

/// The chars of a range of a rope.
pub struct Chars(CharRange);

impl Chars {
    pub closed spec fn inner(&self) -> CharRange {
        self.0
    }

    pub fn new(rope: &Rope, range: Range<usize>, offset: usize) -> (r: Chars)
        requires
            range.start + offset <= usize::MAX,
        ensures
            r.inner().wf(),
            r.inner().replay() == 0,
            r.inner().recent() == Seq::<(char, usize, usize)>::empty(),
            r.inner().ahead() == decoded(
                chunks_from(
                    rope@,
                    rope.root(),
                    range,
                    false,
                    offset as int,
                    range.start + offset < rope@.len(),
                ),
            ),
    {
        Chars(CharRange::new(rope, range, offset))
    }

    pub fn offset(&self) -> (r: usize)
        requires
            self.inner().wf(),
            self.inner().position() >= self.inner().replay(),
        ensures
            r == self.inner().position() - self.inner().replay(),
    {
        self.0.offset()
    }

    /// The next char, as `CharRange::next` reads it.
    pub fn next(&mut self) -> (r: Option<char>)
        requires
            old(self).inner().wf(),
        ensures
            final(self).inner().wf(),
            !old(self).inner().started() ==> r is None,
            old(self).inner().started() && old(self).inner().replay() > 0 ==> r == Some(
                old(self).inner().recent()[old(self).inner().replay() - 1].0,
            ),
            old(self).inner().started() && old(self).inner().replay() == 0 && old(
                self,
            ).inner().ahead().len() > 0 ==> r == Some(old(self).inner().ahead()[0].0)
                && final(self).inner().ahead() == old(self).inner().ahead().drop_first(),
            old(self).inner().started() && old(self).inner().replay() == 0 && old(
                self,
            ).inner().ahead().len() == 0 ==> r is None,
    {
        match self.0.next() {
            Some((c, _)) => Some(c),
            None => None,
        }
    }

    /// The char stepped back over, as `CharRange::prev` gives it.
    pub fn prev(&mut self) -> (r: Option<char>)
        requires
            old(self).inner().wf(),
            old(self).inner().replay() < old(self).inner().recent().len(),
        ensures
            final(self).inner().wf(),
            final(self).inner().replay() == old(self).inner().replay() + 1,
            r == Some(old(self).inner().recent()[old(self).inner().replay()].0),
    {
        match self.0.prev() {
            Some((c, _)) => Some(c),
            None => None,
        }
    }
}

/// The chars a rope decodes to from byte `offset` of `start..end` on.
pub open spec fn chars_of(rope: Rope, start: int, end: int, offset: int) -> Seq<(char, int, int)> {
    decoded(
        chunks_from(
            rope@,
            rope.root(),
            (start as usize)..(end as usize),
            false,
            offset,
            start + offset < rope@.len(),
        ),
    )
}

impl Rope {
    /// The chars of `range`, clamped to the rope, read from `offset` past its start.
    pub fn char_range(&self, range: Bounds, offset: usize) -> (r: CharRange)
        requires
            range.fits(0),
            min_int(range.start_from(0), self@.len() as int) + offset <= usize::MAX,
        ensures
            r.wf(),
            r.replay() == 0,
            r.recent() == Seq::<(char, usize, usize)>::empty(),
            r.ahead() == chars_of(
                *self,
                min_int(range.start_from(0), self@.len() as int),
                min_int(range.end_at(self@.len() as int), self@.len() as int),
                offset as int,
            ),
    {
        let range = crate::util::bound_range(&range, 0..self.len());
        CharRange::new(self, range, offset)
    }

    /// The chars of `range`, clamped to the rope, read from `offset` past its start.
    pub fn chars(&self, range: Bounds, offset: usize) -> (r: Chars)
        requires
            range.fits(0),
            min_int(range.start_from(0), self@.len() as int) + offset <= usize::MAX,
        ensures
            r.inner().wf(),
            r.inner().replay() == 0,
            r.inner().recent() == Seq::<(char, usize, usize)>::empty(),
            r.inner().ahead() == chars_of(
                *self,
                min_int(range.start_from(0), self@.len() as int),
                min_int(range.end_at(self@.len() as int), self@.len() as int),
                offset as int,
            ),
    {
        let range = crate::util::bound_range(&range, 0..self.len());
        Chars::new(self, range, offset)
    }

    /// The char at `point`, where the point names a byte of a line that starts a char: the
    /// first char decoded from that byte on.
    pub fn char_at(&self, point: Point) -> (r: Option<char>)
        requires
            point.line < usize::MAX,
        ensures
            ({
                let s = line_start(self@, point.line as nat);
                let e = line_start(self@, (point.line + 1) as nat);
                if point.line < count_nl(self@) && point.column < e - s && !continues_char(
                    self@[s + point.column],
                ) {
                    let cs = chars_of(*self, 0, self@.len() as int, s + point.column);
                    r == if cs.len() > 0 {
                        Some(cs[0].0)
                    } else {
                        None
                    }
                } else {
                    r is None
                }
            }),
    {
        match self.point_to_offset(point) {
            None => None,
            Some(offset) => {
                let full = Bounds { start: Bound::Unbounded, end: Bound::Unbounded };
                let mut chars = self.chars(full, offset);
                assert(!chars.inner().started() ==> chars.inner().ahead().len() == 0);
                chars.next()
            },
        }
    }
}

} // verus!
