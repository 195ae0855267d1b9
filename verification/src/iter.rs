//! Walking a range of a rope leaf by leaf: its chunks, with or without their ranges,
//! and its lines.
use vstd::prelude::*;
use std::ops::Range;
use std::sync::Arc;

use crate::lines::{lemma_descends_leaf, leaf_at_byte_offset, leaf_size_of, leaf_start_of, line_start, line_start_offset, lemma_line_start_bounds};
use crate::nav::{descends, lemma_descends, next_leaf, Parents};
use crate::rope::Rope;
use crate::slab::Slab;
use crate::tree::{node_at, Node};
use crate::bytes::{count_nl, newline};
use crate::util::Bounds;

verus! {

/// A byte that continues a multi-byte UTF-8 char, and so starts none.
pub open spec fn continues_char(b: u8) -> bool {
    0x80 <= b < 0xC0
}

/// The number of positions in `start..end`: none where `end` is not past `start`.
pub open spec fn span(r: Range<usize>) -> int {
    if r.end > r.start { r.end - r.start } else { 0 }
}

pub fn range_len(r: &Range<usize>) -> (n: usize)
    ensures
        n == span(*r),
{
    if r.end > r.start { r.end - r.start } else { 0 }
}

/// `s` without one final line terminator (`\n` or `\r\n`); none where nothing is
/// left.
pub open spec fn trimmed(s: Seq<u8>) -> Option<Seq<u8>> {
    let a = if s.len() > 0 && s.last() == newline() { s.drop_last() } else { s };
    let b = if s.len() > 0 && s.last() == newline() && a.len() > 0 && a.last() == 13u8 {
        a.drop_last()
    } else {
        a
    };
    if b.len() == 0 { None } else { Some(b) }
}

/// Trimming drops a final line terminator whole: a `\r\n` ending loses both bytes, a
/// lone `\n` ending loses that byte, and a chunk with neither ending keeps all its
/// bytes; nothing left gives none.
pub proof fn law_trim_drops_the_terminator(p: Seq<u8>)
    ensures
        trimmed(p + seq![13u8, 10u8]) == (if p.len() == 0 { None } else { Some(p) }),
        p.len() == 0 || p.last() != 13u8 ==> trimmed(p + seq![10u8]) == (if p.len() == 0 {
            None
        } else {
            Some(p)
        }),
        p.len() == 0 || p.last() != 10u8 ==> trimmed(p) == (if p.len() == 0 {
            None
        } else {
            Some(p)
        }),
{
    let s = p + seq![13u8, 10u8];
    assert(s.drop_last() =~= p + seq![13u8]);
    assert((p + seq![13u8]).drop_last() =~= p);
    let u = p + seq![10u8];
    assert(u.drop_last() =~= p);
}

/// Removes one final line terminator; an empty or missing chunk gives none.
pub fn trim_last_terminator(s: Option<&[u8]>) -> (r: Option<&[u8]>)
    ensures
        match s {
            None => r is None,
            Some(b) => match trimmed(b@) {
                None => r is None,
                Some(t) => r matches Some(c) && c@ == t,
            },
        },
{
    match s {
        None => None,
        Some(b) => {
            let mut t = b;
            if t.len() > 0 && t[t.len() - 1] == 10u8 {
                t = vstd::slice::slice_subrange(t, 0, t.len() - 1);
                if t.len() > 0 && t[t.len() - 1] == 13u8 {
                    t = vstd::slice::slice_subrange(t, 0, t.len() - 1);
                }
            }
            proof {
                assert(b@.len() > 0 ==> b@.drop_last() =~= b@.subrange(0, b@.len() - 1));
                let a = if b@.len() > 0 && b@.last() == newline() { b@.drop_last() } else { b@ };
                assert(a.len() > 0 ==> a.drop_last() =~= a.subrange(0, a.len() - 1));
            }
            if t.len() == 0 {
                None
            } else {
                Some(t)
            }
        },
    }
}

/// The chunks of a range of a rope, each with the range of bytes it covers.
pub struct ChunkAndRanges {
    rope: Rope,
    range: Range<usize>,
    offset: usize,
    cursor_pos: Option<(Parents, Arc<Node>, usize)>,
    leaf_start: Ghost<int>,
    trim_last_terminator: bool,
}

/// The chunks, each with the byte it starts at, that a walk yields from `offset` on:
/// each runs to the end of its leaf, cut to the length of the range and trimmed where
/// asked; the walk stops at a chunk trimmed away or at the end of the rope.
pub open spec fn chunks_from(
    text: Seq<u8>,
    root: Node,
    range: Range<usize>,
    trims: bool,
    offset: int,
    live: bool,
) -> Seq<(Seq<u8>, int)>
    decreases span(range) - offset,
{
    if offset < 0 || offset >= span(range) || !live {
        Seq::empty()
    } else {
        let p = range.start + offset;
        let end = ChunkAndRanges::chunk_end(root, p);
        let n = if end - p < span(range) {
            end - p
        } else {
            span(range)
        };
        let c = text.subrange(p, p + n);
        let chunk = if trims {
            trimmed(c)
        } else {
            Some(c)
        };
        match chunk {
            None => Seq::empty(),
            Some(k) => if offset < end - range.start < span(range) {
                seq![(k, p)] + chunks_from(
                    text,
                    root,
                    range,
                    trims,
                    end - range.start,
                    end < text.len(),
                )
            } else {
                seq![(k, p)]
            },
        }
    }
}

impl ChunkAndRanges {
    pub closed spec fn text(&self) -> Seq<u8> {
        self.rope@
    }

    pub closed spec fn root(&self) -> Node {
        self.rope.root()
    }

    pub closed spec fn range(&self) -> Range<usize> {
        self.range
    }

    /// How far past the start of the range the next chunk starts.
    pub closed spec fn offset(&self) -> nat {
        self.offset as nat
    }

    /// Whether each chunk loses a final line terminator.
    pub closed spec fn trims(&self) -> bool {
        self.trim_last_terminator
    }

    /// The walk has not stopped.
    pub closed spec fn live(&self) -> bool {
        self.cursor_pos is Some
    }

    pub closed spec fn wf(&self) -> bool {
        let root = self.rope.root();
        &&& root.wf()
        &&& root.size() == self.rope@.len()
        &&& root.contents() == self.rope@
        &&& self.rope@.len() <= usize::MAX
        &&& match self.cursor_pos {
            Some((parents, leaf, o)) => {
                &&& *leaf is Leaf
                &&& descends(root, parents@, *leaf, self.leaf_start@)
                &&& self.leaf_start@ + o == self.range.start + self.offset
                &&& o < leaf.size()
            },
            None => true,
        }
    }

    /// The chunks the walk has yet to yield.
    pub open spec fn rest(&self) -> Seq<(Seq<u8>, int)> {
        chunks_from(
            self.text(),
            self.root(),
            self.range(),
            self.trims(),
            self.offset() as int,
            self.live(),
        )
    }

    /// One step of the chunks yet to come: the next chunk, then those after it.
    pub proof fn lemma_rest(&self)
        ensures
            self.rest() == if self.offset() >= span(self.range()) || !self.live() {
                Seq::<(Seq<u8>, int)>::empty()
            } else {
                let p = self.range().start + self.offset();
                let end = Self::chunk_end(self.root(), p);
                match self.next_chunk() {
                    None => Seq::<(Seq<u8>, int)>::empty(),
                    Some(k) => if self.offset() < end - self.range().start < span(self.range()) {
                        seq![(k, p)] + chunks_from(
                            self.text(),
                            self.root(),
                            self.range(),
                            self.trims(),
                            end - self.range().start,
                            end < self.text().len(),
                        )
                    } else {
                        seq![(k, p)]
                    },
                }
            },
    {
    }

    /// Where the chunk that starts at byte `p` ends: at the end of its leaf.
    pub open spec fn chunk_end(root: Node, p: int) -> int {
        leaf_start_of(&root, p) + leaf_size_of(&root, p)
    }

    /// The next chunk: the rest of the leaf, cut to the length of the range, less a final
    /// terminator where that is asked for.
    pub open spec fn next_chunk(&self) -> Option<Seq<u8>> {
        let p = self.range().start + self.offset();
        let end = Self::chunk_end(self.root(), p);
        let n = if end - p < span(self.range()) { end - p } else { span(self.range()) };
        let c = self.text().subrange(p, p + n);
        if self.trims() { trimmed(c) } else { Some(c) }
    }

    /// How far past the start of the range the next chunk starts.
    pub fn offset_value(&self) -> (r: usize)
        ensures
            r == self.offset(),
    {
        self.offset
    }

    fn start_at(rope: Rope, range: Range<usize>, offset: usize, trim: bool) -> (r: ChunkAndRanges)
        requires
            range.start + offset <= usize::MAX,
        ensures
            r.wf(),
            r.text() == rope@,
            r.root() == rope.root(),
            r.range() == range,
            r.offset() == offset,
            r.trims() == trim,
            r.live() == (range.start + offset < rope@.len()),
    {
        let root = rope.root_node();
        proof { root.lemma_wf(); }
        let mut parents: Parents = Vec::new();
        let (found, _) = leaf_at_byte_offset(&mut parents, root, range.start + offset, Ghost(node_at(root)), Ghost(0));
        let cursor_pos = match found {
            Some((leaf, o)) => Some((parents, leaf, o)),
            None => None,
        };
        let ghost ls = match &cursor_pos { Some((_, _, o)) => range.start + offset - *o, None => 0 };
        ChunkAndRanges { rope, range, offset, cursor_pos, leaf_start: Ghost(ls), trim_last_terminator: trim }
    }

    pub fn new(rope: &Rope, range: Range<usize>, offset: usize) -> (r: ChunkAndRanges)
        requires
            range.start + offset <= usize::MAX,
        ensures
            r.wf(),
            r.text() == rope@,
            r.root() == rope.root(),
            r.range() == range,
            r.offset() == offset,
            !r.trims(),
            r.live() == (range.start + offset < rope@.len()),
    {
        Self::start_at(rope.clone(), range, offset, false)
    }

    pub fn new_trim_last_terminator(rope: &Rope, range: Range<usize>, offset: usize) -> (r: ChunkAndRanges)
        requires
            range.start + offset <= usize::MAX,
        ensures
            r.wf(),
            r.text() == rope@,
            r.root() == rope.root(),
            r.range() == range,
            r.offset() == offset,
            r.trims(),
            r.live() == (range.start + offset < rope@.len()),
    {
        Self::start_at(rope.clone(), range, offset, true)
    }

    /// The next chunk and the range it covers; none once the range is walked, the rope
    /// ends, or a chunk is left empty by trimming.
    #[verifier::rlimit(60)]
    pub fn next(&mut self) -> (r: Option<(Slab, Range<usize>)>)
        requires
            old(self).wf(),
        ensures
            final(self).wf(),
            final(self).text() == old(self).text(),
            final(self).root() == old(self).root(),
            final(self).range() == old(self).range(),
            final(self).trims() == old(self).trims(),
            ({
                let p = old(self).range().start + old(self).offset();
                let end = Self::chunk_end(old(self).root(), p);
                if old(self).offset() >= span(old(self).range()) || !old(self).live() {
                    &&& r is None
                    &&& final(self).offset() == old(self).offset()
                    &&& final(self).live() == old(self).live()
                } else {
                    match old(self).next_chunk() {
                        None => {
                            &&& r is None
                            &&& final(self).offset() == old(self).offset()
                            &&& !final(self).live()
                        },
                        Some(c) => {
                            &&& r matches Some((slab, rr)) && slab@ == c && rr.start == p
                                && rr.end == p + c.len()
                            &&& final(self).offset() == end - old(self).range().start
                            &&& final(self).offset() > old(self).offset()
                            &&& final(self).live() == (end < old(self).text().len())
                        },
                    }
                }
            }),
            r is None ==> old(self).rest() == Seq::<(Seq<u8>, int)>::empty() && final(self).rest()
                == Seq::<(Seq<u8>, int)>::empty(),
            r matches Some((slab, rr)) ==> old(self).rest() == seq![(slab@, rr.start as int)]
                + final(self).rest(),
    {
        proof {
            self.lemma_rest();
        }
        let rlen = range_len(&self.range);
        if self.offset >= rlen {
            return None;
        }
        let pos = self.cursor_pos.take();
        match pos {
            None => None,
            Some((mut parents, leaf, o)) => {
                let ghost root = self.rope.root();
                let ghost ls = self.leaf_start@;
                proof {
                    lemma_descends(root, parents@, &*leaf, ls);
                    leaf.lemma_wf();
                    lemma_descends_leaf(root, parents@, &*leaf, ls, ls + o);
                }
                match &*leaf {
                    Node::Leaf { slab, .. } => {
                        let slen = slab.len();
                        let rest = slen - o;
                        let n = if rest < rlen { rest } else { rlen };
                        let chunk = slab.substr(Bounds::range(o, n));
                        let keep = if self.trim_last_terminator {
                            match trim_last_terminator(Some(chunk.as_bytes())) {
                                None => None,
                                Some(t) => Some(t.len()),
                            }
                        } else {
                            Some(n)
                        };
                        match keep {
                            None => {
                                proof {
                                    assert(leaf.contents() =~= self.rope@.subrange(ls, ls + leaf.size()));
                                    assert(chunk@ =~= self.rope@.subrange(ls + o, ls + o + n));
                                }
                                None
                            },
                            Some(k) => {
                                let chunk = chunk.substr(Bounds::range_to(k));
                                let start = self.range.start + self.offset;
                                let chunk_range = start..(start + k);
                                let next = next_leaf(&mut parents, &leaf, Ghost(root), Ghost(ls));
                                proof {
                                    if let Some((nl, _)) = &next {
                                        lemma_descends(root, parents@, &**nl, ls + leaf.size());
                                        nl.lemma_wf();
                                        self.leaf_start = Ghost(ls + leaf.size());
                                    }
                                    assert(leaf.contents() =~= self.rope@.subrange(ls, ls + leaf.size()));
                                    assert(chunk@ =~= self.rope@.subrange(ls + o, ls + o + n).subrange(0, k as int));
                                }
                                self.cursor_pos = match next {
                                    Some((nl, no)) => Some((parents, nl, no)),
                                    None => None,
                                };
                                self.offset = self.offset + rest;
                                proof {
                                    let nr = self.rest();
                                    if !(old(self).offset() < self.offset() < span(self.range())) {
                                        assert(nr =~= Seq::<(Seq<u8>, int)>::empty());
                                        assert(seq![(chunk@, chunk_range.start as int)] + nr
                                            =~= seq![(chunk@, chunk_range.start as int)]);
                                    }
                                    let op = old(self).range().start + old(self).offset();
                                    let oend = Self::chunk_end(old(self).root(), op);
                                    assert(old(self).next_chunk() == Some(chunk@));
                                    assert(self.offset() == oend - self.range().start);
                                    assert(self.live() == (oend < self.text().len()));
                                    assert(chunk_range.start == op);
                                    assert(old(self).rest() == seq![(chunk@, chunk_range.start as int)] + nr);
                                }
                                Some((chunk, chunk_range))
                            },
                        }
                    },
                    _ => {
                        proof { assert(false); }
                        None
                    },
                }
            },
        }
    }
}

} // verus!

verus! {

/// The chunks of a range of a rope.
pub struct Chunks(ChunkAndRanges);

impl Chunks {
    pub closed spec fn inner(&self) -> ChunkAndRanges {
        self.0
    }

    pub fn new(rope: &Rope, range: Range<usize>, offset: usize) -> (r: Chunks)
        requires
            range.start + offset <= usize::MAX,
        ensures
            r.inner().wf(),
            r.inner().text() == rope@,
            r.inner().root() == rope.root(),
            r.inner().range() == range,
            r.inner().offset() == offset,
            !r.inner().trims(),
            r.inner().live() == (range.start + offset < rope@.len()),
    {
        Chunks(ChunkAndRanges::new(rope, range, offset))
    }

    pub fn new_trim_last_terminator(rope: &Rope, range: Range<usize>, offset: usize) -> (r: Chunks)
        requires
            range.start + offset <= usize::MAX,
        ensures
            r.inner().wf(),
            r.inner().text() == rope@,
            r.inner().root() == rope.root(),
            r.inner().range() == range,
            r.inner().offset() == offset,
            r.inner().trims(),
            r.inner().live() == (range.start + offset < rope@.len()),
    {
        Chunks(ChunkAndRanges::new_trim_last_terminator(rope, range, offset))
    }

    /// The next chunk, as `ChunkAndRanges::next` gives it, without its range.
    pub fn next(&mut self) -> (r: Option<Slab>)
        requires
            old(self).inner().wf(),
        ensures
            final(self).inner().wf(),
            final(self).inner().text() == old(self).inner().text(),
            final(self).inner().root() == old(self).inner().root(),
            final(self).inner().range() == old(self).inner().range(),
            final(self).inner().trims() == old(self).inner().trims(),
            ({
                let it = old(self).inner();
                let p = it.range().start + it.offset();
                let end = ChunkAndRanges::chunk_end(it.root(), p);
                if it.offset() >= span(it.range()) || !it.live() {
                    &&& r is None
                    &&& final(self).inner().offset() == it.offset()
                    &&& final(self).inner().live() == it.live()
                } else {
                    match it.next_chunk() {
                        None => {
                            &&& r is None
                            &&& final(self).inner().offset() == it.offset()
                            &&& !final(self).inner().live()
                        },
                        Some(c) => {
                            &&& r matches Some(slab) && slab@ == c
                            &&& final(self).inner().offset() == end - it.range().start
                            &&& final(self).inner().live() == (end < it.text().len())
                        },
                    }
                }
            }),
    {
        match self.0.next() {
            Some((chunk, _)) => Some(chunk),
            None => None,
        }
    }
}

/// A range of a rope; a line drops its terminator from its chunks.
pub struct RopeSlice {
    rope: Rope,
    range: Range<usize>,
    trim_last_terminator: bool,
}

impl RopeSlice {
    pub closed spec fn text(&self) -> Seq<u8> {
        self.rope@
    }

    pub closed spec fn root(&self) -> Node {
        self.rope.root()
    }

    pub closed spec fn range_of(&self) -> Range<usize> {
        self.range
    }

    pub closed spec fn trims(&self) -> bool {
        self.trim_last_terminator
    }

    pub fn new(rope: &Rope, range: Range<usize>) -> (r: RopeSlice)
        ensures
            r.text() == rope@,
            r.root() == rope.root(),
            r.range_of() == range,
            !r.trims(),
    {
        RopeSlice { rope: rope.clone(), range, trim_last_terminator: false }
    }

    pub fn new_trim_last_terminator(rope: &Rope, range: Range<usize>) -> (r: RopeSlice)
        ensures
            r.text() == rope@,
            r.root() == rope.root(),
            r.range_of() == range,
            r.trims(),
    {
        RopeSlice { rope: rope.clone(), range, trim_last_terminator: true }
    }

    pub fn range(&self) -> (r: Range<usize>)
        ensures
            r == self.range_of(),
    {
        self.range.start..self.range.end
    }

    pub fn is_empty(&self) -> (r: bool)
        ensures
            r == (span(self.range_of()) == 0),
    {
        !(self.range.start < self.range.end)
    }

    pub fn len(&self) -> (r: usize)
        ensures
            r == span(self.range_of()),
    {
        range_len(&self.range)
    }

    pub fn chunk_and_ranges(&self, offset: usize) -> (r: ChunkAndRanges)
        requires
            self.range_of().start + offset <= usize::MAX,
        ensures
            r.wf(),
            r.text() == self.text(),
            r.root() == self.root(),
            r.range() == self.range_of(),
            r.offset() == offset,
            r.trims() == self.trims(),
            r.live() == (self.range_of().start + offset < self.text().len()),
    {
        let range = self.range.start..self.range.end;
        if self.trim_last_terminator {
            ChunkAndRanges::new_trim_last_terminator(&self.rope, range, offset)
        } else {
            ChunkAndRanges::new(&self.rope, range, offset)
        }
    }

    pub fn chunks(&self, offset: usize) -> (r: Chunks)
        requires
            self.range_of().start + offset <= usize::MAX,
        ensures
            r.inner().wf(),
            r.inner().text() == self.text(),
            r.inner().root() == self.root(),
            r.inner().range() == self.range_of(),
            r.inner().offset() == offset,
            r.inner().trims() == self.trims(),
            r.inner().live() == (self.range_of().start + offset < self.text().len()),
    {
        let range = self.range.start..self.range.end;
        if self.trim_last_terminator {
            Chunks::new_trim_last_terminator(&self.rope, range, offset)
        } else {
            Chunks::new(&self.rope, range, offset)
        }
    }
}

/// A line of a rope, by its range of bytes; its chunks leave out its terminator.
pub struct RopeLine {
    rope: Rope,
    range: Range<usize>,
}

impl RopeLine {
    pub closed spec fn text(&self) -> Seq<u8> {
        self.rope@
    }

    pub closed spec fn range_of(&self) -> Range<usize> {
        self.range
    }

    pub fn new(rope: &Rope, range: Range<usize>) -> (r: RopeLine)
        ensures
            r.text() == rope@,
            r.range_of() == range,
    {
        RopeLine { rope: rope.clone(), range }
    }

    /// The chunks of `range`, taken within the line, without the line's terminator.
    pub fn chunks(&self, range: Bounds) -> (r: Chunks)
        requires
            range.fits(self.range_of().start as int),
        ensures
            r.inner().wf(),
            r.inner().text() == self.text(),
            r.inner().range().start == crate::util::min_int(
                range.start_from(self.range_of().start as int),
                self.range_of().end as int,
            ),
            r.inner().range().end == crate::util::min_int(
                range.end_at(self.range_of().end as int),
                self.range_of().end as int,
            ),
            r.inner().offset() == 0,
            r.inner().trims(),
    {
        let range = crate::util::bound_range(&range, self.range.start..self.range.end);
        Chunks::new_trim_last_terminator(&self.rope, range, 0)
    }

    /// The chunks of `range`, taken within the line, each with the range it covers,
    /// without the line's terminator.
    pub fn chunk_and_ranges(&self, range: Bounds) -> (r: ChunkAndRanges)
        requires
            range.fits(self.range_of().start as int),
        ensures
            r.wf(),
            r.text() == self.text(),
            r.range().start == crate::util::min_int(
                range.start_from(self.range_of().start as int),
                self.range_of().end as int,
            ),
            r.range().end == crate::util::min_int(
                range.end_at(self.range_of().end as int),
                self.range_of().end as int,
            ),
            r.offset() == 0,
            r.trims(),
    {
        let range = crate::util::bound_range(&range, self.range.start..self.range.end);
        ChunkAndRanges::new_trim_last_terminator(&self.rope, range, 0)
    }
}

/// The lines of a rope in a range of line numbers; a line runs to just after its
/// terminator.
pub struct Lines {
    rope: Rope,
    line_range: Range<usize>,
}

impl Lines {
    pub closed spec fn text(&self) -> Seq<u8> {
        self.rope@
    }

    pub closed spec fn root(&self) -> Node {
        self.rope.root()
    }

    pub closed spec fn line_range(&self) -> Range<usize> {
        self.line_range
    }

    pub closed spec fn wf(&self) -> bool {
        &&& self.line_range.start <= count_nl(self.rope@)
        &&& self.line_range.end <= count_nl(self.rope@)
    }

    pub fn new(rope: &Rope, line_range: Range<usize>) -> (r: Lines)
        requires
            line_range.start <= count_nl(rope@),
            line_range.end <= count_nl(rope@),
        ensures
            r.wf(),
            r.text() == rope@,
            r.root() == rope.root(),
            r.line_range() == line_range,
    {
        Lines { rope: rope.clone(), line_range }
    }

    /// The next line, whose chunks drop its terminator; none once the range is walked.
    pub fn next(&mut self) -> (r: Option<RopeSlice>)
        requires
            old(self).wf(),
        ensures
            final(self).wf(),
            final(self).text() == old(self).text(),
            final(self).root() == old(self).root(),
            final(self).line_range().end == old(self).line_range().end,
            old(self).line_range().start >= old(self).line_range().end ==> r is None
                && final(self).line_range() == old(self).line_range(),
            old(self).line_range().start < old(self).line_range().end ==> ({
                let k = old(self).line_range().start;
                &&& final(self).line_range().start == k + 1
                &&& r matches Some(line) && line.text() == old(self).text() && line.root()
                    == old(self).root() && line.trims() && line.range_of().start == line_start(
                    old(self).text(),
                    k as nat,
                ) && line.range_of().end == line_start(old(self).text(), (k + 1) as nat)
            }),
    {
        if !(self.line_range.start < self.line_range.end) {
            return None;
        }
        let k = self.line_range.start;
        let root = self.rope.root_node();
        let start_byte = line_start_offset(root, k);
        let end_byte = line_start_offset(root, k + 1);
        self.line_range = (k + 1)..self.line_range.end;
        Some(RopeSlice::new_trim_last_terminator(&self.rope, start_byte..end_byte))
    }
}

} // verus!

verus! {

impl Rope {
    /// A cursor at the start of the rope.
    pub fn cursor(&self) -> (r: crate::cursor::Cursor)
        ensures
            r.wf(),
            r.text() == self@,
            r.index() == 0,
            !r.positioned(),
    {
        crate::cursor::Cursor::new(self.clone())
    }

    /// The chunks of `range`, clamped to the rope, from `offset` bytes into it on.
    pub fn chunks(&self, range: Bounds, offset: usize) -> (r: Chunks)
        requires
            range.fits(0),
            crate::util::min_int(range.start_from(0), self@.len() as int) + offset <= usize::MAX,
        ensures
            r.inner().wf(),
            r.inner().text() == self@,
            r.inner().root() == self.root(),
            r.inner().range().start == crate::util::min_int(range.start_from(0), self@.len() as int),
            r.inner().range().end == crate::util::min_int(range.end_at(self@.len() as int), self@.len() as int),
            r.inner().offset() == offset,
            !r.inner().trims(),
            r.inner().live() == (r.inner().range().start + offset < self@.len()),
    {
        let range = crate::util::bound_range(&range, 0..self.len());
        Chunks::new(self, range, offset)
    }

    /// The chunks of `range`, clamped to the rope, each with the range it covers.
    pub fn chunk_and_ranges(&self, range: Bounds) -> (r: ChunkAndRanges)
        requires
            range.fits(0),
        ensures
            r.wf(),
            r.text() == self@,
            r.root() == self.root(),
            r.range().start == crate::util::min_int(range.start_from(0), self@.len() as int),
            r.range().end == crate::util::min_int(range.end_at(self@.len() as int), self@.len() as int),
            r.offset() == 0,
            !r.trims(),
            r.live() == (r.range().start < self@.len()),
    {
        let range = crate::util::bound_range(&range, 0..self.len());
        ChunkAndRanges::new(self, range, 0)
    }

    /// The lines numbered in `lines`, clamped to the number of terminators.
    pub fn lines(&self, lines: Bounds) -> (r: Lines)
        requires
            lines.fits(0),
        ensures
            r.wf(),
            r.text() == self@,
            r.root() == self.root(),
            r.line_range().start == crate::util::min_int(lines.start_from(0), count_nl(self@) as int),
            r.line_range().end == crate::util::min_int(lines.end_at(count_nl(self@) as int), count_nl(self@) as int),
    {
        let range = crate::util::bound_range(&lines, 0..self.len_lines());
        Lines::new(self, range)
    }

    /// Line `line`, running to just after its terminator; none past the last
    /// terminator.
    pub fn line(&self, line: usize) -> (r: Option<RopeSlice>)
        requires
            line < usize::MAX,
        ensures
            line < count_nl(self@) ==> (r matches Some(s) && s.text() == self@ && s.root()
                == self.root() && s.trims() && s.range_of().start == line_start(self@, line as nat)
                && s.range_of().end == line_start(self@, (line + 1) as nat)),
            line >= count_nl(self@) ==> r is None,
    {
        let range = crate::util::bound_range(&Bounds::range(line, line + 1), 0..self.len_lines());
        let mut lines = Lines::new(self, range);
        lines.next()
    }

    /// The bytes of `range`, clamped to the rope.
    pub fn slice(&self, range: Bounds) -> (r: RopeSlice)
        requires
            range.fits(0),
        ensures
            r.text() == self@,
            r.root() == self.root(),
            !r.trims(),
            r.range_of().start == crate::util::min_int(range.start_from(0), self@.len() as int),
            r.range_of().end == crate::util::min_int(range.end_at(self@.len() as int), self@.len() as int),
    {
        let range = crate::util::bound_range(&range, 0..self.len());
        RopeSlice { rope: self.clone(), range, trim_last_terminator: false }
    }

    /// The byte at a line and column: none past the last terminator, nor past the end of
    /// the line, its terminator included, nor inside a char, where the byte continues a
    /// multi-byte char.
    pub fn point_to_offset(&self, p: crate::point::Point) -> (r: Option<usize>)
        requires
            p.line < usize::MAX,
        ensures
            ({
                let s = line_start(self@, p.line as nat);
                let e = line_start(self@, (p.line + 1) as nat);
                if p.line < count_nl(self@) && p.column < e - s && !continues_char(
                    self@[s + p.column],
                ) {
                    r matches Some(o) && o == s + p.column
                } else {
                    r is None
                }
            }),
    {
        match self.line(p.line) {
            None => None,
            Some(line) => {
                proof {
                    lemma_line_start_bounds(self@, p.line as nat);
                    lemma_line_start_bounds(self@, (p.line + 1) as nat);
                    crate::lines::lemma_line_start_mono(self@, p.line as nat);
                }
                let range = line.range();
                if p.column < line.len() {
                    let offset = range.start + p.column;
                    let b = self.byte_at(offset);
                    if 0x80u8 <= b && b < 0xC0u8 {
                        None
                    } else {
                        Some(offset)
                    }
                } else {
                    None
                }
            },
        }
    }

    /// The byte at `offset`.
    fn byte_at(&self, offset: usize) -> (r: u8)
        requires
            offset < self@.len(),
        ensures
            r == self@[offset as int],
    {
        let root = self.root_node();
        proof { root.lemma_wf(); }
        let mut parents: Parents = Vec::new();
        let (found, _) = leaf_at_byte_offset(&mut parents, root, offset, Ghost(node_at(root)), Ghost(0));
        match found {
            Some((leaf, o)) => {
                let ghost ls = offset - o;
                proof {
                    lemma_descends(node_at(root), parents@, &*leaf, ls);
                    leaf.lemma_wf();
                }
                match &*leaf {
                    Node::Leaf { slab, .. } => {
                        let bytes = slab.as_bytes();
                        proof {
                            assert(bytes@[o as int] == self@[offset as int]);
                        }
                        bytes[o]
                    },
                    _ => {
                        proof { assert(false); }
                        0
                    },
                }
            },
            None => {
                proof { assert(false); }
                0
            },
        }
    }
}

} // verus!

verus! {

impl Rope {
    /// The line and column of byte `offset`, counted from zero; none in an empty rope.
    pub fn offset_to_point(&self, offset: usize) -> (r: Option<crate::point::Point>)
        requires
            offset <= self@.len(),
        ensures
            self@.len() == 0 ==> r is None,
            self@.len() > 0 ==> ({
                let l = count_nl(self@.take(offset as int));
                r == Some(crate::point::Point {
                    line: l as usize,
                    column: (offset - line_start(self@, l)) as usize,
                })
            }),
    {
        if self.is_empty() {
            return None;
        }
        let root = self.root_node();
        proof { root.lemma_wf(); }
        let mut parents: Parents = Vec::new();
        let (found, metrics) = leaf_at_byte_offset(&mut parents, root, offset, Ghost(node_at(root)), Ghost(0));
        let line = match found {
            Some((leaf, o)) => {
                let ghost ls = offset - o;
                proof {
                    lemma_descends(node_at(root), parents@, &*leaf, ls);
                    leaf.lemma_wf();
                }
                match &*leaf {
                    Node::Leaf { slab, .. } => {
                        let bytes = slab.as_bytes();
                        let head = vstd::slice::slice_subrange(bytes, 0, o);
                        proof {
                            let t = self@;
                            assert(head@ =~= t.subrange(ls, offset as int));
                            assert(t.take(offset as int) =~= t.take(ls) + head@);
                            crate::bytes::lemma_count_concat(t.take(ls), head@, newline());
                            crate::bytes::lemma_count_le_len(t.take(offset as int), newline());
                        }
                        metrics.num_lines + crate::bytes::count_occurrences(head, 10u8)
                    },
                    _ => {
                        proof { assert(false); }
                        0
                    },
                }
            },
            None => {
                proof { assert(self@.take(offset as int) =~= self@); }
                self.len_lines()
            },
        };
        proof {
            let t = self@;
            let a = t.take(offset as int);
            let b = t.skip(offset as int);
            assert(t =~= a + b);
            crate::bytes::lemma_count_concat(a, b, newline());
            crate::lines::lemma_line_start_left(a, b, line as nat);
            lemma_line_start_bounds(a, line as nat);
        }
        let start = line_start_offset(root, line);
        Some(crate::point::Point { line, column: offset - start })
    }

    /// The line of byte `offset` and where it starts, counting the terminators before
    /// the leaf that holds the byte; line zero at zero at the end; refused past the end.
    pub fn line_at_offset(&self, offset: usize) -> (r: Result<(usize, usize), crate::rope::Error>)
        ensures
            offset > self@.len() ==> r == Err::<(usize, usize), crate::rope::Error>(
                crate::rope::Error::IndexOutOfBounds(offset, self@.len() as usize),
            ),
            offset == self@.len() ==> r == Ok::<(usize, usize), crate::rope::Error>((0, 0)),
            offset < self@.len() ==> ({
                let l = count_nl(self@.take(leaf_start_of(&self.root(), offset as int)));
                r == Ok::<(usize, usize), crate::rope::Error>((l as usize, line_start(self@, l) as usize))
            }),
    {
        if offset > self.len() {
            return Err(crate::rope::Error::IndexOutOfBounds(offset, self.len()));
        }
        let root = self.root_node();
        proof { root.lemma_wf(); }
        Ok(crate::lines::line_at_offset(root, offset))
    }
}

} // verus!
