//! A cursor over the bytes of a rope, stepping forwards and backwards one byte at a
//! time.
use vstd::prelude::*;
use std::sync::Arc;

use crate::nav::{descends, lemma_descends, leftmost_leaf, next_leaf, prev_leaf, rightmost_leaf, Parents};
use crate::rope::Rope;
use crate::tree::Node;

verus! {

pub struct Cursor {
    rope: Rope,
    index: usize,
    parents: Parents,
    pos: Option<(Arc<Node>, usize)>,
    leaf_start: Ghost<int>,
}

impl Cursor {
    /// The bytes the cursor walks over.
    pub closed spec fn text(&self) -> Seq<u8> {
        self.rope@
    }

    /// The offset of the cursor: the byte after it, when there is one.
    pub closed spec fn index(&self) -> nat {
        self.index as nat
    }

    /// The cursor stands on a leaf of the tree.
    pub closed spec fn positioned(&self) -> bool {
        self.pos is Some
    }

    /// The cursor stands at byte `at`; where `strict`, it stands at the end of a leaf
    /// only at the end of the bytes.
    pub closed spec fn pos_ok(&self, at: int, strict: bool) -> bool {
        let root = self.rope.root();
        &&& 0 <= at <= self.rope@.len()
        &&& self.rope@.len() <= usize::MAX
        &&& match self.pos {
            Some((leaf, offset)) => {
                &&& *leaf is Leaf
                &&& descends(root, self.parents@, *leaf, self.leaf_start@)
                &&& self.leaf_start@ + offset == at
                &&& offset <= leaf.size()
                &&& (strict ==> offset < leaf.size() || at == self.rope@.len())
            },
            None => self.parents@.len() == 0 && (at == 0 || at == self.rope@.len()),
        }
    }

    pub closed spec fn wf_at(&self, at: int) -> bool {
        self.pos_ok(at, true)
    }

    pub closed spec fn wf(&self) -> bool {
        self.wf_at(self.index as int)
    }

    pub fn new(rope: Rope) -> (r: Cursor)
        ensures
            r.wf(),
            r.text() == rope@,
            r.index() == 0,
            !r.positioned(),
    {
        let _ = rope.len();
        Cursor { rope, index: 0, parents: Vec::new(), pos: None, leaf_start: Ghost(0) }
    }

    pub fn byte_offset(&self) -> (r: usize)
        ensures
            r == self.index(),
    {
        self.index
    }

    /// Steps over the next byte, and gives the range it covers; none at the end.
    pub fn next(&mut self) -> (r: Option<(usize, usize)>)
        requires
            old(self).wf(),
            old(self).text().len() > 0,
        ensures
            final(self).wf(),
            final(self).text() == old(self).text(),
            old(self).index() < old(self).text().len() ==> {
                &&& r == Some((old(self).index() as usize, (old(self).index() + 1) as usize))
                &&& final(self).index() == old(self).index() + 1
                &&& final(self).positioned() == (final(self).index() < final(self).text().len())
            },
            old(self).index() == old(self).text().len() ==> {
                &&& r is None
                &&& final(self).index() == old(self).index()
                &&& !final(self).positioned()
            },
    {
        let size: usize = 1;
        match self.forward_by(size) {
            0 => None,
            res => {
                let index = self.index;
                let _ = self.rope.len();
                self.index = self.index + res;
                Some((index, self.index))
            },
        }
    }

    /// Steps back over the previous byte, and gives the range it covers; none at the
    /// start.
    pub fn prev(&mut self) -> (r: Option<(usize, usize)>)
        requires
            old(self).wf(),
            old(self).text().len() > 0,
        ensures
            final(self).wf(),
            final(self).text() == old(self).text(),
            old(self).index() > 0 ==> {
                &&& r == Some(((old(self).index() - 1) as usize, old(self).index() as usize))
                &&& final(self).index() == old(self).index() - 1
                &&& final(self).positioned()
            },
            old(self).index() == 0 ==> {
                &&& r is None
                &&& final(self).index() == 0
                &&& !final(self).positioned()
            },
    {
        let size: usize = 1;
        match self.backward_by(size) {
            0 => None,
            res => {
                let index = self.index;
                self.index = self.index - res;
                Some((self.index, index))
            },
        }
    }

    /// A well-formed cursor stands within its bytes.
    pub proof fn lemma_index(&self)
        requires
            self.wf(),
        ensures
            self.index() <= self.text().len(),
    {
    }

    /// The number of bytes the cursor walks over.
    pub fn len(&self) -> (r: usize)
        ensures
            r == self.text().len(),
    {
        self.rope.len()
    }

    /// Steps over the next byte and gives it; none at the end.
    pub fn next_byte(&mut self) -> (r: Option<u8>)
        requires
            old(self).wf(),
            old(self).text().len() > 0,
        ensures
            final(self).wf(),
            final(self).text() == old(self).text(),
            old(self).index() < old(self).text().len() ==> {
                &&& r == Some(old(self).text()[old(self).index() as int])
                &&& final(self).index() == old(self).index() + 1
            },
            old(self).index() == old(self).text().len() ==> {
                &&& r is None
                &&& final(self).index() == old(self).index()
            },
    {
        match self.next() {
            None => None,
            Some(_) => {
                self.prev();
                let b = self.peek_byte();
                self.next();
                b
            },
        }
    }

    /// Steps back over the previous byte and gives it; none at the start.
    pub fn prev_byte(&mut self) -> (r: Option<u8>)
        requires
            old(self).wf(),
            old(self).text().len() > 0,
        ensures
            final(self).wf(),
            final(self).text() == old(self).text(),
            old(self).index() > 0 ==> {
                &&& r == Some(old(self).text()[old(self).index() - 1])
                &&& final(self).index() == old(self).index() - 1
            },
            old(self).index() == 0 ==> {
                &&& r is None
                &&& final(self).index() == 0
            },
    {
        match self.prev() {
            None => None,
            Some(_) => self.peek_byte(),
        }
    }

    /// The byte after the cursor, when the cursor stands on a leaf.
    pub fn peek_byte(&self) -> (r: Option<u8>)
        requires
            self.wf(),
        ensures
            r == (if self.positioned() && self.index() < self.text().len() {
                Some(self.text()[self.index() as int])
            } else {
                None
            }),
    {
        let bs = self.peek();
        if bs.len() == 0 {
            None
        } else {
            Some(bs[0])
        }
    }

    /// The rest of the leaf after the cursor.
    fn peek(&self) -> (r: &[u8])
        requires
            self.wf(),
        ensures
            self.positioned() && self.index() < self.text().len() ==> r@.len() > 0 && r@[0]
                == self.text()[self.index() as int],
            !(self.positioned() && self.index() < self.text().len()) ==> r@.len() == 0,
    {
        match &self.pos {
            None => &[],
            Some((leaf, offset)) => match &**leaf {
                Node::Leaf { slab, .. } => {
                    let root = self.rope.root_node();
                    proof {
                        root.lemma_wf();
                        lemma_descends(self.rope.root(), self.parents@, &**leaf, self.leaf_start@);
                        leaf.lemma_wf();
                    }
                    let bytes = slab.as_bytes();
                    vstd::slice::slice_subrange(bytes, *offset, bytes.len())
                },
                _ => &[],
            },
        }
    }

    /// Moves the position forwards, a whole leaf at a time until more than `len` bytes
    /// are left in a leaf, then `len` bytes into it; gives how far it moved.
    fn forward_by(&mut self, len: usize) -> (r: usize)
        requires
            old(self).wf(),
            old(self).text().len() > 0,
            len > 0,
        ensures
            final(self).wf_at(old(self).index + r),
            final(self).index == old(self).index,
            final(self).rope == old(self).rope,
            old(self).index + r <= old(self).text().len(),
            r == 0 <==> old(self).index == old(self).text().len(),
            len == 1 ==> r <= 1,
            final(self).positioned() == (old(self).index + r < old(self).text().len()),
    {
        let root = self.rope.root_node();
        let ghost groot = self.rope.root();
        let ghost total = self.rope@.len();
        proof { root.lemma_wf(); }
        assert(groot.size() == total);
        if self.index == 0 {
            if self.pos.is_none() {
                let first = leftmost_leaf(&mut self.parents, root, Ghost(groot), Ghost(0));
                proof { lemma_descends(groot, self.parents@, &*first.0, 0); }
                self.pos = Some(first);
                self.leaf_start = Ghost(0);
            }
        }
        let mut result: usize = 0;
        while result < len
            invariant
                self.wf_at(old(self).index + result),
                self.index == old(self).index,
                self.rope == old(self).rope,
                groot == self.rope.root(),
                total == self.rope@.len(),
                total > 0,
                groot.wf(),
                groot.size() == total,
                groot.contents().len() == total,
                old(self).index + result <= total,
                result == 0 && old(self).index < total ==> self.positioned(),
                result > 0 ==> self.positioned() == (old(self).index + result < total),
                old(self).index == total ==> result == 0,
                len == 1 ==> result <= 1,
            ensures
                result < len ==> !self.positioned(),
            decreases total - old(self).index - result, (if self.positioned() { 1int } else { 0int }),
        {
            let pos = self.pos.take();
            match pos {
                None => {
                    self.pos = None;
                    break;
                },
                Some((leaf, offset)) => {
                    proof {
                        lemma_descends(groot, self.parents@, &*leaf, self.leaf_start@);
                        leaf.lemma_wf();
                    }
                    match &*leaf {
                        Node::Leaf { slab, .. } => {
                            let remaining = slab.len() - offset;
                            if remaining > len {
                                result = result + len;
                                self.pos = Some((leaf, offset + len));
                            } else {
                                result = result + remaining;
                                let ghost s = self.leaf_start@;
                                let next = next_leaf(&mut self.parents, &leaf, Ghost(groot), Ghost(s));
                                proof {
                                    if let Some((l, _)) = &next {
                                        lemma_descends(groot, self.parents@, &**l, s + leaf.size());
                                        l.lemma_wf();
                                    }
                                }
                                self.pos = next;
                                self.leaf_start = Ghost(s + leaf.size());
                            }
                        },
                        _ => {
                            proof { assert(false); }
                            return 0;
                        },
                    }
                },
            }
        }
        result
    }

    /// Moves the position backwards, a whole leaf at a time until at least `len` bytes
    /// are left before it in a leaf, then `len` bytes back; gives how far it moved.
    fn backward_by(&mut self, len: usize) -> (r: usize)
        requires
            old(self).wf(),
            old(self).text().len() > 0,
            len > 0,
        ensures
            final(self).pos_ok(old(self).index - r, len == 1),
            final(self).index == old(self).index,
            final(self).rope == old(self).rope,
            r <= old(self).index,
            r == 0 <==> old(self).index == 0,
            len == 1 ==> r <= 1,
            len == 1 ==> final(self).positioned() == (r > 0),
    {
        let root = self.rope.root_node();
        let ghost groot = self.rope.root();
        let ghost total = self.rope@.len();
        proof { root.lemma_wf(); }
        assert(groot.size() == total);
        if self.index == self.rope.len() {
            if self.pos.is_none() {
                let last = rightmost_leaf(&mut self.parents, root, Ghost(groot), Ghost(0));
                proof { lemma_descends(groot, self.parents@, &*last.0, groot.size() - last.0.size()); }
                self.leaf_start = Ghost(groot.size() - last.0.size());
                self.pos = Some(last);
            }
        }
        let mut result: usize = 0;
        while result < len
            invariant
                self.pos_ok(old(self).index - result, false),
                len == 1 && result > 0 ==> self.pos_ok(old(self).index - result, true),
                self.index == old(self).index,
                self.rope == old(self).rope,
                groot == self.rope.root(),
                total == self.rope@.len(),
                total > 0,
                groot.wf(),
                groot.size() == total,
                groot.contents().len() == total,
                result <= old(self).index,
                !self.positioned() ==> old(self).index - result == 0,
                len == 1 && result > 0 ==> self.positioned(),
                old(self).index == 0 ==> result == 0,
                len == 1 ==> result <= 1,
            ensures
                result < len ==> !self.positioned(),
            decreases old(self).index - result, (if self.positioned() { self.leaf_start@ + 1 } else { 0int }),
        {
            let pos = self.pos.take();
            match pos {
                None => {
                    self.pos = None;
                    break;
                },
                Some((leaf, offset)) => {
                    proof {
                        lemma_descends(groot, self.parents@, &*leaf, self.leaf_start@);
                        leaf.lemma_wf();
                    }
                    if offset >= len {
                        result = result + len;
                        self.pos = Some((leaf, offset - len));
                    } else {
                        result = result + offset;
                        let ghost s = self.leaf_start@;
                        let prev = prev_leaf(&mut self.parents, &leaf, Ghost(groot), Ghost(s));
                        proof {
                            if let Some((p, _)) = &prev {
                                lemma_descends(groot, self.parents@, &**p, s - p.size());
                                p.lemma_wf();
                                self.leaf_start = Ghost(s - p.size());
                            }
                        }
                        self.pos = prev;
                    }
                },
            }
        }
        result
    }
}

} // verus!
