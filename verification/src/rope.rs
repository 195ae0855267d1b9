//! The rope: an immutable sequence of bytes held in a red-black tree of slabs. Every
//! edit returns a new rope that shares the untouched parts of the old one.
use vstd::prelude::*;
use std::sync::Arc;

use crate::bytes::count_nl;
use crate::edit::{self, height_ok, make_black, opt_contents, opt_ok, opt_rb, pieces_insert, NodeWithHeight};
use crate::slab::Slab;
use crate::tree::Node;
use crate::util::{bound_range, min_int, Bound, Bounds};

verus! {

/// Why an edit of a rope was refused.
#[derive(Clone, Copy, Debug, PartialEq, Eq)]
pub enum Error {
    /// The offset, and the length of the rope.
    IndexOutOfBounds(usize, usize),
    /// The two ends of the range, and the length of the rope.
    RangeOutOfBounds(Bound, Bound, usize),
    /// An offset or range past the end of the rope.
    EOS,
}

pub struct Rope(Arc<Node>);

impl View for Rope {
    type V = Seq<u8>;

    closed spec fn view(&self) -> Seq<u8> {
        self.0.contents()
    }
}

impl Clone for Rope {
    fn clone(&self) -> (r: Self)
        ensures
            r@ == self@,
            r.balanced() == self.balanced(),
            r.black_root() == self.black_root(),
            r.root() == self.root(),
    {
        proof { use_type_invariant(self); }
        Rope(self.0.clone())
    }
}

impl Rope {
    #[verifier::type_invariant]
    spec fn inv(self) -> bool {
        self.0.wf() && self.0.bh_ok()
    }

    /// The root of the tree.
    pub closed spec fn root(&self) -> Node {
        *self.0
    }

    /// The tree is a red-black tree.
    pub closed spec fn balanced(&self) -> bool {
        self.0.rb()
    }

    /// The root of the tree is not a red branch.
    pub closed spec fn black_root(&self) -> bool {
        !self.0.is_red()
    }

    /// What `balanced` and `black_root` say of the tree, and how it holds the bytes.
    pub proof fn lemma_root(&self)
        ensures
            self.balanced() == self.root().rb(),
            self.black_root() == !self.root().is_red(),
            self@ == self.root().contents(),
    {
    }

    /// The root of the tree, to walk it.
    pub fn root_node(&self) -> (r: &Arc<Node>)
        ensures
            **r == self.root(),
            r.wf(),
            r.bh_ok(),
            r.contents() == self@,
    {
        proof { use_type_invariant(self); }
        &self.0
    }

    pub fn empty() -> (r: Rope)
        ensures
            r@ == Seq::<u8>::empty(),
            r.balanced(),
            r.black_root(),
    {
        Rope(Arc::new(Node::empty()))
    }

    /// A rope over an existing tree.
    pub fn new(root: Arc<Node>) -> (r: Rope)
        requires
            root.wf(),
            root.bh_ok(),
        ensures
            r@ == root.contents(),
            r.root() == *root,
            r.balanced() == root.rb(),
            r.black_root() == !root.is_red(),
    {
        Rope(root)
    }

    pub fn len(&self) -> (r: usize)
        ensures
            r == self@.len(),
    {
        proof {
            use_type_invariant(self);
            self.0.lemma_wf();
        }
        self.0.len()
    }

    pub fn is_empty(&self) -> (r: bool)
        ensures
            r == (self@.len() == 0),
    {
        self.len() == 0
    }

    /// The number of line terminators.
    pub fn len_lines(&self) -> (r: usize)
        ensures
            r == count_nl(self@),
    {
        proof {
            use_type_invariant(self);
            self.0.lemma_wf();
        }
        self.0.num_lines()
    }

    /// The number of lines, counting the one after the last terminator.
    pub fn num_lines(&self) -> (r: usize)
        requires
            count_nl(self@) < usize::MAX,
        ensures
            r == count_nl(self@) + 1,
    {
        self.len_lines() + 1
    }

    pub fn is_balanced(&self) -> (r: bool)
        ensures
            r == self.balanced(),
    {
        proof { use_type_invariant(self); }
        self.0.is_balanced()
    }

    /// The bytes of the rope, copied out.
    pub fn to_bstring(&self) -> (r: Vec<u8>)
        ensures
            r@ == self@,
    {
        proof { use_type_invariant(self); }
        let mut out: Vec<u8> = Vec::new();
        collect(&self.0, &mut out);
        assert(out@ =~= self@);
        out
    }

    /// Inserts `text` at `offset`; refused past the end.
    pub fn insert(&self, offset: usize, text: Slab) -> (r: Result<Rope, Error>)
        requires
            self@.len() + text@.len() <= usize::MAX,
        ensures
            offset > self@.len() ==> r == Err::<Rope, Error>(
                Error::IndexOutOfBounds(offset, self@.len() as usize),
            ),
            offset <= self@.len() ==> (r matches Ok(t) && t@ == self@.take(offset as int)
                + text@ + self@.skip(offset as int)),
            offset <= self@.len() && text@.len() == 0 ==> (r matches Ok(t) && t.root()
                == self.root()),
            offset <= self@.len() && text@.len() > 0 ==> (r matches Ok(t) && t.black_root()
                && t.root().pieces() == pieces_insert(self.root().pieces(), offset as int, text@)),
            self.balanced() && self.black_root() ==> (r matches Ok(t) ==> t.balanced()
                && t.black_root()),
    {
        proof {
            use_type_invariant(self);
            self.0.lemma_wf();
        }
        if offset > self.len() {
            return Err(Error::IndexOutOfBounds(offset, self.len()));
        }
        if text.is_empty() {
            assert(self@.take(offset as int) + text@ + self@.skip(offset as int) =~= self@);
            return Ok(self.clone());
        }
        let root = Arc::new(edit::insert(&self.0, offset, text));
        proof {
            root.lemma_wf();
        }
        let root = make_black(root);
        Ok(Rope(root))
    }

    /// Appends `text` at the end.
    pub fn append(&self, text: Slab) -> (r: Result<Rope, Error>)
        requires
            self@.len() + text@.len() <= usize::MAX,
        ensures
            r matches Ok(t) && t@ == self@ + text@,
            text@.len() > 0 ==> (r matches Ok(t) && t.root().pieces() == pieces_insert(
                self.root().pieces(),
                self@.len() as int,
                text@,
            )),
            self.balanced() && self.black_root() ==> (r matches Ok(t) && t.balanced()
                && t.black_root()),
    {
        let r = self.insert(self.len(), text);
        assert(self@.take(self@.len() as int) =~= self@);
        assert(self@.skip(self@.len() as int) =~= Seq::<u8>::empty());
        assert(self@ + text@ =~= self@.take(self@.len() as int) + text@ + self@.skip(
            self@.len() as int,
        ));
        r
    }

    fn from_piece(piece: Option<NodeWithHeight>) -> (r: Rope)
        requires
            opt_ok(piece),
        ensures
            r@ == opt_contents(piece),
            piece matches Some(q) ==> r.root() == *q.0,
            piece is None ==> r.black_root() && r.balanced(),
            opt_rb(piece) ==> r.balanced(),
    {
        match piece {
            Some((node, _)) => Rope(node),
            None => Rope::empty(),
        }
    }

    /// The bytes before `offset` and the bytes from it on, as two ropes with black
    /// roots.
    pub fn split(&self, offset: usize) -> (r: Result<(Rope, Rope), Error>)
        ensures
            offset > self@.len() ==> r == Err::<(Rope, Rope), Error>(
                Error::IndexOutOfBounds(offset, self@.len() as usize),
            ),
            offset <= self@.len() ==> (r matches Ok((a, b)) && a@ == self@.take(offset as int)
                && b@ == self@.skip(offset as int) && a.black_root() && b.black_root()),
            self.balanced() ==> (r matches Ok((a, b)) ==> a.balanced() && b.balanced()),
    {
        proof {
            use_type_invariant(self);
            self.0.lemma_wf();
        }
        if offset > self.len() {
            return Err(Error::IndexOutOfBounds(offset, self.len()));
        }
        let (left, right) = edit::split(&self.0, offset);
        Ok((Rope::from_piece(left), Rope::from_piece(right)))
    }

    /// Removes the bytes in `range`, clamped to the rope, and returns what is left
    /// together with what was removed.
    pub fn delete(&self, range: Bounds) -> (r: Result<(Rope, Rope), Error>)
        requires
            range.fits(0),
        ensures
            ({
                let s = min_int(range.start_from(0), self@.len() as int);
                let e = min_int(range.end_at(self@.len() as int), self@.len() as int);
                r matches Ok((updated, deleted)) && (if s < e {
                    &&& updated@ == self@.take(s) + self@.skip(e)
                    &&& deleted@ == self@.subrange(s, e)
                    &&& updated.black_root() && deleted.black_root()
                } else {
                    &&& updated@ == self@
                    &&& updated.root() == self.root()
                    &&& deleted@ == Seq::<u8>::empty()
                })
            }),
            self.balanced() ==> (r matches Ok((updated, deleted)) ==> updated.balanced()
                && deleted.balanced()),
    {
        proof {
            use_type_invariant(self);
            self.0.lemma_wf();
        }
        let bounded = bound_range(&range, 0..self.len());
        if bounded.start > self.len() {
            return Err(Error::RangeOutOfBounds(range.start, range.end, self.len()));
        }
        if bounded.start >= bounded.end {
            return Ok((self.clone(), Rope::empty()));
        }
        let (left, right) = edit::split(&self.0, bounded.start);
        let s2root = match right {
            Some((node, _)) => node,
            None => {
                proof { assert(false); }
                return Ok((self.clone(), Rope::empty()));
            },
        };
        proof {
            s2root.lemma_wf();
        }
        let (deleted, right) = edit::split(&s2root, bounded.end - bounded.start);
        proof {
            let s = bounded.start as int;
            let e = bounded.end as int;
            assert(opt_contents(deleted) =~= self@.subrange(s, e));
            assert(opt_contents(right) =~= self@.skip(e));
        }
        let updated = edit::join(left, right);
        let updated = match updated {
            None => Rope::empty(),
            Some((root, _)) => Rope(make_black(root)),
        };
        let deleted = match deleted {
            None => Rope::empty(),
            Some((root, _)) => Rope(make_black(root)),
        };
        Ok((updated, deleted))
    }

    /// Inserts `text` at `offset`: an empty text leaves the rope as it is, and an offset
    /// past the end is refused.
    pub fn insert_at(&self, offset: usize, text: Slab) -> (r: Result<Rope, Error>)
        requires
            self@.len() + text@.len() <= usize::MAX,
        ensures
            text@.len() == 0 ==> (r matches Ok(t) && t@ == self@ && t.root() == self.root()),
            text@.len() > 0 && offset > self@.len() ==> r == Err::<Rope, Error>(Error::EOS),
            text@.len() > 0 && offset <= self@.len() ==> (r matches Ok(t) && t@ == self@.take(
                offset as int,
            ) + text@ + self@.skip(offset as int) && t.black_root() && t.root().pieces()
                == pieces_insert(self.root().pieces(), offset as int, text@)),
            self.balanced() && self.black_root() ==> (r matches Ok(t) ==> t.balanced()),
    {
        if text.is_empty() {
            return Ok(self.clone());
        }
        if offset > self.len() {
            return Err(Error::EOS);
        }
        self.insert(offset, text)
    }

    /// Removes `len` bytes from `offset` on; refused where they run past the end.
    pub fn delete_at(&self, offset: usize, len: usize) -> (r: Result<(Rope, Rope), Error>)
        ensures
            offset + len > self@.len() ==> r == Err::<(Rope, Rope), Error>(Error::EOS),
            offset + len <= self@.len() ==> (r matches Ok((updated, deleted)) && updated@
                == self@.take(offset as int) + self@.skip(offset + len) && deleted@
                == self@.subrange(offset as int, offset + len)),
            self.balanced() ==> (r matches Ok((updated, deleted)) ==> updated.balanced()
                && deleted.balanced()),
    {
        if offset > self.len() {
            return Err(Error::EOS);
        }
        let end = match offset.checked_add(len) {
            None => return Err(Error::EOS),
            Some(x) => x,
        };
        if end > self.len() {
            return Err(Error::EOS);
        }
        let r = self.delete(Bounds::range(offset, end));
        proof {
            if len == 0 {
                assert(self@.take(offset as int) + self@.skip(offset as int) =~= self@);
                assert(self@.subrange(offset as int, offset as int) =~= Seq::<u8>::empty());
            }
        }
        r
    }
}

/// Appends the bytes beneath `node` to `out`.
fn collect(node: &Node, out: &mut Vec<u8>)
    requires
        node.wf(),
    ensures
        final(out)@ == old(out)@ + node.contents(),
    decreases node,
{
    proof { node.lemma_unfold(); }
    match node {
        Node::Empty => {
            assert(old(out)@ + node.contents() =~= old(out)@);
        },
        Node::Leaf { slab, .. } => {
            let bytes = slab.as_bytes();
            let mut i: usize = 0;
            while i < bytes.len()
                invariant
                    i <= bytes@.len(),
                    out@ == old(out)@ + bytes@.subrange(0, i as int),
                decreases bytes@.len() - i,
            {
                out.push(bytes[i]);
                i += 1;
                assert(out@ =~= old(out)@ + bytes@.subrange(0, i as int));
            }
            assert(bytes@.subrange(0, i as int) =~= node.contents());
        },
        Node::Branch { left, right, .. } => {
            collect(left, out);
            collect(right, out);
            assert(out@ =~= old(out)@ + node.contents());
        },
    }
}

} // verus!

verus! {

/// An edit of a rope, as a fuzzer draws them: an insertion of bytes at an offset, or a
/// deletion of a length of bytes from an offset.
#[derive(Clone, Debug, PartialEq, Eq)]
pub enum Operation {
    Insert { at: usize, contents: Vec<u8> },
    Delete { at: usize, len: usize },
}

} // verus!

verus! {

/// Deleting the bytes an insertion put in gives back the rope as it was: the contents
/// `insert` and `delete_at` promise compose to the identity.
pub proof fn law_delete_undoes_insert(
    before: Seq<u8>,
    text: Seq<u8>,
    at: int,
    inserted: Seq<u8>,
    after: Seq<u8>,
)
    requires
        0 <= at <= before.len(),
        inserted == before.take(at) + text + before.skip(at),
        after == inserted.take(at) + inserted.skip(at + text.len()),
    ensures
        after == before,
        inserted.subrange(at, at + text.len()) == text,
{
    assert(inserted.take(at) =~= before.take(at));
    assert(inserted.skip(at + text.len()) =~= before.skip(at));
    assert(before.take(at) + before.skip(at) =~= before);
    assert(inserted.subrange(at, at + text.len()) =~= text);
}

/// Splitting a rope and putting the two pieces back together gives the rope as it was.
pub proof fn law_split_partitions(before: Seq<u8>, at: int, left: Seq<u8>, right: Seq<u8>)
    requires
        0 <= at <= before.len(),
        left == before.take(at),
        right == before.skip(at),
    ensures
        left + right == before,
        left.len() == at,
{
    assert(left + right =~= before);
}

} // verus!
