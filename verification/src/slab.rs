//! Slabs: shared, immutable ranges of bytes, handed out by an append-only allocator
//! that fills fixed-size blocks.
use vstd::prelude::*;
use std::sync::Arc;

use crate::util::{Bound, Bounds};

verus! {

/// The number of bytes a block holds.
pub const BLOCK_CAPACITY: usize = 4096;

/// A range of bytes within a block.
#[derive(Debug)]
pub struct Slab {
    block: Arc<Vec<u8>>,
    start: usize,
    end: usize,
}

impl View for Slab {
    type V = Seq<u8>;

    closed spec fn view(&self) -> Seq<u8> {
        (*self.block)@.subrange(self.start as int, self.end as int)
    }
}

impl Clone for Slab {
    fn clone(&self) -> (r: Self)
        ensures
            r@ == self@,
    {
        proof { use_type_invariant(self); }
        Slab { block: self.block.clone(), start: self.start, end: self.end }
    }
}

impl Slab {
    #[verifier::type_invariant]
    spec fn inv(self) -> bool {
        self.start <= self.end <= (*self.block)@.len()
    }

    pub fn is_empty(&self) -> (r: bool)
        ensures
            r == (self@.len() == 0),
    {
        proof { use_type_invariant(self); }
        self.start == self.end
    }

    pub fn len(&self) -> (r: usize)
        ensures
            r == self@.len(),
    {
        proof { use_type_invariant(self); }
        self.end - self.start
    }

    pub fn as_bytes(&self) -> (r: &[u8])
        ensures
            r@ == self@,
    {
        proof { use_type_invariant(self); }
        vstd::slice::slice_subrange(self.block.as_slice(), self.start, self.end)
    }

    /// Where a sub-range starts, counted from the slab's start.
    pub open spec fn sub_start(range: Bounds) -> int {
        match range.start {
            Bound::Included(n) => n as int,
            Bound::Excluded(n) => n + 1,
            Bound::Unbounded => 0,
        }
    }

    /// Where a sub-range ends, counted from the slab's start: a bounded end is counted
    /// from where the sub-range starts.
    pub open spec fn sub_end(range: Bounds, len: int) -> int {
        match range.end {
            Bound::Included(n) => Self::sub_start(range) + n + 1,
            Bound::Excluded(n) => Self::sub_start(range) + n,
            Bound::Unbounded => len,
        }
    }

    /// The bytes of the slab in `range`. Both ends must lie within the slab.
    pub fn substr(&self, range: Bounds) -> (r: Slab)
        requires
            Self::sub_start(range) <= self@.len(),
            Self::sub_end(range, self@.len() as int) <= self@.len(),
        ensures
            r@ == self@.subrange(
                Self::sub_start(range),
                Self::sub_end(range, self@.len() as int),
            ),
    {
        proof { use_type_invariant(self); }
        let start = self.start + match range.start {
            Bound::Included(n) => n,
            Bound::Excluded(n) => n + 1,
            Bound::Unbounded => 0,
        };
        let end = match range.end {
            Bound::Included(n) => start + n + 1,
            Bound::Excluded(n) => start + n,
            Bound::Unbounded => self.end,
        };
        let r = Slab { block: self.block.clone(), start, end };
        assert(r@ =~= self@.subrange(
            Self::sub_start(range),
            Self::sub_end(range, self@.len() as int),
        ));
        r
    }
}

/// Hands out slabs from a block until it is full, then starts a new block.
pub struct SlabAllocator {
    block: Arc<Vec<u8>>,
    head: usize,
}

impl SlabAllocator {
    #[verifier::type_invariant]
    spec fn inv(self) -> bool {
        &&& self.head == (*self.block)@.len()
        &&& self.head <= BLOCK_CAPACITY
    }

    /// How many bytes of the current block are taken.
    pub closed spec fn head(&self) -> nat {
        self.head as nat
    }

    pub fn new() -> (r: SlabAllocator)
        ensures
            r.head() == 0,
    {
        SlabAllocator { block: Arc::new(Vec::new()), head: 0 }
    }

    /// Where the next slab will start, and how many bytes the block has room for; a
    /// full block is replaced by a new, empty one first.
    pub fn block_remaining(&mut self) -> (r: (usize, usize))
        ensures
            old(self).head() >= BLOCK_CAPACITY ==> final(self).head() == 0,
            old(self).head() < BLOCK_CAPACITY ==> final(self).head() == old(self).head(),
            r.0 == final(self).head(),
            r.1 == BLOCK_CAPACITY - final(self).head(),
            r.1 > 0,
    {
        proof { use_type_invariant(&*self); }
        if self.head >= BLOCK_CAPACITY {
            *self = SlabAllocator { block: Arc::new(Vec::new()), head: 0 };
        }
        (self.head, BLOCK_CAPACITY - self.head)
    }

    /// Copies as much of `val` as the block has room for into the block, and returns the
    /// slab that holds it together with the number of bytes copied.
    pub fn append(&mut self, val: &[u8]) -> (r: (Slab, usize))
        ensures
            ({
                let rem = if old(self).head() >= BLOCK_CAPACITY {
                    BLOCK_CAPACITY as int
                } else {
                    BLOCK_CAPACITY - old(self).head()
                };
                &&& r.1 == if val@.len() < rem { val@.len() as int } else { rem }
                &&& r.0@ == val@.subrange(0, r.1 as int)
                &&& final(self).head() == BLOCK_CAPACITY - rem + r.1
            }),
    {
        let (head, rem) = self.block_remaining();
        proof { use_type_invariant(&*self); }
        let len = if val.len() < rem { val.len() } else { rem };
        let mut bytes: Vec<u8> = Vec::new();
        let mut i: usize = 0;
        while i < head
            invariant
                i <= head,
                head == (*self.block)@.len(),
                bytes@ == (*self.block)@.subrange(0, i as int),
            decreases head - i,
        {
            bytes.push(self.block[i]);
            i += 1;
            assert(bytes@ =~= (*self.block)@.subrange(0, i as int));
        }
        let mut j: usize = 0;
        while j < len
            invariant
                j <= len,
                len <= val@.len(),
                head == (*self.block)@.len(),
                bytes@ == (*self.block)@ + val@.subrange(0, j as int),
            decreases len - j,
        {
            bytes.push(val[j]);
            j += 1;
            assert(bytes@ =~= (*self.block)@ + val@.subrange(0, j as int));
        }
        let block = Arc::new(bytes);
        *self = SlabAllocator { block: block.clone(), head: head + len };
        let slab = Slab { block, start: head, end: head + len };
        assert(slab@ =~= val@.subrange(0, len as int));
        (slab, len)
    }
}

} // verus!

verus! {

/// A range of bytes within a block, under the name the editor's buffer gives it.
pub type BlockRange = Slab;

/// A writer of bytes into blocks, under the name the editor's buffer gives it.
pub type BlockBuffer = SlabAllocator;

} // verus!
