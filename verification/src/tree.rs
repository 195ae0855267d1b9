//! The nodes of a rope: a red-black tree whose leaves hold slabs, and whose branches
//! hold the length and line count of the bytes beneath them.
use vstd::prelude::*;
use std::sync::Arc;

use crate::bytes::{count_nl, count_occurrences, lemma_count_concat, lemma_count_le_len, newline};
use crate::slab::Slab;
use crate::util::Bounds;

verus! {

#[derive(Clone, Copy, Debug, PartialEq, Eq, Structural)]
pub enum NodeColour {
    Red,
    Black,
}

impl NodeColour {
    pub open spec fn height(self) -> nat {
        match self {
            NodeColour::Red => 0,
            NodeColour::Black => 1,
        }
    }

    /// How much a node of this colour adds to the black height: one for black.
    pub fn black_height(&self) -> (r: u8)
        ensures
            r == self.height(),
    {
        match self {
            NodeColour::Red => 0,
            NodeColour::Black => 1,
        }
    }
}

/// Why a tree fails to be a red-black tree.
#[derive(Clone, Copy, Debug, PartialEq, Eq, Structural)]
pub enum Error {
    ConsecutiveRed,
    DifferingBlackHeight,
}

#[derive(Clone, Copy, Debug)]
pub struct NodeMetrics {
    pub len: usize,
    pub num_lines: usize,
}

impl NodeMetrics {
    pub fn zero() -> (r: NodeMetrics)
        ensures
            r.len == 0,
            r.num_lines == 0,
    {
        NodeMetrics { len: 0, num_lines: 0 }
    }

    /// The metrics of two runs of bytes, one after the other.
    pub fn plus(&self, rhs: &NodeMetrics) -> (r: NodeMetrics)
        requires
            self.len + rhs.len <= usize::MAX,
            self.num_lines + rhs.num_lines <= usize::MAX,
        ensures
            r.len == self.len + rhs.len,
            r.num_lines == self.num_lines + rhs.num_lines,
    {
        NodeMetrics { len: self.len + rhs.len, num_lines: self.num_lines + rhs.num_lines }
    }
}

/// The node an `Arc` points to.
pub open spec fn node_at(a: &Arc<Node>) -> Node {
    **a
}

#[derive(Debug)]
pub enum Node {
    Branch { colour: NodeColour, left: Arc<Node>, right: Arc<Node>, metrics: NodeMetrics },
    Leaf { slab: Slab, metrics: NodeMetrics },
    Empty,
}

impl Node {
    /// The bytes beneath the node, in order.
    pub open spec fn contents(&self) -> Seq<u8>
        decreases self,
    {
        match self {
            Node::Branch { left, right, .. } => left.contents() + right.contents(),
            Node::Leaf { slab, .. } => slab@,
            Node::Empty => Seq::empty(),
        }
    }

    pub open spec fn metrics_of(&self) -> NodeMetrics {
        match self {
            Node::Branch { metrics, .. } => *metrics,
            Node::Leaf { metrics, .. } => *metrics,
            Node::Empty => NodeMetrics { len: 0, num_lines: 0 },
        }
    }

    pub open spec fn size(&self) -> nat {
        self.metrics_of().len as nat
    }

    /// The metrics of every node are those of the bytes beneath it, leaves are not
    /// empty, and `Empty` stands only alone.
    pub open spec fn wf(&self) -> bool
        decreases self,
    {
        match self {
            Node::Branch { left, right, metrics, .. } => {
                &&& !(**left is Empty)
                &&& !(**right is Empty)
                &&& left.wf()
                &&& right.wf()
                &&& metrics.len == left.metrics_of().len + right.metrics_of().len
                &&& metrics.num_lines == left.metrics_of().num_lines
                    + right.metrics_of().num_lines
            },
            Node::Leaf { slab, metrics } => {
                &&& metrics.len == slab@.len()
                &&& metrics.num_lines == count_nl(slab@)
                &&& slab@.len() > 0
            },
            Node::Empty => true,
        }
    }

    pub open spec fn leaves(&self) -> nat
        decreases self,
    {
        match self {
            Node::Branch { left, right, .. } => left.leaves() + right.leaves(),
            Node::Leaf { .. } => 1,
            Node::Empty => 0,
        }
    }

    /// The number of black branches on the path to the leftmost leaf.
    pub open spec fn bh(&self) -> nat
        decreases self,
    {
        match self {
            Node::Branch { colour, left, .. } => left.bh() + colour.height(),
            _ => 0,
        }
    }

    /// Every path from a branch to its leaves meets the same number of black branches.
    pub open spec fn bh_ok(&self) -> bool
        decreases self,
    {
        match self {
            Node::Branch { left, right, .. } => {
                &&& left.bh_ok()
                &&& right.bh_ok()
                &&& left.bh() == right.bh()
            },
            _ => true,
        }
    }

    pub open spec fn is_red(&self) -> bool {
        self matches Node::Branch { colour: NodeColour::Red, .. }
    }

    /// No red branch has a red child.
    pub open spec fn red_ok(&self) -> bool
        decreases self,
    {
        match self {
            Node::Branch { colour, left, right, .. } => {
                &&& left.red_ok()
                &&& right.red_ok()
                &&& *colour == NodeColour::Red ==> !left.is_red() && !right.is_red()
            },
            _ => true,
        }
    }

    /// A red-black tree.
    pub open spec fn rb(&self) -> bool {
        self.bh_ok() && self.red_ok()
    }

    /// A red-black tree of black height `h`, or a red branch over two such trees.
    pub open spec fn almost(&self, h: nat) -> bool {
        ||| self.rb() && self.bh() == h
        ||| match self {
            Node::Branch { colour: NodeColour::Red, left, right, .. } => {
                &&& left.rb() && left.bh() == h
                &&& right.rb() && right.bh() == h
            },
            _ => false,
        }
    }

    /// A red branch over a black red-black tree and an `almost` tree, both of black
    /// height `h`.
    pub open spec fn red_pair(&self, h: nat) -> bool {
        match self {
            Node::Branch { colour: NodeColour::Red, left, right, .. } => {
                ||| left.almost(h) && right.rb() && !right.is_red() && right.bh() == h
                ||| right.almost(h) && left.rb() && !left.is_red() && left.bh() == h
            },
            _ => false,
        }
    }

    pub proof fn lemma_wf(&self)
        requires
            self.wf(),
        ensures
            self.metrics_of().len == self.contents().len(),
            self.metrics_of().num_lines == count_nl(self.contents()),
            self.leaves() <= self.size(),
            self.bh() <= self.leaves(),
            !(self is Empty) ==> self.leaves() >= 1,
        decreases self,
    {
        match self {
            Node::Branch { left, right, .. } => {
                left.lemma_wf();
                right.lemma_wf();
                lemma_count_concat(left.contents(), right.contents(), newline());
            },
            _ => {},
        }
    }

    /// One step of each recursive definition, at a branch.
    pub proof fn lemma_unfold(&self)
        ensures
            match self {
                Node::Branch { colour, left, right, .. } => {
                    &&& self.bh_ok() == (left.bh_ok() && right.bh_ok() && left.bh() == right.bh())
                    &&& self.bh() == left.bh() + colour.height()
                    &&& self.red_ok() == (left.red_ok() && right.red_ok() && (*colour
                        == NodeColour::Red ==> !left.is_red() && !right.is_red()))
                    &&& self.contents() == left.contents() + right.contents()
                    &&& self.pieces() == left.pieces() + right.pieces()
                    &&& self.wf() ==> left.wf() && right.wf() && self.size() == left.size()
                        + right.size() && !(**left is Empty) && !(**right is Empty)
                },
                _ => self.bh() == 0 && self.bh_ok() && self.red_ok(),
            },
    {
    }

    pub fn empty() -> (r: Node)
        ensures
            r is Empty,
    {
        Node::Empty
    }

    pub fn new_leaf(val: Slab) -> (r: Node)
        ensures
            r == (Node::Leaf {
                slab: val,
                metrics: NodeMetrics { len: val@.len() as usize, num_lines: count_nl(val@) as usize },
            }),
            r.contents() == val@,
            val@.len() > 0 ==> r.wf(),
    {
        let len = val.len();
        let num_lines = count_occurrences(val.as_bytes(), 10u8);
        Node::Leaf { slab: val, metrics: NodeMetrics { len, num_lines } }
    }

    pub fn new_branch(colour: NodeColour, left: Arc<Node>, right: Arc<Node>) -> (r: Node)
        requires
            left.wf(),
            right.wf(),
            !(*left is Empty),
            !(*right is Empty),
            left.size() + right.size() <= usize::MAX,
        ensures
            r == (Node::Branch {
                colour,
                left,
                right,
                metrics: NodeMetrics {
                    len: (left.size() + right.size()) as usize,
                    num_lines: (left.metrics_of().num_lines + right.metrics_of().num_lines) as usize,
                },
            }),
            r.wf(),
            r.contents() == left.contents() + right.contents(),
    {
        proof {
            left.lemma_wf();
            right.lemma_wf();
            lemma_count_le_len(left.contents(), newline());
            lemma_count_le_len(right.contents(), newline());
        }
        let len = left.len() + right.len();
        let num_lines = left.num_lines() + right.num_lines();
        Node::Branch { colour, left, right, metrics: NodeMetrics { len, num_lines } }
    }

    pub fn metrics(&self) -> (r: NodeMetrics)
        ensures
            r == self.metrics_of(),
    {
        match self {
            Node::Branch { metrics, .. } => *metrics,
            Node::Leaf { metrics, .. } => *metrics,
            Node::Empty => NodeMetrics { len: 0, num_lines: 0 },
        }
    }

    pub fn len(&self) -> (r: usize)
        ensures
            r == self.metrics_of().len,
    {
        self.metrics().len
    }

    pub fn num_lines(&self) -> (r: usize)
        ensures
            r == self.metrics_of().num_lines,
    {
        self.metrics().num_lines
    }

    pub fn colour(&self) -> (r: NodeColour)
        ensures
            r == (if self.is_red() { NodeColour::Red } else { NodeColour::Black }),
    {
        match self {
            Node::Branch { colour, .. } => *colour,
            _ => NodeColour::Black,
        }
    }

    /// The black height, or why the tree is not a red-black tree.
    pub fn black_height(&self) -> (r: Result<usize, Error>)
        requires
            self.wf(),
        ensures
            r is Ok <==> self.rb(),
            r matches Ok(h) ==> h == self.bh(),
        decreases self,
    {
        match self {
            Node::Branch { colour, left, right, .. } => {
                proof {
                    self.lemma_wf();
                    left.lemma_wf();
                }
                if *colour == NodeColour::Red {
                    if let Node::Branch { colour: NodeColour::Red, .. } = &**left {
                        return Err(Error::ConsecutiveRed);
                    }
                    if let Node::Branch { colour: NodeColour::Red, .. } = &**right {
                        return Err(Error::ConsecutiveRed);
                    }
                }
                let lheight = match left.black_height() {
                    Ok(h) => h,
                    Err(e) => return Err(e),
                };
                let rheight = match right.black_height() {
                    Ok(h) => h,
                    Err(e) => return Err(e),
                };
                if lheight != rheight {
                    return Err(Error::DifferingBlackHeight);
                }
                Ok(lheight + (colour.black_height() as usize))
            },
            _ => Ok(0),
        }
    }

    pub fn is_balanced(&self) -> (r: bool)
        requires
            self.wf(),
        ensures
            r == self.rb(),
    {
        self.black_height().is_ok()
    }
}

} // verus!

verus! {

/// The total length of a run of pieces.
pub open spec fn total(ps: Seq<Seq<u8>>) -> int
    decreases ps.len(),
{
    if ps.len() == 0 {
        0
    } else {
        ps[0].len() + total(ps.drop_first())
    }
}

pub proof fn lemma_total_concat(a: Seq<Seq<u8>>, b: Seq<Seq<u8>>)
    ensures
        total(a + b) == total(a) + total(b),
    decreases a.len(),
{
    if a.len() > 0 {
        assert((a + b).drop_first() =~= a.drop_first() + b);
        lemma_total_concat(a.drop_first(), b);
    } else {
        assert(a + b =~= b);
    }
}

impl Node {
    /// The bytes of each leaf, from left to right.
    pub open spec fn pieces(&self) -> Seq<Seq<u8>>
        decreases self,
    {
        match self {
            Node::Branch { left, right, .. } => left.pieces() + right.pieces(),
            Node::Leaf { slab, .. } => seq![slab@],
            Node::Empty => Seq::empty(),
        }
    }

    /// The pieces of a well-formed tree are its leaves' bytes: none is empty, they run
    /// for the tree's size, and a tree has some exactly when it is not `Empty`.
    pub proof fn lemma_pieces(&self)
        requires
            self.wf(),
        ensures
            forall|i: int| 0 <= i < self.pieces().len() ==> #[trigger] self.pieces()[i].len() > 0,
            total(self.pieces()) == self.size(),
            (self.pieces().len() == 0) == (self is Empty),
        decreases self,
    {
        match self {
            Node::Branch { left, right, .. } => {
                self.lemma_unfold();
                left.lemma_pieces();
                right.lemma_pieces();
                lemma_total_concat(left.pieces(), right.pieces());
                let p = self.pieces();
                assert forall|i: int| 0 <= i < p.len() implies #[trigger] p[i].len() > 0 by {
                    if i < left.pieces().len() {
                        assert(p[i] == left.pieces()[i]);
                    } else {
                        assert(p[i] == right.pieces()[i - left.pieces().len()]);
                    }
                }
            },
            Node::Leaf { slab, .. } => {
                assert(seq![slab@].drop_first() =~= Seq::<Seq<u8>>::empty());
                assert(total(Seq::<Seq<u8>>::empty()) == 0);
                assert(total(self.pieces()) == slab@.len());
            },
            Node::Empty => {
                assert(total(self.pieces()) == 0);
            },
        }
    }
}

} // verus!
