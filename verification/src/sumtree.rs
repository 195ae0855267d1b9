//! A red-black tree of items that keeps, at every branch, the combined summary of the
//! items beneath it.
use vstd::prelude::*;
use std::sync::Arc;

pub mod cursor;

use crate::sumtree::cursor::Cursor;


verus! {

/// What a tree keeps about the items beneath a branch.
pub trait Summary: Sized + Default + Clone + Copy + core::fmt::Debug + PartialEq {
    /// The summary of the items of `self` followed by those of `rhs`.
    spec fn spec_combine(self, rhs: Self) -> Self;

    fn combine(&self, rhs: &Self) -> (r: Self)
        ensures
            r == self.spec_combine(*rhs),
    ;

    fn scan_leaf(&mut self, lhs: &Self);

    fn scan_branch(&mut self, lhs: &Self);

    fn empty() -> Self {
        Self::default()
    }
}

/// An item of a tree.
pub trait Item: Sized + Clone + core::fmt::Debug {
    type Summary: Summary;

    spec fn spec_summary(&self) -> Self::Summary;

    fn summary(&self) -> (r: Self::Summary)
        ensures
            r == self.spec_summary(),
    ;
}

/// Why a tree fails to be a red-black tree.
#[derive(Debug, Clone, Copy, PartialEq, Eq, Structural)]
pub enum Error {
    ConsecutiveRed,
    DifferingBlackHeight,
}

#[derive(Debug, Clone, Copy, PartialEq, Eq, Structural)]
pub enum Colour {
    Red,
    Black,
}

impl Colour {
    pub open spec fn height(self) -> nat {
        match self {
            Colour::Red => 0,
            Colour::Black => 1,
        }
    }

    pub fn black_height(&self) -> (r: u8)
        ensures
            r == self.height(),
    {
        match self {
            Colour::Red => 0,
            Colour::Black => 1,
        }
    }
}

/// A shared tree of items.
#[derive(Debug, PartialEq)]
pub struct SumTree<T: Item>(pub Arc<Node<T>>);

#[derive(Debug, PartialEq)]
pub enum Node<T: Item> {
    Branch { colour: Colour, left: SumTree<T>, right: SumTree<T>, summary: T::Summary },
    Leaf { item: T, summary: T::Summary },
}

impl<T: Item> Clone for SumTree<T> {
    fn clone(&self) -> (r: Self)
        ensures
            r == *self,
    {
        SumTree(self.0.clone())
    }
}

impl<T: Item> SumTree<T> {
    /// A tree of one item.
    pub fn new_leaf(item: T) -> (r: Self)
        ensures
            *r.0 == (Node::Leaf { item, summary: item.spec_summary() }),
            r.0.wf(),
            r@ == seq![item],
    {
        SumTree(Arc::new(Node::new_leaf(item)))
    }

    /// A branch of `colour` over `left` and `right`, with their combined summary.
    pub fn new_branch(colour: Colour, left: SumTree<T>, right: SumTree<T>) -> (r: Self)
        ensures
            *r.0 == (Node::Branch {
                colour,
                left,
                right,
                summary: left.0.summary_of().spec_combine(right.0.summary_of()),
            }),
            r.0.wf() == (left.0.wf() && right.0.wf()),
            r@ == left@ + right@,
    {
        SumTree(Arc::new(Node::new_branch(colour, left, right)))
    }

    /// The item of a leaf.
    pub fn deref_item(&self) -> (r: &T)
        requires
            (*self.0) is Leaf,
        ensures
            self@ == seq![*r],
            *self.0 matches Node::Leaf { item, .. } && *r == item,
    {
        self.0.deref_item()
    }

    /// The summary kept at the root.
    pub fn summary(&self) -> (r: T::Summary)
        ensures
            r == self.0.summary_of(),
    {
        self.0.summary()
    }

    /// A cursor before the first leaf of the tree.
    pub fn cursor(&self) -> (r: Cursor<'_, T>)
        ensures
            r.tree() == *self,
            r.fresh(),
            r.wf(),
    {
        Cursor::new(self)
    }

    /// Whether the tree is a red-black tree.
    pub fn is_balanced(&self) -> (r: bool)
        requires
            self.0.depth() <= usize::MAX,
        ensures
            r == self.0.rb(),
    {
        self.0.black_height().is_ok()
    }
}

impl<T: Item> View for SumTree<T> {
    type V = Seq<T>;

    open spec fn view(&self) -> Seq<T> {
        self.0.items()
    }
}

impl<T: Item> Node<T> {
    /// The items beneath the node, in order.
    pub open spec fn items(&self) -> Seq<T>
        decreases self,
    {
        match self {
            Node::Branch { left, right, .. } => left.0.items() + right.0.items(),
            Node::Leaf { item, .. } => seq![*item],
        }
    }

    /// The child of a branch on the side `right` names.
    pub open spec fn child(&self, right: bool) -> SumTree<T> {
        match self {
            Node::Branch { left, right: r, .. } => if right {
                *r
            } else {
                *left
            },
            Node::Leaf { .. } => arbitrary(),
        }
    }

    pub open spec fn summary_of(&self) -> T::Summary {
        match self {
            Node::Branch { summary, .. } => *summary,
            Node::Leaf { summary, .. } => *summary,
        }
    }

    /// Every summary is the one its item gives or its children combine to.
    pub open spec fn wf(&self) -> bool
        decreases self,
    {
        match self {
            Node::Branch { left, right, summary, .. } => {
                &&& left.0.wf()
                &&& right.0.wf()
                &&& *summary == left.0.summary_of().spec_combine(right.0.summary_of())
            },
            Node::Leaf { item, summary } => *summary == item.spec_summary(),
        }
    }

    pub open spec fn bh(&self) -> nat
        decreases self,
    {
        match self {
            Node::Branch { colour, left, .. } => left.0.bh() + colour.height(),
            _ => 0,
        }
    }

    pub open spec fn bh_ok(&self) -> bool
        decreases self,
    {
        match self {
            Node::Branch { left, right, .. } => {
                &&& left.0.bh_ok()
                &&& right.0.bh_ok()
                &&& left.0.bh() == right.0.bh()
            },
            _ => true,
        }
    }

    pub open spec fn is_red(&self) -> bool {
        self matches Node::Branch { colour: Colour::Red, .. }
    }

    pub open spec fn red_ok(&self) -> bool
        decreases self,
    {
        match self {
            Node::Branch { colour, left, right, .. } => {
                &&& left.0.red_ok()
                &&& right.0.red_ok()
                &&& *colour == Colour::Red ==> !left.0.is_red() && !right.0.is_red()
            },
            _ => true,
        }
    }

    pub open spec fn rb(&self) -> bool {
        self.bh_ok() && self.red_ok()
    }

    pub open spec fn almost(&self, h: nat) -> bool {
        ||| self.rb() && self.bh() == h
        ||| match self {
            Node::Branch { colour: Colour::Red, left, right, .. } => {
                &&& left.0.rb() && left.0.bh() == h
                &&& right.0.rb() && right.0.bh() == h
            },
            _ => false,
        }
    }

    pub open spec fn red_pair(&self, h: nat) -> bool {
        match self {
            Node::Branch { colour: Colour::Red, left, right, .. } => {
                ||| left.0.almost(h) && right.0.rb() && !right.0.is_red() && right.0.bh() == h
                ||| right.0.almost(h) && left.0.rb() && !left.0.is_red() && left.0.bh() == h
            },
            _ => false,
        }
    }

    pub open spec fn red_over_red(&self) -> bool {
        match self {
            Node::Branch { colour: Colour::Red, left, right, .. } => left.0.is_red()
                || right.0.is_red(),
            _ => false,
        }
    }

    pub proof fn lemma_unfold(&self)
        ensures
            match self {
                Node::Branch { colour, left, right, summary } => {
                    &&& self.bh_ok() == (left.0.bh_ok() && right.0.bh_ok() && left.0.bh()
                        == right.0.bh())
                    &&& self.bh() == left.0.bh() + colour.height()
                    &&& self.red_ok() == (left.0.red_ok() && right.0.red_ok() && (*colour
                        == Colour::Red ==> !left.0.is_red() && !right.0.is_red()))
                    &&& self.items() == left.0.items() + right.0.items()
                    &&& self.wf() == (left.0.wf() && right.0.wf() && *summary
                        == left.0.summary_of().spec_combine(right.0.summary_of()))
                },
                Node::Leaf { item, .. } => self.bh() == 0 && self.bh_ok() && self.red_ok()
                    && self.items() == seq![*item],
            },
    {
    }

    pub proof fn lemma_items_len(&self)
        ensures
            self.items().len() >= 1,
        decreases self,
    {
        match self {
            Node::Branch { left, right, .. } => {
                left.0.lemma_items_len();
                right.0.lemma_items_len();
            },
            _ => {},
        }
    }

    fn new_branch(colour: Colour, left: SumTree<T>, right: SumTree<T>) -> (r: Self)
        ensures
            r == (Node::Branch {
                colour,
                left,
                right,
                summary: left.0.summary_of().spec_combine(right.0.summary_of()),
            }),
    {
        let summary = left.0.summary().combine(&right.0.summary());
        Node::Branch { colour, left, right, summary }
    }

    fn new_leaf(item: T) -> (r: Self)
        ensures
            r == (Node::Leaf { item, summary: item.spec_summary() }),
            r.wf(),
    {
        let summary = item.summary();
        Node::Leaf { item, summary }
    }

    /// The item of a leaf.
    pub fn deref_item(&self) -> (r: &T)
        requires
            self is Leaf,
        ensures
            self.items() == seq![*r],
            self matches Node::Leaf { item, .. } && *r == item,
        decreases self,
    {
        match self {
            Node::Leaf { item, .. } => item,
            Node::Branch { left, .. } => {
                proof {
                    assert(false);
                }
                left.0.deref_item()
            },
        }
    }

    pub fn summary(&self) -> (r: T::Summary)
        ensures
            r == self.summary_of(),
    {
        match self {
            Node::Branch { summary, .. } => *summary,
            Node::Leaf { summary, .. } => *summary,
        }
    }

    pub fn colour(&self) -> (r: Colour)
        ensures
            r == (if self.is_red() { Colour::Red } else { Colour::Black }),
    {
        match self {
            Node::Branch { colour, .. } => *colour,
            Node::Leaf { .. } => Colour::Black,
        }
    }

    /// The length of the longest path from the node down to a leaf.
    pub open spec fn depth(&self) -> nat
        decreases self,
    {
        match self {
            Node::Branch { left, right, .. } => 1 + if left.0.depth() >= right.0.depth() {
                left.0.depth()
            } else {
                right.0.depth()
            },
            _ => 0,
        }
    }

    pub proof fn lemma_bh_le_depth(&self)
        ensures
            self.bh() <= self.depth(),
        decreases self,
    {
        if let Node::Branch { left, .. } = self {
            left.0.lemma_bh_le_depth();
        }
    }

    /// The black height, or why the tree is not a red-black tree.
    pub fn black_height(&self) -> (r: Result<usize, Error>)
        requires
            self.depth() <= usize::MAX,
        ensures
            r is Ok <==> self.rb(),
            r matches Ok(h) ==> h == self.bh(),
        decreases self,
    {
        match self {
            Node::Leaf { .. } => Ok(0),
            Node::Branch { colour, left, right, .. } => {
                if *colour == Colour::Red {
                    if let Node::Branch { colour: Colour::Red, .. } = &*left.0 {
                        return Err(Error::ConsecutiveRed);
                    }
                    if let Node::Branch { colour: Colour::Red, .. } = &*right.0 {
                        return Err(Error::ConsecutiveRed);
                    }
                }
                let lheight = match left.0.black_height() {
                    Ok(h) => h,
                    Err(e) => return Err(e),
                };
                let rheight = match right.0.black_height() {
                    Ok(h) => h,
                    Err(e) => return Err(e),
                };
                if lheight != rheight {
                    return Err(Error::DifferingBlackHeight);
                }
                proof {
                    left.0.lemma_bh_le_depth();
                }
                Ok(lheight + (colour.black_height() as usize))
            },
        }
    }
}

} // verus!

verus! {

/// The summaries of `items` combined from left to right; a single item gives its own.
pub open spec fn fold_summaries<T: Item>(items: Seq<T>) -> T::Summary
    decreases items.len(),
{
    if items.len() <= 1 {
        items[0].spec_summary()
    } else {
        fold_summaries(items.drop_last()).spec_combine(items.last().spec_summary())
    }
}

/// Combining summaries is associative.
pub open spec fn combine_associative<S: Summary>() -> bool {
    forall|x: S, y: S, z: S|
        #[trigger] x.spec_combine(y).spec_combine(z) == x.spec_combine(y.spec_combine(z))
}

/// Under an associative combination, the fold of two runs of items is the combination
/// of their folds.
pub proof fn lemma_fold_concat<T: Item>(a: Seq<T>, b: Seq<T>)
    requires
        combine_associative::<T::Summary>(),
        a.len() > 0,
        b.len() > 0,
    ensures
        fold_summaries(a + b) == fold_summaries(a).spec_combine(fold_summaries(b)),
    decreases b.len(),
{
    if b.len() == 1 {
        assert((a + b).drop_last() =~= a);
    } else {
        assert((a + b).drop_last() =~= a + b.drop_last());
        lemma_fold_concat(a, b.drop_last());
        let x = fold_summaries(a);
        let y = fold_summaries(b.drop_last());
        let z = b.last().spec_summary();
        assert(x.spec_combine(y).spec_combine(z) == x.spec_combine(y.spec_combine(z)));
    }
}

/// Under an associative combination, the summary a well-formed tree keeps at its root
/// is the fold of the summaries of its items.
pub proof fn law_summary_is_fold<T: Item>(tree: SumTree<T>)
    requires
        combine_associative::<T::Summary>(),
        tree.0.wf(),
    ensures
        tree.0.summary_of() == fold_summaries(tree@),
    decreases tree.0,
{
    match &*tree.0 {
        Node::Branch { left, right, .. } => {
            law_summary_is_fold(*left);
            law_summary_is_fold(*right);
            left.0.lemma_items_len();
            right.0.lemma_items_len();
            lemma_fold_concat(left@, right@);
        },
        Node::Leaf { item, .. } => {},
    }
}

} // verus!
