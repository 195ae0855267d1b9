//! Walking a summed tree leaf by leaf or by a search, and inserting beside the leaf a
//! walk stopped at.
use vstd::prelude::*;

use crate::sumtree::{combine_associative, fold_summaries, law_summary_is_fold, Colour, Item, Node, SumTree, Summary};

verus! {

/// Where a search goes from a branch.
#[derive(Debug, Clone, Copy, PartialEq, Eq, Structural)]
pub enum Direction {
    Left,
    Right,
}

/// The direction of a step to the right child, or to the left one.
pub open spec fn direction_of(went_right: bool) -> Direction {
    if went_right {
        Direction::Right
    } else {
        Direction::Left
    }
}

/// The node at depth `k` of the path `anc` that ends at `curr`.
pub open spec fn node_at<'a, T: Item>(
    anc: Seq<(&'a SumTree<T>, bool)>,
    curr: SumTree<T>,
    k: int,
) -> SumTree<T> {
    if 0 <= k < anc.len() {
        *anc[k].0
    } else {
        curr
    }
}

/// `anc` lists the branches from `root` down to `curr`, each with the side the path
/// leaves it by (`true` for the right child).
pub open spec fn path_ok<'a, T: Item>(
    root: SumTree<T>,
    anc: Seq<(&'a SumTree<T>, bool)>,
    curr: SumTree<T>,
) -> bool {
    &&& node_at(anc, curr, 0) == root
    &&& forall|k: int|
        #![trigger anc[k]]
        0 <= k < anc.len() ==> {
            &&& (*anc[k].0.0) is Branch
            &&& node_at(anc, curr, k + 1) == anc[k].0.0.child(anc[k].1)
        }
}

/// The number of items left of the node at depth `k` of the path `anc`.
pub open spec fn offset<'a, T: Item>(anc: Seq<(&'a SumTree<T>, bool)>, k: int) -> int
    decreases k,
{
    if k <= 0 {
        0
    } else {
        offset(anc, k - 1) + if anc[k - 1].1 {
            anc[k - 1].0.0.child(false)@.len() as int
        } else {
            0
        }
    }
}

/// The offset of a node depends only on the steps above it.
pub proof fn lemma_offset_prefix<'a, T: Item>(
    s: Seq<(&'a SumTree<T>, bool)>,
    t: Seq<(&'a SumTree<T>, bool)>,
    k: int,
)
    requires
        0 <= k <= s.len(),
        k <= t.len(),
        forall|i: int| 0 <= i < k ==> s[i] == t[i],
    ensures
        offset(s, k) == offset(t, k),
    decreases k,
{
    if k > 0 {
        lemma_offset_prefix(s, t, k - 1);
    }
}

/// Along a path, each node is a contiguous run of the items of the root, and keeps the
/// well-formedness and balance of the root.
pub proof fn lemma_path<'a, T: Item>(
    root: SumTree<T>,
    anc: Seq<(&'a SumTree<T>, bool)>,
    curr: SumTree<T>,
    k: int,
)
    requires
        path_ok(root, anc, curr),
        0 <= k <= anc.len(),
    ensures
        0 <= offset(anc, k),
        offset(anc, k) + node_at(anc, curr, k)@.len() <= root@.len(),
        root@.subrange(offset(anc, k), offset(anc, k) + node_at(anc, curr, k)@.len())
            == node_at(anc, curr, k)@,
        root.0.wf() ==> node_at(anc, curr, k).0.wf(),
        root.0.rb() ==> node_at(anc, curr, k).0.rb(),
        root.0.bh_ok() ==> node_at(anc, curr, k).0.bh_ok(),
    decreases k,
{
    if k == 0 {
        assert(root@.subrange(0, root@.len() as int) =~= root@);
    } else {
        lemma_path(root, anc, curr, k - 1);
        let p = node_at(anc, curr, k - 1);
        assert(anc[k - 1].0.0.child(anc[k - 1].1) == node_at(anc, curr, k));
        assert(p == *anc[k - 1].0);
        p.0.lemma_unfold();
        let o = offset(anc, k - 1);
        let c = node_at(anc, curr, k);
        if let Node::Branch { left, right, .. } = &*p.0 {
            if anc[k - 1].1 {
                assert(c == *right);
                assert(root@.subrange(o + left@.len(), o + left@.len() + c@.len()) =~= p@.subrange(
                    left@.len() as int,
                    p@.len() as int,
                ));
            } else {
                assert(c == *left);
                assert(root@.subrange(o, o + c@.len()) =~= p@.subrange(0, left@.len() as int));
            }
        }
    }
}

/// A path still holds after its last step is dropped.
pub proof fn lemma_path_pop<'a, T: Item>(
    root: SumTree<T>,
    anc: Seq<(&'a SumTree<T>, bool)>,
    curr: SumTree<T>,
)
    requires
        path_ok(root, anc, curr),
        anc.len() > 0,
    ensures
        path_ok(root, anc.drop_last(), *anc.last().0),
        offset(anc.drop_last(), anc.len() - 1) == offset(anc, anc.len() - 1),
{
    let s = anc.drop_last();
    let last = *anc.last().0;
    assert forall|k: int| #![trigger s[k]] 0 <= k < s.len() implies {
        &&& (*s[k].0.0) is Branch
        &&& node_at(s, last, k + 1) == s[k].0.0.child(s[k].1)
    } by {
        assert(anc[k] == s[k]);
        assert(node_at(s, last, k + 1) == node_at(anc, curr, k + 1));
    }
    assert(node_at(s, last, 0) == node_at(anc, curr, 0));
    lemma_offset_prefix(s, anc, anc.len() - 1);
}

/// A path still holds after a step from its end down to a child of a branch.
pub proof fn lemma_path_push<'a, T: Item>(
    root: SumTree<T>,
    anc: Seq<(&'a SumTree<T>, bool)>,
    curr: &'a SumTree<T>,
    right: bool,
)
    requires
        path_ok(root, anc, *curr),
        (*curr.0) is Branch,
    ensures
        path_ok(root, anc.push((curr, right)), curr.0.child(right)),
        offset(anc.push((curr, right)), anc.len() as int) == offset(anc, anc.len() as int),
        offset(anc.push((curr, right)), anc.len() + 1int) == offset(anc, anc.len() as int) + if right {
            curr.0.child(false)@.len() as int
        } else {
            0
        },
{
    let s = anc.push((curr, right));
    let c = curr.0.child(right);
    assert forall|k: int| #![trigger s[k]] 0 <= k < s.len() implies {
        &&& (*s[k].0.0) is Branch
        &&& node_at(s, c, k + 1) == s[k].0.0.child(s[k].1)
    } by {
        if k < anc.len() {
            assert(s[k] == anc[k]);
            assert(node_at(s, c, k + 1) == node_at(anc, *curr, k + 1));
        }
    }
    assert(node_at(s, c, 0) == node_at(anc, *curr, 0));
    lemma_offset_prefix(s, anc, anc.len() as int);
}

/// The tree `make_black` and `balance` build where they rotate nothing.
pub open spec fn plain_branch<T: Item>(colour: Colour, left: SumTree<T>, right: SumTree<T>) -> Node<
    T,
> {
    Node::Branch {
        colour,
        left,
        right,
        summary: left.0.summary_of().spec_combine(right.0.summary_of()),
    }
}

/// Recolours a red root black.
fn make_black<T: Item>(tree: SumTree<T>) -> (r: SumTree<T>)
    ensures
        r@ == tree@,
        tree.0.wf() ==> r.0.wf(),
        !r.0.is_red(),
        !tree.0.is_red() ==> r == tree,
        tree.0.bh_ok() ==> r.0.bh_ok(),
        r.0.bh() == tree.0.bh() + if tree.0.is_red() { 1nat } else { 0nat },
        tree.0.almost(tree.0.bh()) ==> r.0.rb(),
{
    proof {
        tree.0.lemma_unfold();
    }
    match &*tree.0 {
        Node::Branch { colour: Colour::Red, left, right, .. } => {
            let r = SumTree::new_branch(Colour::Black, left.clone(), right.clone());
            proof {
                r.0.lemma_unfold();
            }
            r
        },
        _ => tree,
    }
}

/// `t` is a red branch over a black branch over `a` and `b` and a black branch over `c`
/// and `d`.
pub open spec fn rotation_of<T: Item>(t: SumTree<T>, a: SumTree<T>, b: SumTree<T>, c: SumTree<T>, d: SumTree<T>) -> bool {
    &&& t.0.is_red()
    &&& !t.0.child(false).0.is_red() && (*t.0.child(false).0) is Branch
    &&& !t.0.child(true).0.is_red() && (*t.0.child(true).0) is Branch
    &&& t.0.child(false).0.child(false) == a
    &&& t.0.child(false).0.child(true) == b
    &&& t.0.child(true).0.child(false) == c
    &&& t.0.child(true).0.child(true) == d
}

/// A red branch over a black branch over `a` and `b` and a black branch over `c` and
/// `d`.
fn rotate<T: Item>(a: SumTree<T>, b: SumTree<T>, c: SumTree<T>, d: SumTree<T>) -> (t: SumTree<T>)
    ensures
        a.0.wf() && b.0.wf() && c.0.wf() && d.0.wf() ==> t.0.wf(),
        t.0.is_red(),
        rotation_of(t, a, b, c, d),
        t@ == a@ + b@ + c@ + d@,
        a.0.bh_ok() && b.0.bh_ok() && c.0.bh_ok() && d.0.bh_ok() && a.0.bh() == b.0.bh()
            && b.0.bh() == c.0.bh() && c.0.bh() == d.0.bh() ==> t.0.bh_ok() && t.0.bh() == a.0.bh()
            + 1,
        a.0.rb() && b.0.rb() && c.0.rb() && d.0.rb() && a.0.bh() == b.0.bh() && b.0.bh()
            == c.0.bh() && c.0.bh() == d.0.bh() ==> t.0.rb(),
{
    let l = SumTree::new_branch(Colour::Black, a, b);
    let r = SumTree::new_branch(Colour::Black, c, d);
    proof {
        l.0.lemma_unfold();
        r.0.lemma_unfold();
    }
    let t = SumTree::new_branch(Colour::Red, l, r);
    proof {
        t.0.lemma_unfold();
    }
    assert(t@ =~= a@ + b@ + c@ + d@);
    t
}

/// A branch of `colour` over `left` and `right`, where a black branch over a red
/// branch with a red child is rotated into a red branch over two black ones; the flag
/// says whether it rotated.
#[verifier::spinoff_prover]
#[verifier::rlimit(60)]
fn balance<T: Item>(colour: Colour, left: SumTree<T>, right: SumTree<T>) -> (r: (SumTree<T>, bool))
    ensures
        left.0.wf() && right.0.wf() ==> r.0.0.wf(),
        (*r.0.0) is Branch,
        r.0@ == left@ + right@,
        r.1 == (colour == Colour::Black && (left.0.red_over_red() || right.0.red_over_red())),
        !r.1 ==> *r.0.0 == plain_branch(colour, left, right),
        r.1 ==> r.0.0.is_red(),
        left.0.bh_ok() && right.0.bh_ok() && left.0.bh() == right.0.bh() ==> r.0.0.bh_ok()
            && r.0.0.bh() == left.0.bh() + colour.height(),
        colour == Colour::Black && (left.0.almost(right.0.bh()) || left.0.red_pair(right.0.bh()))
            && right.0.rb() ==> r.0.0.rb(),
        colour == Colour::Black && (right.0.almost(left.0.bh()) || right.0.red_pair(left.0.bh()))
            && left.0.rb() ==> r.0.0.rb(),
        colour == Colour::Black && left.0.is_red() && left.0.child(false).0.is_red() ==> rotation_of(
            r.0,
            left.0.child(false).0.child(false),
            left.0.child(false).0.child(true),
            left.0.child(true),
            right,
        ),
        colour == Colour::Black && left.0.is_red() && !left.0.child(false).0.is_red()
            && left.0.child(true).0.is_red() ==> rotation_of(
            r.0,
            left.0.child(false),
            left.0.child(true).0.child(false),
            left.0.child(true).0.child(true),
            right,
        ),
        colour == Colour::Black && !left.0.red_over_red() && right.0.is_red()
            && right.0.child(false).0.is_red() ==> rotation_of(
            r.0,
            left,
            right.0.child(false).0.child(false),
            right.0.child(false).0.child(true),
            right.0.child(true),
        ),
        colour == Colour::Black && !left.0.red_over_red() && right.0.is_red()
            && !right.0.child(false).0.is_red() && right.0.child(true).0.is_red() ==> rotation_of(
            r.0,
            left,
            right.0.child(false),
            right.0.child(true).0.child(false),
            right.0.child(true).0.child(true),
        ),
{
    proof {
        left.0.lemma_unfold();
        right.0.lemma_unfold();
    }
    if colour == Colour::Red {
        let t = SumTree::new_branch(colour, left, right);
        return (t, false);
    }
    if let Node::Branch { colour: Colour::Red, left: ll, right: lr, .. } = &*left.0 {
        proof {
            ll.0.lemma_unfold();
            lr.0.lemma_unfold();
        }
        if let Node::Branch { colour: Colour::Red, left: a, right: b, .. } = &*ll.0 {
            let c = lr;
            let d = right;
            let t = rotate(a.clone(), b.clone(), c.clone(), d);
            assert(t@ =~= left@ + right@);
            return (t, true);
        } else if let Node::Branch { colour: Colour::Red, left: b, right: c, .. } = &*lr.0 {
            let a = ll;
            let d = right;
            let t = rotate(a.clone(), b.clone(), c.clone(), d);
            assert(t@ =~= left@ + right@);
            return (t, true);
        }
    }
    if let Node::Branch { colour: Colour::Red, left: rl, right: rr, .. } = &*right.0 {
        proof {
            rl.0.lemma_unfold();
            rr.0.lemma_unfold();
        }
        if let Node::Branch { colour: Colour::Red, left: b, right: c, .. } = &*rl.0 {
            let a = left;
            let d = rr;
            let t = rotate(a, b.clone(), c.clone(), d.clone());
            assert(t@ =~= left@ + right@);
            return (t, true);
        } else if let Node::Branch { colour: Colour::Red, left: c, right: d, .. } = &*rr.0 {
            let a = left;
            let b = rl.clone();
            let t = rotate(a, b, c.clone(), d.clone());
            assert(t@ =~= left@ + right@);
            return (t, true);
        }
    }
    let t = SumTree::new_branch(colour, left, right);
    (t, false)
}

} // verus!

verus! {

/// A walk over the leaves of a tree: before the first leaf, or at a leaf together with
/// the branches above it.
#[derive(Debug)]
pub struct Cursor<'a, T: Item> {
    tree: &'a SumTree<T>,
    ancestors: Vec<(&'a SumTree<T>, bool)>,
    curr: Option<&'a SumTree<T>>,
}

impl<'a, T: Item> Cursor<'a, T> {
    /// The tree walked.
    pub closed spec fn tree(&self) -> SumTree<T> {
        *self.tree
    }

    /// Before the first leaf.
    pub closed spec fn fresh(&self) -> bool {
        &&& self.curr is None
        &&& self.ancestors@.len() == 0
    }

    /// The index in the tree's items of the leaf the cursor is at.
    pub closed spec fn position(&self) -> int {
        offset(self.ancestors@, self.ancestors@.len() as int)
    }

    /// The branches above the cursor's leaf, from the root down, each with whether the
    /// walk goes on to its right child.
    pub closed spec fn branches(&self) -> Seq<(&'a SumTree<T>, bool)> {
        self.ancestors@
    }

    /// The leaf the cursor is at, if any.
    pub closed spec fn current(&self) -> Option<SumTree<T>> {
        match self.curr {
            Some(c) => Some(*c),
            None => None,
        }
    }

    /// The cursor is fresh, or at a leaf whose branches above it lead down from the
    /// root.
    pub closed spec fn wf(&self) -> bool {
        match self.curr {
            None => self.ancestors@.len() == 0,
            Some(c) => {
                &&& (*c.0) is Leaf
                &&& path_ok(*self.tree, self.ancestors@, *c)
            },
        }
    }

    /// A cursor is fresh exactly when it is at no leaf.
    pub proof fn lemma_fresh(&self)
        requires
            self.wf(),
        ensures
            self.fresh() <==> self.current() is None,
            self.fresh() ==> self.branches().len() == 0,
    {
    }

    /// At a leaf, the cursor's leaf holds the item at its position.
    pub proof fn lemma_current(&self)
        requires
            self.wf(),
            !self.fresh(),
        ensures
            0 <= self.position() < self.tree()@.len(),
            self.current() matches Some(c) && c@ == seq![self.tree()@[self.position()]],
    {
        let c = *self.curr.unwrap();
        lemma_path(*self.tree, self.ancestors@, c, self.ancestors@.len() as int);
        c.0.lemma_unfold();
        let o = self.position();
        assert(self.tree()@.subrange(o, o + 1) == c@);
        assert(c@ =~= seq![self.tree()@[o]]);
    }

    pub fn new(tree: &'a SumTree<T>) -> (r: Self)
        ensures
            r.tree() == *tree,
            r.fresh(),
            r.wf(),
    {
        Cursor { tree, ancestors: Vec::new(), curr: None }
    }

    /// Goes down the left spine from `from` to its leftmost leaf.
    fn goto_leftmost_leaf_from(&mut self, from: &'a SumTree<T>)
        requires
            path_ok(*old(self).tree, old(self).ancestors@, *from),
        ensures
            final(self).tree == old(self).tree,
            final(self).curr matches Some(c) && (*c.0) is Leaf,
            final(self).wf(),
            final(self).position() == offset(
                old(self).ancestors@,
                old(self).ancestors@.len() as int,
            ),
    {
        let ghost anc0 = self.ancestors@;
        let mut from = from;
        loop
            invariant
                self.tree == old(self).tree,
                anc0 == old(self).ancestors@,
                path_ok(*self.tree, self.ancestors@, *from),
                offset(self.ancestors@, self.ancestors@.len() as int) == offset(
                    anc0,
                    anc0.len() as int,
                ),
            decreases from.0.depth(),
        {
            match &*from.0 {
                Node::Leaf { .. } => {
                    self.curr = Some(from);
                    return ;
                },
                Node::Branch { left, .. } => {
                    proof {
                        lemma_path_push(*self.tree, self.ancestors@, from, false);
                        from.0.lemma_unfold();
                    }
                    self.ancestors.push((from, false));
                    from = left;
                },
            }
        }
    }

    /// Moves from the leaf `from` to the next leaf, or back before the first leaf after
    /// the last one.
    fn goto_next_leaf_from(&mut self, from: &'a SumTree<T>)
        requires
            old(self).wf(),
            old(self).curr == Some(from),
        ensures
            final(self).tree == old(self).tree,
            final(self).wf(),
            old(self).position() + 1 < old(self).tree()@.len() ==> final(self).curr is Some
                && final(self).position() == old(self).position() + 1,
            old(self).position() + 1 >= old(self).tree()@.len() ==> final(self).fresh(),
    {
        let ghost target = old(self).position() + 1;
        proof {
            from.0.lemma_unfold();
        }
        let mut from = from;
        while self.ancestors.len() > 0
            invariant
                self.tree == old(self).tree,
                path_ok(*self.tree, self.ancestors@, *from),
                offset(self.ancestors@, self.ancestors@.len() as int) + from@.len() == target,
                target == old(self).position() + 1,
            decreases self.ancestors.len(),
        {
            let i = self.ancestors.len() - 1;
            let (parent, went_right) = self.ancestors[i];
            proof {
                assert(self.ancestors@[i as int] == (parent, went_right));
                lemma_path_pop(*self.tree, self.ancestors@, *from);
                parent.0.lemma_unfold();
            }
            if !went_right {
                match &*parent.0 {
                    Node::Branch { right, .. } => {
                        let ghost anc = self.ancestors@;
                        self.ancestors.pop();
                        proof {
                            assert(self.ancestors@ == anc.drop_last());
                            lemma_path_push(*self.tree, self.ancestors@, parent, true);
                            assert(self.ancestors@.push((parent, true)) == anc.update(
                                i as int,
                                (parent, true),
                            ));
                        }
                        self.ancestors.push((parent, true));
                        self.goto_leftmost_leaf_from(right);
                        proof {
                            let s = self.ancestors@;
                            let c = *self.curr.unwrap();
                            lemma_path(*self.tree, s, c, s.len() as int);
                        }
                        return ;
                    },
                    Node::Leaf { .. } => {
                        proof {
                            assert(false);
                        }
                        return ;
                    },
                }
            } else {
                self.ancestors.pop();
                from = parent;
            }
        }
        self.curr = None;
    }

    /// Moves to the next leaf, or to the first from before the first.
    fn goto_next_leaf(&mut self)
        requires
            old(self).wf(),
        ensures
            final(self).tree == old(self).tree,
            final(self).wf(),
            ({
                let k = if old(self).fresh() {
                    0
                } else {
                    old(self).position() + 1
                };
                if k < old(self).tree()@.len() {
                    final(self).curr is Some && final(self).position() == k
                } else {
                    final(self).fresh()
                }
            }),
    {
        match self.curr {
            None => {
                proof {
                    self.tree.0.lemma_items_len();
                    assert(node_at(self.ancestors@, *self.tree, 0) == *self.tree);
                }
                self.goto_leftmost_leaf_from(self.tree);
            },
            Some(curr) => self.goto_next_leaf_from(curr),
        }
    }

    /// The next leaf, or `None` after the last one, when the cursor starts over.
    pub fn next(&mut self) -> (r: Option<&'a SumTree<T>>)
        requires
            old(self).wf(),
        ensures
            final(self).tree() == old(self).tree(),
            final(self).wf(),
            ({
                let k = if old(self).fresh() {
                    0
                } else {
                    old(self).position() + 1
                };
                if k < old(self).tree()@.len() {
                    &&& r matches Some(n) && (*n.0) is Leaf && n@ == seq![old(self).tree()@[k]]
                    &&& final(self).current() == Some(*r.unwrap())
                    &&& !final(self).fresh()
                    &&& path_ok(final(self).tree(), final(self).branches(), *r.unwrap())
                    &&& final(self).position() == k
                } else {
                    &&& r is None
                    &&& final(self).fresh()
                }
            }),
    {
        self.goto_next_leaf();
        proof {
            if self.curr is Some {
                self.lemma_current();
            }
        }
        self.curr
    }

    /// Steps from the branch `from` down to its left child.
    fn goto_next_left_node_from(&mut self, from: &'a SumTree<T>)
        requires
            old(self).curr == Some(from),
            (*from.0) is Branch,
            path_ok(*old(self).tree, old(self).ancestors@, *from),
        ensures
            final(self).tree == old(self).tree,
            final(self).curr matches Some(c) && *c == from.0.child(false),
            final(self).ancestors@ == old(self).ancestors@.push((from, false)),
            path_ok(*final(self).tree, final(self).ancestors@, from.0.child(false)),
            from.0.child(false).0.depth() < from.0.depth(),
    {
        match &*from.0 {
            Node::Branch { left, .. } => {
                proof {
                    lemma_path_push(*self.tree, self.ancestors@, from, false);
                    from.0.lemma_unfold();
                }
                self.ancestors.push((from, false));
                self.curr = Some(left);
            },
            Node::Leaf { .. } => {
                proof {
                    assert(false);
                }
            },
        }
    }

    /// Steps from the branch `from` down to its right child.
    fn goto_next_right_node_from(&mut self, from: &'a SumTree<T>)
        requires
            old(self).curr == Some(from),
            (*from.0) is Branch,
            path_ok(*old(self).tree, old(self).ancestors@, *from),
        ensures
            final(self).tree == old(self).tree,
            final(self).curr matches Some(c) && *c == from.0.child(true),
            final(self).ancestors@ == old(self).ancestors@.push((from, true)),
            path_ok(*final(self).tree, final(self).ancestors@, from.0.child(true)),
            from.0.child(true).0.depth() < from.0.depth(),
    {
        match &*from.0 {
            Node::Branch { right, .. } => {
                proof {
                    lemma_path_push(*self.tree, self.ancestors@, from, true);
                    from.0.lemma_unfold();
                }
                self.ancestors.push((from, true));
                self.curr = Some(right);
            },
            Node::Leaf { .. } => {
                proof {
                    assert(false);
                }
            },
        }
    }

    /// From before the first leaf, goes down from the root as `seek_fn` directs at each
    /// branch, and returns the leaf reached; at a leaf, stays there.
    pub fn seek<F: FnMut(&'a SumTree<T>) -> Direction>(&mut self, seek_fn: F) -> (r: Option<
        &'a SumTree<T>,
    >)
        requires
            old(self).wf(),
            forall|f: F, n: &'a SumTree<T>| call_requires(f, (n,)),
        ensures
            final(self).tree() == old(self).tree(),
            final(self).wf(),
            !final(self).fresh(),
            r matches Some(n) && final(self).current() == Some(*n) && (*n.0) is Leaf,
            !old(self).fresh() ==> *final(self) == *old(self),
            old(self).fresh() ==> {
                &&& path_ok(final(self).tree(), final(self).branches(), *r.unwrap())
                &&& forall|k: int|
                    #![trigger final(self).branches()[k]]
                    0 <= k < final(self).branches().len() ==> call_ensures(
                        seek_fn,
                        (final(self).branches()[k].0,),
                        direction_of(final(self).branches()[k].1),
                    )
            },
    {
        broadcast use vstd::function::group_function_axioms;
        let ghost f0 = seek_fn;
        let mut seek_fn = seek_fn;
        if self.curr.is_none() {
            proof {
                assert(node_at(self.ancestors@, *self.tree, 0) == *self.tree);
            }
            self.curr = Some(self.tree);
        }
        loop
            invariant
                self.tree == old(self).tree,
                old(self).wf(),
                forall|f: F, n: &'a SumTree<T>| call_requires(f, (n,)),
                self.curr matches Some(c) && path_ok(*self.tree, self.ancestors@, *c),
                !old(self).fresh() ==> *self == *old(self),
                seek_fn == f0,
                old(self).fresh() ==> forall|k: int|
                    #![trigger self.ancestors@[k]]
                    0 <= k < self.ancestors@.len() ==> call_ensures(
                        f0,
                        (self.ancestors@[k].0,),
                        direction_of(self.ancestors@[k].1),
                    ),
            ensures
                self.curr matches Some(c) && (*c.0) is Leaf,
            decreases self.curr.unwrap().0.depth(),
        {
            let next = match self.curr {
                Some(c) => c,
                None => {
                    proof {
                        assert(false);
                    }
                    break;
                },
            };
            match &*next.0 {
                Node::Leaf { .. } => break,
                Node::Branch { .. } => {
                    let d = seek_fn(next);
                    match d {
                        Direction::Left => self.goto_next_left_node_from(next),
                        Direction::Right => self.goto_next_right_node_from(next),
                    }
                },
            }
        }
        self.curr
    }

    /// The position the cursor is at, at the first leaf if it is before it.
    pub fn into_position(self) -> (r: CursorPosition<'a, T>)
        requires
            self.wf(),
        ensures
            r.wf(),
            r.root() == self.tree(),
            r.position() == if self.fresh() {
                0
            } else {
                self.position()
            },
    {
        let mut this = self;
        if this.curr.is_none() {
            proof {
                assert(node_at(this.ancestors@, *this.tree, 0) == *this.tree);
            }
            this.goto_leftmost_leaf_from(this.tree);
        }
        match this.curr {
            None => {
                proof {
                    assert(false);
                }
                CursorPosition::new(this.tree, this.ancestors)
            },
            Some(curr) => CursorPosition::new(curr, this.ancestors),
        }
    }

    /// Goes back before the first leaf.
    pub fn reset(&mut self)
        ensures
            final(self).tree() == old(self).tree(),
            final(self).fresh(),
            final(self).wf(),
    {
        self.ancestors.clear();
        self.curr = None;
    }
}

} // verus!

verus! {

/// A leaf of a tree together with the branches from the root down to it, each with the
/// side the path leaves it by.
pub struct CursorPosition<'a, T: Item> {
    ancestors: Vec<(&'a SumTree<T>, bool)>,
    curr: &'a SumTree<T>,
}

impl<'a, T: Item> CursorPosition<'a, T> {
    /// The root the path starts from.
    pub closed spec fn root(&self) -> SumTree<T> {
        node_at(self.ancestors@, *self.curr, 0)
    }

    /// The index of the leaf in the root's items.
    pub closed spec fn position(&self) -> int {
        offset(self.ancestors@, self.ancestors@.len() as int)
    }

    /// The path leads from the root down to the leaf.
    pub closed spec fn wf(&self) -> bool {
        &&& (*self.curr.0) is Leaf
        &&& path_ok(self.root(), self.ancestors@, *self.curr)
    }

    pub fn new(curr: &'a SumTree<T>, ancestors: Vec<(&'a SumTree<T>, bool)>) -> (r: Self)
        ensures
            r.root() == node_at(ancestors@, *curr, 0),
            r.position() == offset(ancestors@, ancestors@.len() as int),
            r.wf() == ((*curr.0) is Leaf && path_ok(node_at(ancestors@, *curr, 0), ancestors@, *curr)),
    {
        CursorPosition { ancestors, curr }
    }

    /// A tree with `item` inserted before the leaf.
    pub fn insert_left(self, item: T) -> (r: SumTree<T>)
        requires
            self.wf(),
        ensures
            r@ == self.root()@.insert(self.position(), item),
            self.root().0.wf() ==> r.0.wf(),
            !r.0.is_red(),
            self.root().0.rb() ==> r.0.rb(),
            combine_associative::<T::Summary>() && self.root().0.wf() ==> r.0.summary_of()
                == fold_summaries(r@),
    {
        let ghost it = item;
        let ghost g = self.position();
        let right = self.curr;
        let left = SumTree::new_leaf(item);
        let tree = SumTree::new_branch(Colour::Red, left, right.clone());
        proof {
            lemma_path(self.root(), self.ancestors@, *right, self.ancestors@.len() as int);
            right.0.lemma_unfold();
            tree.0.lemma_unfold();
            assert(tree@ =~= right@.insert(0, it));
        }
        let r = self.balance(right, tree, Ghost(g), Ghost(it));
        proof {
            if combine_associative::<T::Summary>() && self.root().0.wf() {
                law_summary_is_fold(r);
            }
        }
        r
    }

    /// A tree with `item` inserted after the leaf.
    pub fn insert_right(self, item: T) -> (r: SumTree<T>)
        requires
            self.wf(),
        ensures
            r@ == self.root()@.insert(self.position() + 1, item),
            self.root().0.wf() ==> r.0.wf(),
            !r.0.is_red(),
            self.root().0.rb() ==> r.0.rb(),
            combine_associative::<T::Summary>() && self.root().0.wf() ==> r.0.summary_of()
                == fold_summaries(r@),
    {
        let ghost it = item;
        let ghost g = self.position() + 1;
        let left = self.curr;
        let right = SumTree::new_leaf(item);
        let tree = SumTree::new_branch(Colour::Red, left.clone(), right);
        proof {
            lemma_path(self.root(), self.ancestors@, *left, self.ancestors@.len() as int);
            left.0.lemma_unfold();
            tree.0.lemma_unfold();
            assert(tree@ =~= left@.insert(1, it));
        }
        let r = self.balance(left, tree, Ghost(g), Ghost(it));
        proof {
            if combine_associative::<T::Summary>() && self.root().0.wf() {
                law_summary_is_fold(r);
            }
        }
        r
    }

    /// Puts `new` in place of the leaf `old` and rebuilds the branches above it,
    /// rebalancing on the way up, then blackens the root.
    fn balance(self, old: &'a SumTree<T>, new: SumTree<T>, Ghost(g): Ghost<int>, Ghost(item): Ghost<T>) -> (r: SumTree<T>)
        requires
            self.wf(),
            old == self.curr,
            0 <= g - self.position() <= old@.len(),
            new@ == old@.insert(g - self.position(), item),
            self.root().0.wf() ==> new.0.wf(),
            new.0.rb() && new.0.bh() == old.0.bh(),
        ensures
            r@ == self.root()@.insert(g, item),
            self.root().0.wf() ==> r.0.wf(),
            !r.0.is_red(),
            self.root().0.rb() ==> r.0.rb(),
    {
        let ghost root = self.root();
        let ghost anc0 = self.ancestors@;
        let ghost curr0 = *self.curr;
        let mut ancestors = self.ancestors;
        let mut old = old;
        let mut new = new;
        proof {
            old.0.lemma_unfold();
        }
        while ancestors.len() > 0
            invariant
                path_ok(root, anc0, curr0),
                ancestors.len() <= anc0.len(),
                ancestors@ == anc0.take(ancestors.len() as int),
                *old == node_at(anc0, curr0, ancestors.len() as int),
                0 <= g - offset(anc0, ancestors.len() as int) <= old@.len(),
                new@ == old@.insert(g - offset(anc0, ancestors.len() as int), item),
                root.0.wf() ==> new.0.wf(),
                old.0.bh_ok() ==> new.0.bh_ok() && new.0.bh() == old.0.bh(),
                old.0.rb() && !old.0.is_red() ==> new.0.rb() && new.0.bh() == old.0.bh(),
                old.0.rb() && old.0.is_red() ==> new.0.almost(old.0.bh()),
            decreases ancestors.len(),
        {
            let ghost k = ancestors.len() - 1;
            let (parent, went_right) = ancestors.pop().unwrap();
            proof {
                assert(anc0[k] == (parent, went_right));
                assert(*parent == node_at(anc0, curr0, k));
                lemma_path(root, anc0, curr0, k);
                lemma_path(root, anc0, curr0, k + 1);
                parent.0.lemma_unfold();
                assert(ancestors@ =~= anc0.take(k));
            }
            match &*parent.0 {
                Node::Branch { colour, left, right, .. } => {
                    proof {
                        left.0.lemma_unfold();
                        right.0.lemma_unfold();
                    }
                    if !went_right {
                        let ghost j = g - offset(anc0, k + 1);
                        let (t, _) = balance(*colour, new, right.clone());
                        proof {
                            assert(*old == *left);
                            assert(t@ =~= parent@.insert(j, item));
                        }
                        new = t;
                    } else {
                        let ghost j = g - offset(anc0, k + 1);
                        let (t, _) = balance(*colour, left.clone(), new);
                        proof {
                            assert(*old == *right);
                            assert(t@ =~= parent@.insert(left@.len() + j, item));
                        }
                        new = t;
                    }
                },
                Node::Leaf { .. } => {
                    proof {
                        assert(false);
                    }
                },
            }
            old = parent;
        }
        proof {
            assert(*old == root);
        }
        make_black(new)
    }
}

} // verus!
