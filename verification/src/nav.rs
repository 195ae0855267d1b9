//! Walking a rope's tree: paths from the root to a leaf, and the leaves before and
//! after a given one.
use vstd::prelude::*;
use std::sync::Arc;

use crate::tree::{Node, NodeMetrics};

verus! {

/// The ancestors of a node, each with whether the path goes on to its right child.
pub type Parents = Vec<(Arc<Node>, bool)>;

/// `node` is reached from `root` by the branches in `parents`, and its bytes start at
/// `start` within those of `root`.
pub open spec fn descends(root: Node, parents: Seq<(Arc<Node>, bool)>, node: Node, start: int) -> bool
    decreases parents.len(),
{
    if parents.len() == 0 {
        node == root && start == 0
    } else {
        let (p, went_right) = parents.last();
        match *p {
            Node::Branch { left, right, .. } => {
                &&& node == (if went_right { *right } else { *left })
                &&& descends(
                    root,
                    parents.drop_last(),
                    *p,
                    start - if went_right { left.size() as int } else { 0 },
                )
            },
            _ => false,
        }
    }
}

/// Where the child on the given side of `p` starts, counted from where `p` starts.
pub open spec fn child_offset(p: &Node, went_right: bool) -> int {
    match p {
        Node::Branch { left, .. } => if went_right { left.size() as int } else { 0 },
        _ => 0,
    }
}

pub proof fn lemma_descends(root: Node, parents: Seq<(Arc<Node>, bool)>, node: &Node, start: int)
    requires
        root.wf(),
        descends(root, parents, *node, start),
    ensures
        node.wf(),
        parents.len() > 0 ==> !(node is Empty),
        0 <= start,
        start + node.size() <= root.size(),
        node.contents() == root.contents().subrange(start, start + node.size()),
        node.bh_ok() || !root.bh_ok(),
    decreases parents.len(),
{
    root.lemma_wf();
    if parents.len() > 0 {
        let (p, went_right) = parents.last();
        let pstart = start - child_offset(&*p, went_right);
        lemma_descends(root, parents.drop_last(), &*p, pstart);
        p.lemma_unfold();
        p.lemma_wf();
        node.lemma_wf();
        match &*p {
            Node::Branch { left, right, .. } => {
                left.lemma_wf();
                right.lemma_wf();
                assert(p.contents() == left.contents() + right.contents());
                if went_right {
                    assert(node.contents() =~= p.contents().subrange(
                        left.size() as int,
                        p.size() as int,
                    ));
                    assert(p.contents().subrange(left.size() as int, p.size() as int)
                        =~= root.contents().subrange(start, start + node.size()));
                } else {
                    assert(node.contents() =~= root.contents().subrange(start, start + node.size()));
                }
            },
            _ => {},
        }
    } else {
        assert(root.contents().subrange(0, root.size() as int) =~= root.contents());
    }
}

/// Descends to the leftmost leaf beneath `from_node`.
pub fn leftmost_leaf(
    parents: &mut Parents,
    from_node: &Arc<Node>,
    Ghost(root): Ghost<Node>,
    Ghost(start): Ghost<int>,
) -> (r: (Arc<Node>, usize))
    requires
        root.wf(),
        descends(root, old(parents)@, **from_node, start),
        !(**from_node is Empty),
    ensures
        *r.0 is Leaf,
        r.1 == 0,
        descends(root, final(parents)@, *r.0, start),
        final(parents)@.len() >= old(parents)@.len(),
        final(parents)@.subrange(0, old(parents)@.len() as int) == old(parents)@,
{
    let mut node: Arc<Node> = from_node.clone();
    let ghost orig = parents@;
    loop
        invariant
            root.wf(),
            descends(root, parents@, *node, start),
            !(*node is Empty),
            parents@.len() >= orig.len(),
            parents@.subrange(0, orig.len() as int) == orig,
            orig == old(parents)@,
        decreases *node,
    {
        proof { lemma_descends(root, parents@, &*node, start); }
        match &*node {
            Node::Leaf { .. } => {
                return (node, 0);
            },
            Node::Branch { left, .. } => {
                let next = left.clone();
                proof { node.lemma_unfold(); }
                let ghost before = parents@;
                parents.push((node.clone(), false));
                proof {
                    assert(parents@.drop_last() =~= before);
                    assert(parents@.drop_last() =~= old(parents)@.subrange(0, 0) + parents@.drop_last());
                    assert(parents@.subrange(0, orig.len() as int) =~= orig);
                }
                node = next;
            },
            Node::Empty => {
                proof { assert(false); }
                return (node, 0);
            },
        }
    }
}

/// Descends to the rightmost leaf beneath `from_node`, and the offset of its end.
pub fn rightmost_leaf(
    parents: &mut Parents,
    from_node: &Arc<Node>,
    Ghost(root): Ghost<Node>,
    Ghost(start): Ghost<int>,
) -> (r: (Arc<Node>, usize))
    requires
        root.wf(),
        descends(root, old(parents)@, **from_node, start),
        !(**from_node is Empty),
    ensures
        *r.0 is Leaf,
        r.1 == r.0.size(),
        descends(root, final(parents)@, *r.0, start + from_node.size() - r.0.size()),
        final(parents)@.len() >= old(parents)@.len(),
        final(parents)@.subrange(0, old(parents)@.len() as int) == old(parents)@,
{
    let mut node: Arc<Node> = from_node.clone();
    let ghost orig = parents@;
    let ghost mut s: int = start;
    loop
        invariant
            root.wf(),
            descends(root, parents@, *node, s),
            s + node.size() == start + from_node.size(),
            !(*node is Empty),
            parents@.len() >= orig.len(),
            parents@.subrange(0, orig.len() as int) == orig,
            orig == old(parents)@,
        decreases *node,
    {
        proof { lemma_descends(root, parents@, &*node, s); }
        match &*node {
            Node::Leaf { metrics, .. } => {
                return (node.clone(), metrics.len);
            },
            Node::Branch { left, right, .. } => {
                let next = right.clone();
                proof {
                    node.lemma_unfold();
                    node.lemma_wf();
                    left.lemma_wf();
                }
                let ghost before = parents@;
                parents.push((node.clone(), true));
                proof {
                    assert(parents@.drop_last() =~= before);
                    assert(parents@.subrange(0, orig.len() as int) =~= orig);
                    s = s + left.size();
                }
                node = next;
            },
            Node::Empty => {
                proof { assert(false); }
                return (node.clone(), 0);
            },
        }
    }
}

/// The leaf after `from_leaf`, at offset zero; none after the last leaf.
pub fn next_leaf(
    parents: &mut Parents,
    from_leaf: &Arc<Node>,
    Ghost(root): Ghost<Node>,
    Ghost(start): Ghost<int>,
) -> (r: Option<(Arc<Node>, usize)>)
    requires
        root.wf(),
        descends(root, old(parents)@, **from_leaf, start),
    ensures
        match r {
            Some((leaf, offset)) => {
                &&& *leaf is Leaf
                &&& offset == 0
                &&& descends(root, final(parents)@, *leaf, start + from_leaf.size())
            },
            None => {
                &&& start + from_leaf.size() == root.size()
                &&& final(parents)@.len() == 0
            },
        },
{
    let mut node: Arc<Node> = from_leaf.clone();
    let ghost mut s: int = start;
    while parents.len() > 0
        invariant
            root.wf(),
            descends(root, parents@, *node, s),
            s + node.size() == start + from_leaf.size(),
        decreases parents@.len(),
    {
        let (parent, went_right) = parents.pop().unwrap();
        proof {
            lemma_descends(root, parents@, &*parent, s - child_offset(&*parent, went_right));
            parent.lemma_wf();
        }
        match &*parent {
            Node::Branch { left, right, .. } => {
                proof {
                    left.lemma_wf();
                    right.lemma_wf();
                }
                if !went_right {
                    let ghost before = parents@;
                    parents.push((parent.clone(), true));
                    proof { assert(parents@.drop_last() =~= before); }
                    let r = leftmost_leaf(parents, right, Ghost(root), Ghost(s + node.size()));
                    return Some(r);
                } else {
                    proof { s = s - left.size(); }
                    node = parent.clone();
                }
            },
            _ => {
                proof { assert(false); }
                return None;
            },
        }
    }
    proof { lemma_descends(root, parents@, &*node, s); }
    None
}

/// The leaf before `from_leaf`, at the offset of its end; none before the first leaf.
pub fn prev_leaf(
    parents: &mut Parents,
    from_leaf: &Arc<Node>,
    Ghost(root): Ghost<Node>,
    Ghost(start): Ghost<int>,
) -> (r: Option<(Arc<Node>, usize)>)
    requires
        root.wf(),
        descends(root, old(parents)@, **from_leaf, start),
    ensures
        match r {
            Some((leaf, offset)) => {
                &&& *leaf is Leaf
                &&& offset == leaf.size()
                &&& descends(root, final(parents)@, *leaf, start - leaf.size())
            },
            None => {
                &&& start == 0
                &&& final(parents)@.len() == 0
            },
        },
{
    let mut node: Arc<Node> = from_leaf.clone();
    let ghost mut s: int = start;
    while parents.len() > 0
        invariant
            root.wf(),
            descends(root, parents@, *node, s),
            s == start,
        decreases parents@.len(),
    {
        let (parent, went_right) = parents.pop().unwrap();
        proof {
            lemma_descends(root, parents@, &*parent, s - child_offset(&*parent, went_right));
            parent.lemma_wf();
        }
        match &*parent {
            Node::Branch { left, right, .. } => {
                proof {
                    left.lemma_wf();
                    right.lemma_wf();
                }
                if went_right {
                    let ghost before = parents@;
                    parents.push((parent.clone(), false));
                    proof { assert(parents@.drop_last() =~= before); }
                    let ghost lstart = s - left.size();
                    let r = rightmost_leaf(parents, left, Ghost(root), Ghost(lstart));
                    return Some(r);
                } else {
                    node = parent.clone();
                }
            },
            _ => {
                proof { assert(false); }
                return None;
            },
        }
    }
    proof { lemma_descends(root, parents@, &*node, s); }
    None
}

} // verus!
