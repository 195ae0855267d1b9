//! Persistent edits of a red-black tree of slabs: insertion with rebalancing, and
//! splitting and joining by black height.
use vstd::prelude::*;
use std::sync::Arc;

use crate::slab::Slab;
use crate::tree::{total, Node, NodeColour, NodeMetrics};
use crate::util::Bounds;

verus! {

impl Node {
    /// A red branch with a red child.
    pub open spec fn red_over_red(&self) -> bool {
        match self {
            Node::Branch { colour: NodeColour::Red, left, right, .. } => left.is_red()
                || right.is_red(),
            _ => false,
        }
    }
}

/// The node `make_black` and `balance` leave where they change nothing.
pub open spec fn plain_branch(colour: NodeColour, left: Arc<Node>, right: Arc<Node>) -> Node {
    Node::Branch {
        colour,
        left,
        right,
        metrics: NodeMetrics {
            len: (left.size() + right.size()) as usize,
            num_lines: (left.metrics_of().num_lines + right.metrics_of().num_lines) as usize,
        },
    }
}

/// Recolours a red root black.
pub fn make_black(node: Arc<Node>) -> (r: Arc<Node>)
    requires
        node.wf(),
    ensures
        r.wf(),
        r.contents() == node.contents(),
        r.size() == node.size(),
        (*r is Empty) == (*node is Empty),
        !r.is_red(),
        !node.is_red() ==> r == node,
        node.bh_ok() ==> r.bh_ok(),
        r.bh() == node.bh() + if node.is_red() { 1nat } else { 0nat },
        node.almost(node.bh()) ==> r.rb(),
        r.pieces() == node.pieces(),
{
    match &*node {
        Node::Branch { colour: NodeColour::Red, left, right, metrics } => Arc::new(
            Node::Branch {
                colour: NodeColour::Black,
                left: left.clone(),
                right: right.clone(),
                metrics: *metrics,
            },
        ),
        _ => node,
    }
}

/// A red branch over a black branch over `a` and `b` and a black branch over `c` and
/// `d`.
fn rotate(a: Arc<Node>, b: Arc<Node>, c: Arc<Node>, d: Arc<Node>) -> (t: Node)
    requires
        a.wf() && b.wf() && c.wf() && d.wf(),
        !(*a is Empty) && !(*b is Empty) && !(*c is Empty) && !(*d is Empty),
        a.size() + b.size() + c.size() + d.size() <= usize::MAX,
    ensures
        t.wf(),
        t.is_red(),
        t.contents() == a.contents() + b.contents() + c.contents() + d.contents(),
        t.pieces() == a.pieces() + b.pieces() + c.pieces() + d.pieces(),
        t.size() == a.size() + b.size() + c.size() + d.size(),
        a.bh_ok() && b.bh_ok() && c.bh_ok() && d.bh_ok() && a.bh() == b.bh() && b.bh() == c.bh()
            && c.bh() == d.bh() ==> t.bh_ok() && t.bh() == a.bh() + 1,
        a.rb() && b.rb() && c.rb() && d.rb() && a.bh() == b.bh() && b.bh() == c.bh() && c.bh()
            == d.bh() ==> t.rb(),
{
    let l = Node::new_branch(NodeColour::Black, a, b);
    let r = Node::new_branch(NodeColour::Black, c, d);
    proof {
        l.lemma_unfold();
        r.lemma_unfold();
        l.lemma_wf();
        r.lemma_wf();
    }
    let t = Node::new_branch(NodeColour::Red, Arc::new(l), Arc::new(r));
    proof {
        t.lemma_unfold();
    }
    assert(t.contents() =~= a.contents() + b.contents() + c.contents() + d.contents());
    assert(t.pieces() =~= a.pieces() + b.pieces() + c.pieces() + d.pieces());
    t
}

/// A branch of `colour` over `left` and `right`, where a black branch over a red
/// branch with a red child is rotated into a red branch over two black ones.
#[verifier::spinoff_prover]
#[verifier::rlimit(60)]
pub fn balance(colour: NodeColour, left: Arc<Node>, right: Arc<Node>) -> (r: (Node, bool))
    requires
        left.wf(),
        right.wf(),
        !(*left is Empty),
        !(*right is Empty),
        left.size() + right.size() <= usize::MAX,
    ensures
        r.0.wf(),
        r.0 is Branch,
        r.0.contents() == left.contents() + right.contents(),
        r.0.pieces() == left.pieces() + right.pieces(),
        r.0.size() == left.size() + right.size(),
        r.1 == (colour == NodeColour::Black && (left.red_over_red() || right.red_over_red())),
        !r.1 ==> r.0 == plain_branch(colour, left, right),
        r.1 ==> r.0.is_red(),
        left.bh_ok() && right.bh_ok() && left.bh() == right.bh() ==> r.0.bh_ok() && r.0.bh()
            == left.bh() + colour.height(),
        colour == NodeColour::Black && (left.almost(right.bh()) || left.red_pair(right.bh()))
            && right.rb() ==> r.0.rb(),
        colour == NodeColour::Black && (right.almost(left.bh()) || right.red_pair(left.bh()))
            && left.rb() ==> r.0.rb(),
{
    proof {
        left.lemma_wf();
        right.lemma_wf();
        left.lemma_unfold();
        right.lemma_unfold();
    }
    if colour == NodeColour::Red {
        return (Node::new_branch(colour, left, right), false);
    }
    if let Node::Branch { colour: NodeColour::Red, left: ll, right: lr, .. } = &*left {
        proof {
            ll.lemma_unfold();
            lr.lemma_unfold();
            ll.lemma_wf();
            lr.lemma_wf();
        }
        if let Node::Branch { colour: NodeColour::Red, left: a, right: b, .. } = &**ll {
            proof {
                assert(ll.wf());
                a.lemma_wf();
                b.lemma_wf();
            }
            let c = lr;
            let d = right;
            let t = rotate(a.clone(), b.clone(), c.clone(), d.clone());
            assert(t.contents() =~= left.contents() + right.contents());
            proof { lemma_groupings(a.pieces(), b.pieces(), c.pieces(), d.pieces()); }
            assert(t.pieces() == left.pieces() + right.pieces());
            return (t, true);
        } else if let Node::Branch { colour: NodeColour::Red, left: b, right: c, .. } = &**lr {
            proof {
                assert(lr.wf());
                b.lemma_wf();
                c.lemma_wf();
            }
            let a = ll;
            let d = right;
            let t = rotate(a.clone(), b.clone(), c.clone(), d.clone());
            assert(t.contents() =~= left.contents() + right.contents());
            proof { lemma_groupings(a.pieces(), b.pieces(), c.pieces(), d.pieces()); }
            assert(t.pieces() == left.pieces() + right.pieces());
            return (t, true);
        }
    }
    if let Node::Branch { colour: NodeColour::Red, left: rl, right: rr, .. } = &*right {
        proof {
            rl.lemma_unfold();
            rr.lemma_unfold();
            rl.lemma_wf();
            rr.lemma_wf();
        }
        if let Node::Branch { colour: NodeColour::Red, left: b, right: c, .. } = &**rl {
            proof {
                assert(rl.wf());
                b.lemma_wf();
                c.lemma_wf();
            }
            let a = left;
            let d = rr;
            let t = rotate(a.clone(), b.clone(), c.clone(), d.clone());
            assert(t.contents() =~= left.contents() + right.contents());
            proof { lemma_groupings(a.pieces(), b.pieces(), c.pieces(), d.pieces()); }
            assert(t.pieces() == left.pieces() + right.pieces());
            return (t, true);
        } else if let Node::Branch { colour: NodeColour::Red, left: c, right: d, .. } = &**rr {
            proof {
                assert(rr.wf());
                c.lemma_wf();
                d.lemma_wf();
            }
            let a = left;
            let b = rl.clone();
            let t = rotate(a.clone(), b.clone(), c.clone(), d.clone());
            assert(t.contents() =~= left.contents() + right.contents());
            proof { lemma_groupings(a.pieces(), b.pieces(), c.pieces(), d.pieces()); }
            assert(t.pieces() == left.pieces() + right.pieces());
            return (t, true);
        }
    }
    (Node::new_branch(colour, left, right), false)
}

} // verus!

verus! {

/// The pieces a piece `l` becomes with `t` put in at `k`: before it at its start, after
/// it at its end, and between its two parts elsewhere.
pub open spec fn split_piece(l: Seq<u8>, k: int, t: Seq<u8>) -> Seq<Seq<u8>> {
    if k == 0 {
        seq![t, l]
    } else if k == l.len() {
        seq![l, t]
    } else {
        seq![l.take(k), t, l.skip(k)]
    }
}

/// The pieces after `t` is put in at byte `o` of the pieces `ps`: the piece that holds
/// the byte is split, a byte at the start of a piece being held by that piece, and the
/// end by the last piece.
pub open spec fn pieces_insert(ps: Seq<Seq<u8>>, o: int, t: Seq<u8>) -> Seq<Seq<u8>>
    decreases ps.len(),
{
    if ps.len() == 0 {
        seq![t]
    } else if ps.len() == 1 {
        split_piece(ps[0], o, t)
    } else if o < ps[0].len() {
        split_piece(ps[0], o, t) + ps.drop_first()
    } else {
        seq![ps[0]] + pieces_insert(ps.drop_first(), o - ps[0].len(), t)
    }
}

/// Four runs of pieces concatenate to the same run however they are grouped.
pub proof fn lemma_groupings(a: Seq<Seq<u8>>, b: Seq<Seq<u8>>, c: Seq<Seq<u8>>, d: Seq<Seq<u8>>)
    ensures
        (a + (b + c)) + d == a + b + c + d,
        (a + b) + (c + d) == a + b + c + d,
        a + ((b + c) + d) == a + b + c + d,
        a + (b + (c + d)) == a + b + c + d,
{
    assert((a + (b + c)) + d =~= a + b + c + d);
    assert((a + b) + (c + d) =~= a + b + c + d);
    assert(a + ((b + c) + d) =~= a + b + c + d);
    assert(a + (b + (c + d)) =~= a + b + c + d);
}

/// A run of pieces has no negative length.
pub proof fn lemma_total_nonneg(ps: Seq<Seq<u8>>)
    ensures
        total(ps) >= 0,
    decreases ps.len(),
{
    if ps.len() > 0 {
        lemma_total_nonneg(ps.drop_first());
    }
}

/// An insertion within the first run of pieces leaves the second as it is.
pub proof fn lemma_pieces_insert_left(a: Seq<Seq<u8>>, b: Seq<Seq<u8>>, o: int, t: Seq<u8>)
    requires
        a.len() > 0,
        b.len() > 0,
        o < total(a),
    ensures
        pieces_insert(a + b, o, t) == pieces_insert(a, o, t) + b,
    decreases a.len(),
{
    assert((a + b).drop_first() =~= a.drop_first() + b);
    assert((a + b)[0] == a[0]);
    if a.len() == 1 {
        assert(a.drop_first() =~= Seq::<Seq<u8>>::empty());
        assert(total(a.drop_first()) == 0);
        assert(split_piece(a[0], o, t) + (a + b).drop_first() =~= split_piece(a[0], o, t) + b);
    } else if o < a[0].len() {
        assert(split_piece(a[0], o, t) + (a + b).drop_first() =~= (split_piece(a[0], o, t)
            + a.drop_first()) + b);
    } else {
        lemma_pieces_insert_left(a.drop_first(), b, o - a[0].len(), t);
        assert(seq![a[0]] + (pieces_insert(a.drop_first(), o - a[0].len(), t) + b) =~= (seq![
            a[0],
        ] + pieces_insert(a.drop_first(), o - a[0].len(), t)) + b);
    }
}

/// An insertion past the first run of pieces leaves that run as it is.
pub proof fn lemma_pieces_insert_right(a: Seq<Seq<u8>>, b: Seq<Seq<u8>>, o: int, t: Seq<u8>)
    requires
        a.len() > 0,
        b.len() > 0,
        o >= total(a),
        forall|i: int| 0 <= i < a.len() ==> #[trigger] a[i].len() > 0,
    ensures
        pieces_insert(a + b, o, t) == a + pieces_insert(b, o - total(a), t),
    decreases a.len(),
{
    assert((a + b).drop_first() =~= a.drop_first() + b);
    assert((a + b)[0] == a[0]);
    assert(a[0].len() > 0);
    assert(total(a) == a[0].len() + total(a.drop_first()));
    assert(total(a.drop_first()) >= 0) by {
        lemma_total_nonneg(a.drop_first());
    }
    assert(pieces_insert(a + b, o, t) == seq![a[0]] + pieces_insert(
        (a + b).drop_first(),
        o - a[0].len(),
        t,
    ));
    if a.len() == 1 {
        assert(a.drop_first() =~= Seq::<Seq<u8>>::empty());
        assert(total(a.drop_first()) == 0);
        assert(total(a) == a[0].len());
        assert((a + b).drop_first() =~= b);
        assert(seq![a[0]] =~= a);
        assert(seq![a[0]] + pieces_insert(b, o - a[0].len(), t) =~= a + pieces_insert(
            b,
            o - total(a),
            t,
        ));
    } else {
        assert forall|i: int| 0 <= i < a.drop_first().len() implies #[trigger] a.drop_first()[i].len()
            > 0 by {
            assert(a.drop_first()[i] == a[i + 1]);
        }
        lemma_pieces_insert_right(a.drop_first(), b, o - a[0].len(), t);
        assert(seq![a[0]] + (a.drop_first() + pieces_insert(b, o - a[0].len() - total(
            a.drop_first(),
        ), t)) =~= a + pieces_insert(b, o - total(a), t));
    }
}

/// Inserts `text` at `offset` beneath `node`, rebalancing on the way back up.
pub fn insert(node: &Arc<Node>, offset: usize, text: Slab) -> (r: Node)
    requires
        node.wf(),
        offset <= node.size(),
        text@.len() > 0,
        node.size() + text@.len() <= usize::MAX,
    ensures
        r.wf(),
        !(r is Empty),
        r.contents() == node.contents().take(offset as int) + text@ + node.contents().skip(
            offset as int,
        ),
        r.size() == node.size() + text@.len(),
        node.bh_ok() ==> r.bh_ok() && r.bh() == node.bh(),
        node.rb() && !node.is_red() ==> r.almost(node.bh()),
        node.rb() && node.is_red() ==> r.red_pair(node.bh()),
        r.pieces() == pieces_insert(node.pieces(), offset as int, text@),
    decreases node,
{
    proof {
        node.lemma_wf();
        node.lemma_unfold();
    }
    match &**node {
        Node::Empty => {
            let r = Node::new_leaf(text);
            assert(r.contents() =~= node.contents().take(offset as int) + text@
                + node.contents().skip(offset as int));
            assert(r.pieces() =~= pieces_insert(node.pieces(), offset as int, text@));
            r
        },
        Node::Leaf { slab, .. } => {
            assert(node.pieces() =~= seq![slab@]);
            if node.len() == 0 {
                let r = Node::new_leaf(text);
                assert(r.contents() =~= node.contents().take(offset as int) + text@
                    + node.contents().skip(offset as int));
                r
            } else if offset == 0 {
                let left = Arc::new(Node::new_leaf(text));
                let r = Node::new_branch(NodeColour::Red, left, node.clone());
                proof {
                    r.lemma_unfold();
                    assert(r.pieces() =~= seq![text@, slab@]);
                }
                assert(r.contents() =~= node.contents().take(offset as int) + text@
                    + node.contents().skip(offset as int));
                r
            } else if offset == node.len() {
                let right = Arc::new(Node::new_leaf(text));
                let r = Node::new_branch(NodeColour::Red, node.clone(), right);
                proof {
                    r.lemma_unfold();
                    assert(r.pieces() =~= seq![slab@, text@]);
                }
                assert(r.contents() =~= node.contents().take(offset as int) + text@
                    + node.contents().skip(offset as int));
                r
            } else {
                let left = Arc::new(Node::new_leaf(slab.substr(Bounds::range_to(offset))));
                let rl = Arc::new(Node::new_leaf(text));
                let rr = Arc::new(Node::new_leaf(slab.substr(Bounds::range_from(offset))));
                let rnode = Node::new_branch(NodeColour::Red, rl, rr);
                proof { rnode.lemma_unfold(); rnode.lemma_wf(); }
                let right = Arc::new(rnode);
                let r = Node::new_branch(NodeColour::Red, left, right);
                proof {
                    r.lemma_unfold();
                    assert(r.pieces() =~= seq![slab@.take(offset as int), text@, slab@.skip(offset as int)]);
                }
                assert(r.contents() =~= node.contents().take(offset as int) + text@
                    + node.contents().skip(offset as int));
                r
            }
        },
        Node::Branch { colour, left, right, .. } => {
            proof {
                left.lemma_wf();
                right.lemma_wf();
                left.lemma_unfold();
                right.lemma_unfold();
            }
            let left_len = left.len();
            proof {
                left.lemma_pieces();
                right.lemma_pieces();
            }
            if left_len > offset {
                let new_left = insert(left, offset, text);
                proof {
                    new_left.lemma_wf();
                    lemma_pieces_insert_left(left.pieces(), right.pieces(), offset as int, text@);
                }
                let (r, _) = balance(*colour, Arc::new(new_left), right.clone());
                assert(r.contents() =~= node.contents().take(offset as int) + text@
                    + node.contents().skip(offset as int));
                r
            } else {
                let offset2 = offset - left_len;
                let new_right = insert(right, offset2, text);
                proof {
                    new_right.lemma_wf();
                    lemma_pieces_insert_right(left.pieces(), right.pieces(), offset as int, text@);
                }
                let (r, _) = balance(*colour, left.clone(), Arc::new(new_right));
                assert(r.contents() =~= node.contents().take(offset as int) + text@
                    + node.contents().skip(offset as int));
                r
            }
        },
    }
}

} // verus!

verus! {

/// A tree together with its black height.
pub type NodeWithHeight = (Arc<Node>, usize);

/// A non-empty tree with consistent black heights, paired with its black height.
pub open spec fn height_ok(p: NodeWithHeight) -> bool {
    &&& p.0.wf()
    &&& !(*p.0 is Empty)
    &&& p.0.bh_ok()
    &&& p.1 == p.0.bh()
}

pub open spec fn opt_ok(p: Option<NodeWithHeight>) -> bool {
    match p {
        Some(q) => height_ok(q),
        None => true,
    }
}

/// An absent tree, or a red-black tree.
pub open spec fn opt_rb(p: Option<NodeWithHeight>) -> bool {
    match p {
        Some(q) => q.0.rb(),
        None => true,
    }
}

pub open spec fn opt_contents(p: Option<NodeWithHeight>) -> Seq<u8> {
    match p {
        Some(q) => q.0.contents(),
        None => Seq::empty(),
    }
}

/// Joins `left` and a tree `right` no taller than it, by descending the right spine of
/// `left` to the height of `right`.
pub fn join_right(left: NodeWithHeight, right: NodeWithHeight) -> (r: NodeWithHeight)
    requires
        height_ok(left),
        height_ok(right),
        left.1 >= right.1,
        left.0.size() + right.0.size() <= usize::MAX,
    ensures
        height_ok(r),
        r.1 == left.1,
        r.0.contents() == left.0.contents() + right.0.contents(),
        r.0.size() == left.0.size() + right.0.size(),
        left.0.rb() && right.0.rb() && !left.0.is_red() ==> r.0.almost(left.1 as nat),
        left.0.rb() && right.0.rb() && left.0.is_red() ==> r.0.red_pair(left.1 as nat),
        left.0.rb() && right.0.rb() && !left.0.is_red() && left.1 > right.1 ==> r.0.rb(),
        left.0.rb() && right.0.rb() && left.1 > right.1 ==> r.0.almost(left.1 as nat),
    decreases left.0,
{
    let (left, lheight) = left;
    let (right, rheight) = right;
    proof {
        left.lemma_wf();
        right.lemma_wf();
        left.lemma_unfold();
    }
    if lheight == rheight {
        if let Node::Branch { colour, .. } = &*left {
            if *colour == NodeColour::Black {
                let node = Node::new_branch(NodeColour::Red, left.clone(), right.clone());
                proof { node.lemma_unfold(); }
                return (Arc::new(node), lheight);
            }
        } else {
            let node = Node::new_branch(NodeColour::Red, left.clone(), right.clone());
            proof { node.lemma_unfold(); }
            return (Arc::new(node), lheight);
        }
    }
    match &*left {
        Node::Branch { colour, left: ll, right: lr, .. } => {
            proof {
                ll.lemma_wf();
                lr.lemma_wf();
            }
            let lrheight = lheight - (colour.black_height() as usize);
            let (jr, jrheight) = join_right((lr.clone(), lrheight), (right.clone(), rheight));
            proof { jr.lemma_wf(); }
            let (node, _) = balance(*colour, ll.clone(), jr);
            assert(node.contents() =~= left.contents() + right.contents());
            (Arc::new(node), jrheight + (colour.black_height() as usize))
        },
        _ => {
            proof { assert(false); }
            (left, lheight)
        },
    }
}

/// Joins a tree `left` no taller than `right` to `right`, by descending the left spine
/// of `right` to the height of `left`.
pub fn join_left(left: NodeWithHeight, right: NodeWithHeight) -> (r: NodeWithHeight)
    requires
        height_ok(left),
        height_ok(right),
        right.1 >= left.1,
        left.0.size() + right.0.size() <= usize::MAX,
    ensures
        height_ok(r),
        r.1 == right.1,
        r.0.contents() == left.0.contents() + right.0.contents(),
        r.0.size() == left.0.size() + right.0.size(),
        left.0.rb() && right.0.rb() && !right.0.is_red() ==> r.0.almost(right.1 as nat),
        left.0.rb() && right.0.rb() && right.0.is_red() ==> r.0.red_pair(right.1 as nat),
        left.0.rb() && right.0.rb() && !right.0.is_red() && right.1 > left.1 ==> r.0.rb(),
        left.0.rb() && right.0.rb() && right.1 > left.1 ==> r.0.almost(right.1 as nat),
    decreases right.0,
{
    let (left, lheight) = left;
    let (right, rheight) = right;
    proof {
        left.lemma_wf();
        right.lemma_wf();
        right.lemma_unfold();
    }
    if lheight == rheight {
        if let Node::Branch { colour, .. } = &*right {
            if *colour == NodeColour::Black {
                let (node, _) = balance(NodeColour::Red, left.clone(), right.clone());
                proof { node.lemma_unfold(); }
                return (Arc::new(node), lheight);
            }
        } else {
            let (node, _) = balance(NodeColour::Red, left.clone(), right.clone());
            proof { node.lemma_unfold(); }
            return (Arc::new(node), lheight);
        }
    }
    match &*right {
        Node::Branch { colour, left: rl, right: rr, .. } => {
            proof {
                rl.lemma_wf();
                rr.lemma_wf();
            }
            let rlheight = rheight - (colour.black_height() as usize);
            let (jl, jlheight) = join_left((left.clone(), lheight), (rl.clone(), rlheight));
            proof { jl.lemma_wf(); }
            let (node, _) = balance(*colour, jl, rr.clone());
            assert(node.contents() =~= left.contents() + right.contents());
            (Arc::new(node), jlheight + (colour.black_height() as usize))
        },
        _ => {
            proof { assert(false); }
            (right, rheight)
        },
    }
}

} // verus!

verus! {

/// Makes a red root black, raising its black height by one.
fn blacken(p: Option<NodeWithHeight>) -> (r: Option<NodeWithHeight>)
    requires
        opt_ok(p),
    ensures
        opt_ok(r),
        opt_contents(r) == opt_contents(p),
        r is None <==> p is None,
        r matches Some(q) ==> !q.0.is_red(),
        p matches Some(q) ==> (q.0.almost(q.1 as nat) ==> (r matches Some(t) && t.0.rb())),
{
    match p {
        Some((node, height)) => {
            proof { node.lemma_wf(); }
            if node.colour() == NodeColour::Red {
                let b = make_black(node);
                proof { b.lemma_wf(); }
                Some((b, height + 1))
            } else {
                Some((node, height))
            }
        },
        None => None,
    }
}

/// Joins two optional trees into one, which is absent only when both are.
pub fn join(maybe_left: Option<NodeWithHeight>, maybe_right: Option<NodeWithHeight>) -> (r:
    Option<NodeWithHeight>)
    requires
        opt_ok(maybe_left),
        opt_ok(maybe_right),
        opt_contents(maybe_left).len() + opt_contents(maybe_right).len() <= usize::MAX,
    ensures
        opt_ok(r),
        opt_contents(r) == opt_contents(maybe_left) + opt_contents(maybe_right),
        r is None <==> (maybe_left is None && maybe_right is None),
        r matches Some(q) ==> !q.0.is_red(),
        opt_rb(maybe_left) && opt_rb(maybe_right) ==> opt_rb(r),
{
    let joined = match (maybe_left, maybe_right) {
        (None, None) => None,
        (None, Some(right)) => {
            assert(opt_contents(maybe_left) + opt_contents(maybe_right) =~= right.0.contents());
            Some(right)
        },
        (Some(left), None) => {
            assert(opt_contents(maybe_left) + opt_contents(maybe_right) =~= left.0.contents());
            Some(left)
        },
        (Some((left, lheight)), Some((right, rheight))) => {
            proof {
                left.lemma_wf();
                right.lemma_wf();
            }
            if rheight > lheight {
                Some(join_left((left, lheight), (right, rheight)))
            } else if rheight < lheight {
                Some(join_right((left, lheight), (right, rheight)))
            } else {
                let colour = if left.colour() == NodeColour::Black && right.colour()
                    == NodeColour::Black {
                    NodeColour::Red
                } else {
                    NodeColour::Black
                };
                let node = Node::new_branch(colour, left, right);
                proof {
                    node.lemma_unfold();
                    node.lemma_wf();
                }
                Some((Arc::new(node), lheight + (colour.black_height() as usize)))
            }
        },
    };
    blacken(joined)
}

/// Splits the bytes beneath `node` at `at`, with the black height of `node`.
#[verifier::spinoff_prover]
#[verifier::rlimit(40)]
pub fn split_recurse(node: &Node, at: usize) -> (r: (
    Option<NodeWithHeight>,
    Option<NodeWithHeight>,
    usize,
))
    requires
        node.wf(),
        node.bh_ok(),
        at <= node.size(),
    ensures
        opt_ok(r.0),
        opt_ok(r.1),
        opt_contents(r.0) == node.contents().take(at as int),
        opt_contents(r.1) == node.contents().skip(at as int),
        r.0 is None <==> at == 0,
        r.1 is None <==> at == node.size(),
        r.2 == node.bh(),
        node.rb() ==> opt_rb(r.0) && opt_rb(r.1),
    decreases node,
{
    proof {
        node.lemma_wf();
        node.lemma_unfold();
    }
    match node {
        Node::Empty => (None, None, 0),
        Node::Leaf { slab, .. } => {
            let split_left = if at == 0 {
                None
            } else {
                let leaf = Node::new_leaf(slab.substr(Bounds::range_to(at)));
                assert(leaf.contents() =~= node.contents().take(at as int));
                Some((Arc::new(leaf), 0))
            };
            let split_right = if at == slab.len() {
                assert(node.contents().skip(at as int) =~= Seq::<u8>::empty());
                None
            } else {
                let leaf = Node::new_leaf(slab.substr(Bounds::range_from(at)));
                assert(leaf.contents() =~= node.contents().skip(at as int));
                Some((Arc::new(leaf), 0))
            };
            proof {
                if at == 0 {
                    assert(node.contents().take(0) =~= Seq::<u8>::empty());
                }
            }
            (split_left, split_right, 0)
        },
        Node::Branch { colour, left, right, .. } => {
            proof {
                left.lemma_wf();
                right.lemma_wf();
            }
            if at <= left.len() {
                let (split_left, split_right, lheight) = split_recurse(left, at);
                let join_right = Some((right.clone(), lheight));
                let split_right = join(split_right, join_right);
                let height = lheight + (colour.black_height() as usize);
                assert(opt_contents(split_right) =~= node.contents().skip(at as int));
                assert(opt_contents(split_left) =~= node.contents().take(at as int));
                (split_left, split_right, height)
            } else {
                let (split_left, split_right, rheight) = split_recurse(right, at - left.len());
                let join_left = Some((left.clone(), rheight));
                let split_left = join(join_left, split_left);
                let height = rheight + (colour.black_height() as usize);
                assert(opt_contents(split_left) =~= node.contents().take(at as int));
                assert(opt_contents(split_right) =~= node.contents().skip(at as int));
                (split_left, split_right, height)
            }
        },
    }
}

/// Splits the bytes beneath `node` at `at` into two trees with black roots.
pub fn split(node: &Node, at: usize) -> (r: (Option<NodeWithHeight>, Option<NodeWithHeight>))
    requires
        node.wf(),
        node.bh_ok(),
        at <= node.size(),
    ensures
        opt_ok(r.0),
        opt_ok(r.1),
        opt_contents(r.0) == node.contents().take(at as int),
        opt_contents(r.1) == node.contents().skip(at as int),
        r.0 is None <==> at == 0,
        r.1 is None <==> at == node.size(),
        r.0 matches Some(q) ==> !q.0.is_red(),
        r.1 matches Some(q) ==> !q.0.is_red(),
        node.rb() ==> opt_rb(r.0) && opt_rb(r.1),
{
    let (left, right, _) = split_recurse(node, at);
    (blacken(left), blacken(right))
}

} // verus!
