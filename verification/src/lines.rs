//! Lines of bytes: where the line after a given number of terminators starts, found
//! within a leaf and across the tree.
use vstd::prelude::*;
use std::sync::Arc;

use crate::bytes::{count_nl, find_first, is_first_index, lemma_count_concat, lemma_count_le_len,
    lemma_count_single, lemma_count_zero_absent, newline};
use crate::nav::{descends, lemma_descends, leftmost_leaf, next_leaf, Parents};
use crate::tree::{lemma_total_concat, node_at, total, Node, NodeMetrics};

verus! {

/// Where the line that follows the `k`-th terminator of `s` starts: just after that
/// terminator, or at zero for the first line.
pub open spec fn line_start(s: Seq<u8>, k: nat) -> int
    decreases s.len(),
{
    if k == 0 {
        0
    } else if s.len() == 0 {
        0
    } else if count_nl(s.drop_last()) >= k {
        line_start(s.drop_last(), k)
    } else {
        s.len() as int
    }
}

pub proof fn lemma_line_start_left(a: Seq<u8>, b: Seq<u8>, k: nat)
    requires
        k <= count_nl(a),
    ensures
        line_start(a + b, k) == line_start(a, k),
    decreases b.len(),
{
    if b.len() == 0 {
        assert(a + b =~= a);
    } else if k > 0 {
        assert((a + b).drop_last() =~= a + b.drop_last());
        lemma_count_concat(a, b.drop_last(), newline());
        lemma_line_start_left(a, b.drop_last(), k);
    }
}

pub proof fn lemma_line_start_right(a: Seq<u8>, b: Seq<u8>, k: nat)
    requires
        count_nl(a) < k <= count_nl(a + b),
    ensures
        line_start(a + b, k) == a.len() + line_start(b, (k - count_nl(a)) as nat),
    decreases b.len(),
{
    lemma_count_concat(a, b, newline());
    if b.len() == 0 {
        assert(a + b =~= a);
    } else {
        assert((a + b).drop_last() =~= a + b.drop_last());
        lemma_count_concat(a, b.drop_last(), newline());
        if count_nl(a + b.drop_last()) >= k {
            lemma_line_start_right(a, b.drop_last(), k);
        }
    }
}

/// The line start lies within `s`, and the bytes before it hold exactly `k`
/// terminators, the last of them just before it.
pub proof fn lemma_line_start_bounds(s: Seq<u8>, k: nat)
    requires
        k <= count_nl(s),
    ensures
        0 <= line_start(s, k) <= s.len(),
        count_nl(s.take(line_start(s, k))) == k,
        k > 0 ==> s[line_start(s, k) - 1] == newline(),
    decreases s.len(),
{
    if k == 0 {
        assert(s.take(0) =~= Seq::<u8>::empty());
    } else if s.len() == 0 {
    } else if count_nl(s.drop_last()) >= k {
        lemma_line_start_bounds(s.drop_last(), k);
        let p = line_start(s.drop_last(), k);
        assert(s.take(p) =~= s.drop_last().take(p));
    } else {
        assert(s.take(s.len() as int) =~= s);
    }
}

/// The line start after `k` terminators is where the `k`-th terminator ends.
pub proof fn lemma_line_start_at(s: Seq<u8>, k: nat, p: int)
    requires
        0 < p <= s.len(),
        k > 0,
        s[p - 1] == newline(),
        count_nl(s.take(p)) == k,
    ensures
        line_start(s, k) == p,
{
    let a = s.take(p);
    let b = s.skip(p);
    assert(s =~= a + b);
    lemma_count_concat(a, b, newline());
    lemma_line_start_left(a, b, k);
    assert(a.drop_last() + seq![a.last()] =~= a);
    lemma_count_concat(a.drop_last(), seq![a.last()], newline());
    lemma_count_single(a.last(), newline());
}

/// Within the bytes of a leaf, where the line after its `k`-th terminator starts.
pub fn line_offset_in(bytes: &[u8], k: usize) -> (r: usize)
    requires
        0 < k <= count_nl(bytes@),
    ensures
        r == line_start(bytes@, k as nat),
{
    let mut p: usize = 0;
    let mut i: usize = 0;
    while i < k
        invariant
            i <= k,
            k <= count_nl(bytes@),
            p <= bytes@.len(),
            count_nl(bytes@.take(p as int)) == i,
            i > 0 ==> p > 0 && bytes@[p - 1] == newline(),
        decreases k - i,
    {
        let rest = vstd::slice::slice_subrange(bytes, p, bytes.len());
        proof {
            assert(bytes@ =~= bytes@.take(p as int) + rest@);
            lemma_count_concat(bytes@.take(p as int), rest@, newline());
        }
        match find_first(10u8, rest) {
            Some(j) => {
                proof {
                    let pre = rest@.take(j as int);
                    assert(rest@.take(j as int + 1) =~= pre + seq![newline()]);
                    lemma_count_zero_absent(pre, newline());
                    lemma_count_concat(pre, seq![newline()], newline());
                    lemma_count_single(newline(), newline());
                    assert(bytes@.take(p + j + 1) =~= bytes@.take(p as int) + rest@.take(j as int + 1));
                    lemma_count_concat(bytes@.take(p as int), rest@.take(j as int + 1), newline());
                }
                p = p + j + 1;
                i = i + 1;
            },
            None => {
                proof {
                    lemma_count_zero_absent(rest@, newline());
                    assert(false);
                }
                return p;
            },
        }
    }
    proof { lemma_line_start_at(bytes@, k as nat, p as int); }
    p
}

} // verus!

verus! {

/// Where the leaf that holds byte `p` starts, within the bytes beneath `t`.
pub open spec fn leaf_start_of(t: &Node, p: int) -> int
    decreases t,
{
    match t {
        Node::Branch { left, right, .. } => if p < left.size() {
            leaf_start_of(left, p)
        } else {
            left.size() + leaf_start_of(right, p - left.size())
        },
        _ => 0,
    }
}

/// Descends to the leaf that holds byte `offset` beneath `node`, with the metrics of
/// the bytes beneath `node` before that leaf; none past the end.
pub fn leaf_at_byte_offset(
    parents: &mut Parents,
    node: &Arc<Node>,
    offset: usize,
    Ghost(root): Ghost<Node>,
    Ghost(start): Ghost<int>,
) -> (r: (Option<(Arc<Node>, usize)>, NodeMetrics))
    requires
        root.wf(),
        descends(root, old(parents)@, **node, start),
    ensures
        offset < node.size() ==> (r.0 matches Some((leaf, o)) && {
            &&& *leaf is Leaf
            &&& o < leaf.size()
            &&& offset - o == leaf_start_of(&**node, offset as int)
            &&& descends(root, final(parents)@, *leaf, start + offset - o)
            &&& r.1.len == offset - o
            &&& r.1.num_lines == count_nl(node.contents().take(offset - o))
        }),
        offset >= node.size() ==> r.0 is None && r.1.len == 0 && r.1.num_lines == 0
            && final(parents)@ == old(parents)@,
{
    proof {
        lemma_descends(root, parents@, &**node, start);
        node.lemma_wf();
    }
    let mut cur: Arc<Node> = node.clone();
    let mut off: usize = offset;
    let mut cumlm = NodeMetrics::zero();
    let ghost mut s: int = 0;
    proof {
        assert(node.contents().take(0) =~= Seq::<u8>::empty());
        assert(node.contents().subrange(0, node.size() as int) =~= node.contents());
    }
    while off < cur.len()
        invariant
            root.wf(),
            node.wf(),
            cur.wf(),
            descends(root, parents@, *cur, start + s),
            off + s == offset,
            0 <= s,
            s + cur.size() <= node.size(),
            node.contents().subrange(s, s + cur.size()) == cur.contents(),
            node.contents().len() == node.size(),
            cumlm.len == s,
            cumlm.num_lines == count_nl(node.contents().take(s)),
            leaf_start_of(&**node, offset as int) == s + leaf_start_of(&*cur, off as int),
            offset >= node.size() ==> s == 0 && parents@ == old(parents)@,
            offset < node.size() ==> off < cur.size(),
        ensures
            offset < node.size() ==> off < cur.size() && *cur is Leaf,
            offset >= node.size() ==> s == 0 && parents@ == old(parents)@,
        decreases *cur,
    {
        proof {
            cur.lemma_wf();
            cur.lemma_unfold();
        }
        match &*cur {
            Node::Leaf { .. } => {
                break;
            },
            Node::Branch { left, right, .. } => {
                proof {
                    left.lemma_wf();
                    right.lemma_wf();
                }
                let ghost before = parents@;
                parents.push((cur.clone(), off >= left.len()));
                proof { assert(parents@.drop_last() =~= before); }
                if off < left.len() {
                    proof {
                        assert(node.contents().subrange(s, s + left.size()) =~= left.contents());
                    }
                    cur = left.clone();
                } else {
                    proof {
                        assert(node.contents().subrange(s, s + left.size()) =~= cur.contents().subrange(0, left.size() as int));
                        assert(cur.contents().subrange(0, left.size() as int) =~= left.contents());
                        assert(node.contents().take(s + left.size()) =~= node.contents().take(s)
                            + node.contents().subrange(s, s + left.size()));
                        assert(node.contents().take(s + left.size()) =~= node.contents().take(s)
                            + left.contents());
                        lemma_count_concat(node.contents().take(s), left.contents(), newline());
                        lemma_count_le_len(node.contents().take(s + left.size()), newline());
                        assert(cur.size() == left.size() + right.size());
                        assert(node.contents().subrange(s + left.size(), s + left.size()
                            + right.size()) =~= cur.contents().subrange(left.size() as int, cur.size() as int));
                        assert(cur.contents().subrange(left.size() as int, cur.size() as int) =~= right.contents());
                    }
                    cumlm = cumlm.plus(&left.metrics());
                    off = off - left.len();
                    proof { s = s + left.size(); }
                    cur = right.clone();
                }
            },
            Node::Empty => {
                break;
            },
        }
    }
    if offset < node.len() {
        (Some((cur, off)), cumlm)
    } else {
        (None, cumlm)
    }
}

} // verus!

verus! {

/// Descends to where the line after the `line`-th terminator beneath `node` starts: its
/// leaf and the offset in it, with the metrics of the bytes beneath `node` before that
/// leaf. A line that starts at the end of a leaf is found at the start of the next
/// leaf; none is found past the end of the tree, nor after the last terminator.
pub fn leaf_at_line_offset(
    parents: &mut Parents,
    node: &Arc<Node>,
    line: usize,
    Ghost(root): Ghost<Node>,
    Ghost(start): Ghost<int>,
) -> (r: (Option<(Arc<Node>, usize)>, NodeMetrics))
    requires
        root.wf(),
        descends(root, old(parents)@, **node, start),
    ensures
        line > count_nl(node.contents()) ==> r.0 is None && r.1.len == 0 && r.1.num_lines == 0,
        line <= count_nl(node.contents()) ==> ({
            let q = line_start(node.contents(), line as nat);
            match r.0 {
                Some((leaf, o)) => {
                    &&& *leaf is Leaf
                    &&& o < leaf.size()
                    &&& r.1.len + o == q
                    &&& descends(root, final(parents)@, *leaf, start + r.1.len)
                    &&& r.1.num_lines == count_nl(node.contents().take(r.1.len as int))
                },
                None => {
                    &&& r.1.len == q
                    &&& start + q == root.size()
                    &&& r.1.num_lines == count_nl(node.contents().take(q))
                },
            }
        }),
{
    proof {
        lemma_descends(root, parents@, &**node, start);
        node.lemma_wf();
        root.lemma_wf();
    }
    let mut cur: Arc<Node> = node.clone();
    let mut l: usize = line;
    let mut cumlm = NodeMetrics::zero();
    let ghost mut s: int = 0;
    proof {
        assert(node.contents().take(0) =~= Seq::<u8>::empty());
        assert(node.contents().subrange(0, node.size() as int) =~= node.contents());
    }
    while l <= cur.num_lines()
        invariant
            root.wf(),
            node.wf(),
            cur.wf(),
            descends(root, parents@, *cur, start + s),
            0 <= s,
            s + cur.size() <= node.size(),
            start + node.size() <= root.size(),
            node.contents().subrange(s, s + cur.size()) == cur.contents(),
            node.contents().len() == node.size(),
            cumlm.len == s,
            cumlm.num_lines == count_nl(node.contents().take(s)),
            line <= count_nl(node.contents()) ==> l <= count_nl(cur.contents()) && (l == line
                || l > 0) && line_start(node.contents(), line as nat) == s + line_start(
                cur.contents(),
                l as nat,
            ) && line == cumlm.num_lines + l,
            line > count_nl(node.contents()) ==> s == 0 && l == line && *cur == **node,
        decreases *cur,
    {
        proof {
            cur.lemma_wf();
            cur.lemma_unfold();
            lemma_descends(root, parents@, &*cur, start + s);
        }
        if l == 0 {
            if let Node::Empty = &*cur {
                return (None, cumlm);
            }
            let first = leftmost_leaf(parents, &cur, Ghost(root), Ghost(start + s));
            proof { lemma_descends(root, parents@, &*first.0, start + s); first.0.lemma_wf(); }
            return (Some(first), cumlm);
        }
        match &*cur {
            Node::Leaf { slab, metrics } => {
                let bytes = slab.as_bytes();
                let offset = line_offset_in(bytes, l);
                proof {
                    lemma_line_start_bounds(cur.contents(), l as nat);
                    assert(node.contents().take(s + offset) =~= node.contents().take(s)
                        + cur.contents().take(offset as int));
                    lemma_count_concat(node.contents().take(s), cur.contents().take(offset as int), newline());
                }
                if offset == bytes.len() {
                    proof {
                        assert(cur.contents().take(offset as int) =~= cur.contents());
                        lemma_count_le_len(node.contents().take(s + offset), newline());
                    }
                    cumlm = cumlm.plus(metrics);
                    let next = next_leaf(parents, &cur, Ghost(root), Ghost(start + s));
                    proof {
                        if let Some((nl, _)) = &next {
                            lemma_descends(root, parents@, &**nl, start + s + cur.size());
                            nl.lemma_wf();
                        }
                    }
                    return (next, cumlm);
                } else {
                    return (Some((cur.clone(), offset)), cumlm);
                }
            },
            Node::Branch { left, right, .. } => {
                proof {
                    left.lemma_wf();
                    right.lemma_wf();
                    assert(cur.size() == left.size() + right.size());
                    assert(node.contents().subrange(s, s + left.size()) =~= cur.contents().subrange(0, left.size() as int));
                    assert(cur.contents().subrange(0, left.size() as int) =~= left.contents());
                    assert(node.contents().subrange(s + left.size(), s + left.size()
                        + right.size()) =~= cur.contents().subrange(left.size() as int, cur.size() as int));
                    assert(cur.contents().subrange(left.size() as int, cur.size() as int) =~= right.contents());
                    lemma_count_concat(left.contents(), right.contents(), newline());
                }
                let ghost before = parents@;
                let go_right = l > left.num_lines();
                parents.push((cur.clone(), go_right));
                proof { assert(parents@.drop_last() =~= before); }
                if !go_right {
                    proof {
                        if line <= count_nl(node.contents()) {
                            lemma_line_start_left(left.contents(), right.contents(), l as nat);
                        }
                    }
                    cur = left.clone();
                } else {
                    proof {
                        assert(node.contents().take(s + left.size()) =~= node.contents().take(s)
                            + left.contents());
                        lemma_count_concat(node.contents().take(s), left.contents(), newline());
                        lemma_count_le_len(node.contents().take(s + left.size()), newline());
                        if line <= count_nl(node.contents()) {
                            lemma_line_start_right(left.contents(), right.contents(), l as nat);
                        }
                    }
                    cumlm = cumlm.plus(&left.metrics());
                    l = l - left.num_lines();
                    proof { s = s + left.size(); }
                    cur = right.clone();
                }
            },
            Node::Empty => {
                return (None, NodeMetrics::zero());
            },
        }
    }
    proof { cur.lemma_wf(); }
    (None, NodeMetrics::zero())
}

/// Where the line after the `k`-th terminator of the bytes beneath `root` starts.
pub fn line_start_offset(root: &Arc<Node>, k: usize) -> (r: usize)
    requires
        root.wf(),
        k <= count_nl(root.contents()),
    ensures
        r == line_start(root.contents(), k as nat),
{
    proof {
        root.lemma_wf();
        lemma_line_start_bounds(root.contents(), k as nat);
    }
    let mut parents: Parents = Vec::new();
    let (found, metrics) = leaf_at_line_offset(&mut parents, root, k, Ghost(node_at(root)), Ghost(0));
    match found {
        Some((_, o)) => metrics.len + o,
        None => metrics.len,
    }
}

/// The line of byte `offset` and where that line starts: the terminators counted are
/// those before the leaf that holds `offset`. At or past the end, line zero at zero.
pub fn line_at_offset(root: &Arc<Node>, offset: usize) -> (r: (usize, usize))
    requires
        root.wf(),
    ensures
        offset < root.size() ==> ({
            let l = count_nl(root.contents().take(leaf_start_of(&**root, offset as int)));
            r == (l as usize, line_start(root.contents(), l) as usize)
        }),
        offset >= root.size() ==> r == (0usize, 0usize),
{
    proof { root.lemma_wf(); }
    let mut parents: Parents = Vec::new();
    let (_, metrics) = leaf_at_byte_offset(&mut parents, root, offset, Ghost(node_at(root)), Ghost(0));
    parents.clear();
    let line = metrics.num_lines;
    proof {
        if offset < root.size() {
            let ls = leaf_start_of(&**root, offset as int);
            let c = root.contents();
            assert(c =~= c.take(ls) + c.skip(ls));
            lemma_count_concat(c.take(ls), c.skip(ls), newline());
            lemma_line_start_left(c.take(ls), c.skip(ls), line as nat);
            lemma_line_start_bounds(c.take(ls), line as nat);
        } else {
            assert(count_nl(root.contents()) >= 0);
        }
    }
    let (node, metrics) = leaf_at_line_offset(&mut parents, root, line, Ghost(node_at(root)), Ghost(0));
    if let Some((_, node_offset)) = node {
        (line, metrics.len + node_offset)
    } else {
        (0, 0)
    }
}

} // verus!

verus! {

/// The size of the leaf that holds byte `p`, beneath `t`.
pub open spec fn leaf_size_of(t: &Node, p: int) -> int
    decreases t,
{
    match t {
        Node::Branch { left, right, .. } => if p < left.size() {
            leaf_size_of(left, p)
        } else {
            leaf_size_of(right, p - left.size())
        },
        _ => t.size() as int,
    }
}

/// A node reached from the root places its leaves where the root does.
pub proof fn lemma_descends_leaf(root: Node, parents: Seq<(Arc<Node>, bool)>, n: &Node, s: int, p: int)
    requires
        root.wf(),
        descends(root, parents, *n, s),
        s <= p < s + n.size(),
    ensures
        leaf_start_of(&root, p) == s + leaf_start_of(n, p - s),
        leaf_size_of(&root, p) == leaf_size_of(n, p - s),
    decreases parents.len(),
{
    lemma_descends(root, parents, n, s);
    if parents.len() > 0 {
        let (par, went_right) = parents.last();
        let ps = s - crate::nav::child_offset(&*par, went_right);
        lemma_descends(root, parents.drop_last(), &*par, ps);
        par.lemma_unfold();
        lemma_descends_leaf(root, parents.drop_last(), &*par, ps, p);
    }
}

} // verus!

verus! {

/// Later lines start no earlier.
pub proof fn lemma_line_start_mono(s: Seq<u8>, k: nat)
    requires
        k + 1 <= count_nl(s),
    ensures
        line_start(s, k) < line_start(s, k + 1),
{
    lemma_line_start_bounds(s, k + 1);
    lemma_line_start_bounds(s, k);
    let p = line_start(s, k + 1);
    let a = s.take(p);
    let b = s.skip(p);
    assert(s =~= a + b);
    crate::bytes::lemma_count_concat(a, b, newline());
    lemma_line_start_left(a, b, k);
    lemma_line_start_bounds(a, k);
    if line_start(a, k) == p {
        assert(a.take(p) =~= a);
    }
}

} // verus!

verus! {

/// `q` holds the first terminator at or after `p` in `s`.
pub open spec fn first_nl_from(s: Seq<u8>, p: int, q: int) -> bool {
    &&& p <= q < s.len()
    &&& s[q] == newline()
    &&& forall|j: int| p <= j < q ==> s[j] != newline()
}

/// No terminator stands at or after `p` in `s`.
pub open spec fn no_nl_from(s: Seq<u8>, p: int) -> bool {
    forall|j: int| p <= j < s.len() ==> s[j] != newline()
}

/// Goes from byte `from_leaf_offset` of the leaf `from_leaf` to where the next line
/// starts, just after the first terminator at or after that byte: the leaf that holds
/// it and the offset in that leaf, with the metrics of the leaves passed over,
/// `from_leaf` among them. A line that starts at the end of a leaf is found at the
/// start of the next leaf; none is found after the last terminator of the tree, nor
/// where no terminator follows.
pub fn next_line(
    parents: &mut Parents,
    from_leaf: &Arc<Node>,
    from_leaf_offset: usize,
    Ghost(root): Ghost<Node>,
    Ghost(start): Ghost<int>,
) -> (r: (Option<(Arc<Node>, usize)>, NodeMetrics))
    requires
        root.wf(),
        **from_leaf is Leaf,
        descends(root, old(parents)@, **from_leaf, start),
        from_leaf_offset <= from_leaf.size(),
    ensures
        ({
            let t = root.contents();
            let p = start + from_leaf_offset;
            &&& start + r.1.len <= root.size()
            &&& r.1.num_lines == count_nl(t.subrange(start, start + r.1.len))
            &&& match r.0 {
                Some((leaf, o)) => {
                    &&& *leaf is Leaf
                    &&& o < leaf.size()
                    &&& descends(root, final(parents)@, *leaf, start + r.1.len)
                    &&& first_nl_from(t, p, start + r.1.len + o - 1)
                },
                None => {
                    &&& start + r.1.len == root.size()
                    &&& first_nl_from(t, p, root.size() - 1) || no_nl_from(t, p)
                },
            }
        }),
{
    let ghost t = root.contents();
    let ghost p = start + from_leaf_offset;
    proof {
        root.lemma_wf();
        lemma_descends(root, parents@, &**from_leaf, start);
        assert(t.subrange(start, start) =~= Seq::<u8>::empty());
    }
    let mut cur: Arc<Node> = from_leaf.clone();
    let mut off: usize = from_leaf_offset;
    let mut cumlm = NodeMetrics::zero();
    let ghost mut s: int = start;
    loop
        invariant
            root.wf(),
            t == root.contents(),
            t.len() == root.size(),
            p == start + from_leaf_offset,
            *cur is Leaf,
            descends(root, parents@, *cur, s),
            0 <= start <= s,
            off <= cur.size(),
            p <= s + off,
            s > start ==> off == 0,
            cumlm.len == s - start,
            cumlm.num_lines == count_nl(t.subrange(start, s)),
            forall|j: int| p <= j < s + off ==> t[j] != newline(),
        decreases root.size() - s,
    {
        proof {
            lemma_descends(root, parents@, &*cur, s);
            cur.lemma_wf();
            lemma_count_le_len(t.subrange(start, s + cur.size()), newline());
            assert(t.subrange(start, s + cur.size()) =~= t.subrange(start, s) + cur.contents());
            lemma_count_concat(t.subrange(start, s), cur.contents(), newline());
        }
        match &*cur {
            Node::Leaf { slab, metrics } => {
                let all = slab.as_bytes();
                let bytes = vstd::slice::slice_subrange(all, off, all.len());
                if metrics.num_lines > 0 {
                    if let Some(o) = find_first(10u8, bytes) {
                        proof {
                            assert forall|j: int| p <= j < s + off + o implies t[j] != newline() by {
                                if j >= s + off {
                                    assert(t[j] == bytes@[j - s - off]);
                                }
                            }
                            assert(t[s + off + o] == bytes@[o as int]);
                        }
                        if o == bytes.len() - 1 {
                            cumlm = cumlm.plus(metrics);
                            let ghost cur_size = cur.size() as int;
                            let next = next_leaf(parents, &cur, Ghost(root), Ghost(s));
                            proof {
                                if let Some((leaf, _)) = &next {
                                    lemma_descends(root, parents@, &**leaf, s + cur_size);
                                    leaf.lemma_wf();
                                }
                            }
                            return (next, cumlm);
                        } else {
                            return (Some((cur.clone(), off + o + 1)), cumlm);
                        }
                    }
                } else {
                    proof { lemma_count_zero_absent(slab@, newline()); }
                }
                proof {
                    assert forall|j: int| p <= j < s + cur.size() implies t[j] != newline() by {
                        if j >= s + off {
                            assert(t[j] == bytes@[j - s - off]);
                        }
                    }
                }
                cumlm = cumlm.plus(metrics);
                let ghost cur_size = cur.size() as int;
                match next_leaf(parents, &cur, Ghost(root), Ghost(s)) {
                    Some((leaf, _)) => {
                        proof {
                            lemma_descends(root, parents@, &*leaf, s + cur_size);
                            leaf.lemma_wf();
                            s = s + cur_size;
                        }
                        cur = leaf;
                        off = 0;
                    },
                    None => {
                        return (None, cumlm);
                    },
                }
            },
            _ => {
                proof { assert(false); }
                return (None, cumlm);
            },
        }
    }
}

} // verus!

verus! {

/// The leaf that holds byte `p` is one of the pieces: the `i`-th, which starts where
/// the pieces before it end.
pub proof fn lemma_leaf_piece(t: &Node, p: int) -> (i: int)
    requires
        t.wf(),
        0 <= p < t.size(),
    ensures
        0 <= i < t.pieces().len(),
        leaf_start_of(t, p) == total(t.pieces().take(i)),
        leaf_size_of(t, p) == t.pieces()[i].len(),
        total(t.pieces().take(i)) <= p < total(t.pieces().take(i)) + t.pieces()[i].len(),
    decreases t,
{
    t.lemma_unfold();
    t.lemma_pieces();
    match t {
        Node::Branch { left, right, .. } => {
            left.lemma_pieces();
            right.lemma_pieces();
            let lp = left.pieces();
            let rp = right.pieces();
            if p < left.size() {
                let i = lemma_leaf_piece(left, p);
                assert(t.pieces().take(i) =~= lp.take(i));
                assert(t.pieces()[i] == lp[i]);
                i
            } else {
                let j = lemma_leaf_piece(right, p - left.size());
                let i = lp.len() + j;
                assert(t.pieces().take(i) =~= lp + rp.take(j));
                lemma_total_concat(lp, rp.take(j));
                assert(t.pieces()[i] == rp[j]);
                i
            }
        },
        Node::Leaf { slab, .. } => {
            assert(t.pieces().take(0) =~= Seq::<Seq<u8>>::empty());
            assert(total(Seq::<Seq<u8>>::empty()) == 0);
            0
        },
        Node::Empty => {
            0
        },
    }
}

} // verus!
