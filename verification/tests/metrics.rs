use toku::metrics::{Metrics, Stats};
use toku::point::Point;
use toku::slab::SlabAllocator;

fn stats(len: usize, line: usize, column: usize, first: usize, last: usize) -> Stats {
    Stats { len, lines: Point { line, column }, len_first_line: first, len_last_line: last }
}

#[test]
fn slab_summaries() {
    let mut alloc = SlabAllocator::new();
    let (slab, _) = alloc.append(b"ab\ncde\nf");
    let m = slab.summary();
    assert_eq!(m.stats, stats(8, 2, 1, 2, 1));
    assert_eq!(m.left, None);
    let (slab, _) = alloc.append(b"abc");
    // without a line terminator the first line counts as empty
    assert_eq!(slab.summary().stats, stats(3, 0, 3, 0, 3));
    let (slab, _) = alloc.append(b"\n");
    assert_eq!(slab.summary().stats, stats(1, 1, 0, 0, 0));
}

#[test]
fn combining_and_scanning() {
    let a = Metrics { stats: stats(8, 2, 1, 2, 1), left: None };
    let b = Metrics { stats: stats(3, 0, 3, 0, 3), left: None };
    let ab = a.combine(&b);
    assert_eq!(ab.stats, stats(11, 2, 4, 2, 4));
    assert_eq!(ab.left, Some(a.stats));
    let ba = b.combine(&a);
    assert_eq!(ba.stats, stats(11, 2, 1, 5, 1));

    let mut acc = Metrics { stats: stats(0, 0, 0, 0, 0), left: None };
    acc.scan_leaf(&b);
    assert_eq!(acc.stats, stats(3, 0, 3, 0, 3));
    acc.scan_branch(&ab);
    assert_eq!(acc.stats, stats(11, 2, 1, 2, 3));
}
