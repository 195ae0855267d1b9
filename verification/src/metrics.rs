//! What a run of text measures: its length, its lines, and the lengths of its first and
//! last lines; measured for a slab, combined across adjacent runs, and added up by a
//! scan from the left.
use vstd::prelude::*;

use crate::bytes::{count_nl, lemma_count_concat, lemma_count_single, newline};
use crate::point::Point;
use crate::slab::Slab;

verus! {

/// The measures of a run of text: its length; the number of line terminators and the
/// length of the part after the last one; and the lengths of its first and last lines.
#[derive(Debug, Clone, Copy, PartialEq, Eq, Structural)]
pub struct Stats {
    pub len: usize,
    pub lines: Point,
    pub len_first_line: usize,
    pub len_last_line: usize,
}

/// The measures of a run, and of the run to its left where it was combined from two.
#[derive(Debug, Clone, Copy, PartialEq, Eq, Structural)]
pub struct Metrics {
    pub stats: Stats,
    pub left: Option<Stats>,
}

/// The number of bytes after the last line terminator of `s`.
pub open spec fn last_line_len(s: Seq<u8>) -> nat
    decreases s.len(),
{
    if s.len() == 0 {
        0
    } else if s.last() == newline() {
        0
    } else {
        last_line_len(s.drop_last()) + 1
    }
}

/// The lengths of the lines of `s` that end in a line terminator, the terminator left
/// out.
pub open spec fn line_lens(s: Seq<u8>) -> Seq<nat>
    decreases s.len(),
{
    if s.len() == 0 {
        Seq::empty()
    } else if s.last() == newline() {
        line_lens(s.drop_last()).push(last_line_len(s.drop_last()))
    } else {
        line_lens(s.drop_last())
    }
}

pub proof fn lemma_line_lens(s: Seq<u8>)
    ensures
        line_lens(s).len() == count_nl(s),
        last_line_len(s) <= s.len(),
        forall|i: int| 0 <= i < line_lens(s).len() ==> #[trigger] line_lens(s)[i] < s.len(),
    decreases s.len(),
{
    if s.len() > 0 {
        lemma_line_lens(s.drop_last());
        let l = line_lens(s.drop_last());
        if s.last() == newline() {
            assert forall|i: int| 0 <= i < line_lens(s).len() implies #[trigger] line_lens(s)[i]
                < s.len() by {
                if i < l.len() {
                    assert(line_lens(s)[i] == l[i]);
                }
            }
        }
    }
}

/// The measures of the bytes `s`: the first line is measured where it ends in a
/// terminator, and counts as empty where none ends it.
pub open spec fn stats_of(s: Seq<u8>) -> Stats {
    Stats {
        len: s.len() as usize,
        lines: Point { line: count_nl(s) as usize, column: last_line_len(s) as usize },
        len_first_line: if line_lens(s).len() > 0 {
            line_lens(s)[0] as usize
        } else {
            0
        },
        len_last_line: last_line_len(s) as usize,
    }
}

/// The measures of `a` followed by `b`, as a branch combines the measures of its
/// children.
pub open spec fn combined(a: Stats, b: Stats) -> Stats {
    if b.lines.line == 0 {
        Stats {
            len: (a.len + b.len) as usize,
            lines: Point {
                line: a.lines.line,
                column: (a.lines.column + b.lines.column) as usize,
            },
            len_first_line: a.len_first_line,
            len_last_line: (a.len_last_line + b.len_last_line) as usize,
        }
    } else {
        Stats {
            len: (a.len + b.len) as usize,
            lines: Point {
                line: (a.lines.line + b.lines.line) as usize,
                column: b.lines.column,
            },
            len_first_line: (a.len_last_line + b.len_first_line) as usize,
            len_last_line: b.len_last_line,
        }
    }
}

/// The sums `combined` takes fit in a `usize`.
pub open spec fn combinable(a: Stats, b: Stats) -> bool {
    &&& a.len + b.len <= usize::MAX
    &&& a.lines.line + b.lines.line <= usize::MAX
    &&& a.lines.column + b.lines.column <= usize::MAX
    &&& a.len_last_line + b.len_last_line <= usize::MAX
    &&& a.len_last_line + b.len_first_line <= usize::MAX
}

/// The measures after a scan passes a run measured `left`: the lengths add up, and
/// after a line terminator the column starts again from the run's last line.
pub open spec fn scanned(acc: Stats, left: Stats) -> Stats {
    if left.lines.line == 0 {
        Stats {
            len: (acc.len + left.len) as usize,
            lines: Point {
                line: acc.lines.line,
                column: (acc.lines.column + left.lines.column) as usize,
            },
            len_first_line: (acc.len_first_line + left.len_first_line) as usize,
            len_last_line: (acc.len_last_line + left.len_last_line) as usize,
        }
    } else {
        Stats {
            len: (acc.len + left.len) as usize,
            lines: Point {
                line: (acc.lines.line + left.lines.line) as usize,
                column: left.len_last_line,
            },
            len_first_line: (acc.len_first_line + left.len_first_line) as usize,
            len_last_line: acc.len_last_line,
        }
    }
}

/// The sums `scanned` takes fit in a `usize`.
pub open spec fn scannable(acc: Stats, left: Stats) -> bool {
    &&& acc.len + left.len <= usize::MAX
    &&& acc.lines.line + left.lines.line <= usize::MAX
    &&& acc.lines.column + left.lines.column <= usize::MAX
    &&& acc.len_first_line + left.len_first_line <= usize::MAX
    &&& acc.len_last_line + left.len_last_line <= usize::MAX
}

impl Slab {
    /// The measures of the slab's bytes.
    pub fn summary(&self) -> (r: Metrics)
        ensures
            r.stats == stats_of(self@),
            r.left is None,
    {
        let bs = self.as_bytes();
        let len = bs.len();
        let mut len_lines: Vec<usize> = Vec::new();
        let mut len_last_line: usize = 0;
        let mut i: usize = 0;
        while i < len
            invariant
                len == bs@.len(),
                bs@ == self@,
                i <= len,
                len_lines@.len() == line_lens(bs@.take(i as int)).len(),
                forall|j: int| 0 <= j < len_lines@.len() ==> len_lines@[j] == line_lens(bs@.take(i as int))[j],
                len_last_line == last_line_len(bs@.take(i as int)),
            decreases len - i,
        {
            proof {
                lemma_line_lens(bs@.take(i as int));
                assert(bs@.take(i + 1).drop_last() =~= bs@.take(i as int));
                assert(bs@.take(i + 1).last() == bs@[i as int]);
            }
            if bs[i] == 10u8 {
                len_lines.push(len_last_line);
                len_last_line = 0;
            } else {
                len_last_line = len_last_line + 1;
            }
            i = i + 1;
        }
        proof {
            assert(bs@.take(len as int) =~= bs@);
            lemma_line_lens(bs@);
        }
        let len_first_line = if len_lines.len() > 0 {
            len_lines[0]
        } else {
            0
        };
        let lines = Point { line: len_lines.len(), column: len_last_line };
        let stats = Stats { len, lines, len_first_line, len_last_line };
        Metrics { stats, left: None }
    }
}

impl Metrics {
    /// The measures of this run followed by `rhs`, remembering this run's as the left.
    pub fn combine(&self, rhs: &Metrics) -> (r: Metrics)
        requires
            combinable(self.stats, rhs.stats),
        ensures
            r.stats == combined(self.stats, rhs.stats),
            r.left == Some(self.stats),
    {
        let len = self.stats.len + rhs.stats.len;
        let (len_first_line, lines, len_last_line) = if rhs.stats.lines.line == 0 {
            let line = self.stats.lines.line;
            let column = self.stats.lines.column + rhs.stats.lines.column;
            let lines = Point { line, column };
            let len_first_line = self.stats.len_first_line;
            let len_last_line = self.stats.len_last_line + rhs.stats.len_last_line;
            (len_first_line, lines, len_last_line)
        } else {
            let line = self.stats.lines.line + rhs.stats.lines.line;
            let column = rhs.stats.lines.column;
            let lines = Point { line, column };
            let len_first_line = self.stats.len_last_line + rhs.stats.len_first_line;
            let len_last_line = rhs.stats.len_last_line;
            (len_first_line, lines, len_last_line)
        };
        let stats = Stats { len, lines, len_first_line, len_last_line };
        Metrics { stats, left: Some(self.stats) }
    }

    /// Passes a branch in a scan: adds the measures of the branch's left run.
    pub fn scan_branch(&mut self, from: &Metrics)
        requires
            from.left is Some,
            scannable(old(self).stats, from.left.unwrap()),
        ensures
            final(self).stats == scanned(old(self).stats, from.left.unwrap()),
            final(self).left == old(self).left,
    {
        let left = match from.left {
            Some(l) => l,
            None => {
                proof {
                    assert(false);
                }
                return ;
            },
        };
        self.stats.len += left.len;
        if left.lines.line == 0 {
            self.stats.lines.column += left.lines.column;
            self.stats.len_first_line += left.len_first_line;
            self.stats.len_last_line += left.len_last_line;
        } else {
            self.stats.lines.line += left.lines.line;
            self.stats.lines.column = left.len_last_line;
            self.stats.len_first_line += left.len_first_line;
        };
    }

    /// Passes a leaf in a scan: adds the leaf's measures.
    pub fn scan_leaf(&mut self, from: &Metrics)
        requires
            scannable(old(self).stats, from.stats),
        ensures
            final(self).stats == scanned(old(self).stats, from.stats),
            final(self).left == old(self).left,
    {
        let left = from.stats;
        self.stats.len += left.len;
        if left.lines.line == 0 {
            self.stats.lines.column += left.lines.column;
            self.stats.len_first_line += left.len_first_line;
            self.stats.len_last_line += left.len_last_line;
        } else {
            self.stats.lines.line += left.lines.line;
            self.stats.lines.column = left.len_last_line;
            self.stats.len_first_line += left.len_first_line;
        };
    }
}

} // verus!

verus! {

/// Bytes with no line terminator are all on their last line.
pub proof fn lemma_last_line_no_nl(s: Seq<u8>)
    requires
        count_nl(s) == 0,
    ensures
        last_line_len(s) == s.len(),
        line_lens(s).len() == 0,
    decreases s.len(),
{
    if s.len() > 0 {
        assert(s =~= s.drop_last() + seq![s.last()]);
        lemma_count_concat(s.drop_last(), seq![s.last()], newline());
        lemma_count_single(s.last(), newline());
        lemma_last_line_no_nl(s.drop_last());
    }
}

/// The last line of `x` then `y`: all of `y` after the last line of `x` where `y` has no
/// terminator, else the last line of `y`.
pub proof fn lemma_last_line_concat(x: Seq<u8>, y: Seq<u8>)
    ensures
        last_line_len(x + y) == if count_nl(y) == 0 {
            last_line_len(x) + y.len()
        } else {
            last_line_len(y)
        },
    decreases y.len(),
{
    if y.len() == 0 {
        assert(x + y =~= x);
    } else {
        assert((x + y).drop_last() =~= x + y.drop_last());
        assert(y =~= y.drop_last() + seq![y.last()]);
        lemma_count_concat(y.drop_last(), seq![y.last()], newline());
        lemma_count_single(y.last(), newline());
        lemma_last_line_concat(x, y.drop_last());
    }
}

/// The first line of `x` then `y` is that of `x` where `x` has a terminator, and else
/// all of `x` followed by the first line of `y`.
pub proof fn lemma_first_line_concat(x: Seq<u8>, y: Seq<u8>)
    ensures
        count_nl(x) > 0 ==> line_lens(x + y).len() > 0 && line_lens(x + y)[0] == line_lens(x)[0],
        count_nl(x) == 0 && count_nl(y) > 0 ==> line_lens(x + y).len() > 0 && line_lens(x + y)[0]
            == x.len() + line_lens(y)[0],
        count_nl(x) == 0 ==> line_lens(x + y).len() == line_lens(y).len(),
    decreases y.len(),
{
    lemma_line_lens(x);
    lemma_line_lens(y);
    lemma_line_lens(x + y);
    lemma_count_concat(x, y, newline());
    if y.len() == 0 {
        assert(x + y =~= x);
    } else {
        let y0 = y.drop_last();
        assert((x + y).drop_last() =~= x + y0);
        assert(y =~= y0 + seq![y.last()]);
        lemma_count_concat(y0, seq![y.last()], newline());
        lemma_count_single(y.last(), newline());
        lemma_first_line_concat(x, y0);
        lemma_line_lens(y0);
        lemma_line_lens(x + y0);
        lemma_count_concat(x, y0, newline());
        if y.last() == newline() && count_nl(x) == 0 && count_nl(y0) == 0 {
            lemma_last_line_no_nl(x + y0);
            lemma_last_line_no_nl(y0);
        }
    }
}

/// Combining the measures of two runs gives the measures of the two run together: the
/// length, the number of line terminators, the column after the last one and the
/// length of the last line; and the length of the first line where one of the runs
/// has no terminator.
pub proof fn law_combine_measures_the_concatenation(x: Seq<u8>, y: Seq<u8>)
    requires
        x.len() + y.len() <= usize::MAX,
    ensures
        ({
            let c = combined(stats_of(x), stats_of(y));
            let s = stats_of(x + y);
            &&& c.len == s.len
            &&& c.lines == s.lines
            &&& c.len_last_line == s.len_last_line
            &&& count_nl(x) == 0 || count_nl(y) == 0 ==> c.len_first_line == s.len_first_line
        }),
{
    lemma_count_concat(x, y, newline());
    crate::bytes::lemma_count_le_len(x, newline());
    crate::bytes::lemma_count_le_len(y, newline());
    lemma_line_lens(x);
    lemma_line_lens(y);
    lemma_line_lens(x + y);
    lemma_last_line_concat(x, y);
    lemma_first_line_concat(x, y);
    if count_nl(x) == 0 {
        lemma_last_line_no_nl(x);
    }
    if count_nl(y) == 0 {
        lemma_last_line_no_nl(y);
    }
    let c = combined(stats_of(x), stats_of(y));
    let s = stats_of(x + y);
    assert(c.len == s.len);
    assert(c.lines.line == s.lines.line);
    assert(c.lines.column == s.lines.column);
    assert(c.len_last_line == s.len_last_line);
}

} // verus!
