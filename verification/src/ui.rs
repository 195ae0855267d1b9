//! What the panes draw, cell by cell: the frame of the picker, and the rows of the
//! commands pane's results.
use vstd::prelude::*;

use bstr::ByteSlice;

verus! {

/// A cell written: its column, its row and its symbol.
pub type CellWrite = (u16, u16, char);

/// The left and right sides of a frame, row by row for `count` rows from `top`.
pub open spec fn side_writes(left: u16, right: u16, top: u16, count: nat) -> Seq<CellWrite>
    decreases count,
{
    if count == 0 {
        Seq::empty()
    } else {
        let y = (top + count - 1) as u16;
        side_writes(left, right, top, (count - 1) as nat).push((left, y, '│')).push(
            (right, y, '│'),
        )
    }
}

/// The corner or the line at column `x` of a row that runs from `left` to `right`.
pub open spec fn edge_symbol(x: u16, left: u16, right: u16, at_left: char, at_right: char) -> char {
    if x == left {
        at_left
    } else if x == right {
        at_right
    } else {
        '─'
    }
}

/// The top, the separator two rows down and the bottom of a frame, column by column for
/// `count` columns from `left`.
pub open spec fn row_writes(left: u16, right: u16, top: u16, bottom: u16, count: nat) -> Seq<
    CellWrite,
>
    decreases count,
{
    if count == 0 {
        Seq::empty()
    } else {
        let x = (left + count - 1) as u16;
        row_writes(left, right, top, bottom, (count - 1) as nat).push(
            (x, top, edge_symbol(x, left, right, '┌', '┐')),
        ).push((x, (top + 2) as u16, edge_symbol(x, left, right, '├', '┤'))).push(
            (x, bottom, edge_symbol(x, left, right, '└', '┘')),
        )
    }
}

/// The cells the picker's frame writes over the area at `left`, `top` of `width` by
/// `height`, in the order it writes them: both sides row by row, then the top, the
/// separator under the query and the bottom, column by column.
pub fn border_cells(left: u16, top: u16, width: u16, height: u16) -> (r: Vec<CellWrite>)
    requires
        width >= 1,
        height >= 3,
        left + width <= u16::MAX,
        top + height <= u16::MAX,
    ensures
        r@ == side_writes(left, (left + width - 1) as u16, top, height as nat) + row_writes(
            left,
            (left + width - 1) as u16,
            top,
            (top + height - 1) as u16,
            width as nat,
        ),
{
    let right = left + width - 1;
    let bottom = top + height - 1;
    let mut out: Vec<CellWrite> = Vec::new();
    let mut k: u16 = 0;
    while k < height
        invariant
            k <= height,
            top + height <= u16::MAX,
            right == left + width - 1,
            out@ == side_writes(left, right, top, k as nat),
        decreases height - k,
    {
        let y = top + k;
        out.push((left, y, '│'));
        out.push((right, y, '│'));
        k = k + 1;
    }
    let ghost sides = out@;
    let mut j: u16 = 0;
    while j < width
        invariant
            j <= width,
            left + width <= u16::MAX,
            top + height <= u16::MAX,
            height >= 3,
            right == left + width - 1,
            bottom == top + height - 1,
            out@ == sides + row_writes(left, right, top, bottom, j as nat),
        decreases width - j,
    {
        let x = left + j;
        let t = if x == left {
            '┌'
        } else if x == right {
            '┐'
        } else {
            '─'
        };
        let s = if x == left {
            '├'
        } else if x == right {
            '┤'
        } else {
            '─'
        };
        let b = if x == left {
            '└'
        } else if x == right {
            '┘'
        } else {
            '─'
        };
        out.push((x, top, t));
        out.push((x, top + 2, s));
        out.push((x, bottom, b));
        assert(out@ =~= sides + row_writes(left, right, top, bottom, (j + 1) as nat));
        j = j + 1;
    }
    out
}

/// The grapheme clusters of `text`, in order, as bstr's `graphemes` splits them.
pub uninterp spec fn grapheme_clusters(text: Seq<char>) -> Seq<Seq<char>>;

/// Splits `text` into its grapheme clusters with `bstr::ByteSlice::graphemes`.
#[verifier::external_body]
fn graphemes(text: &str) -> (r: Vec<String>)
    ensures
        r@.map_values(|g: String| g@) == grapheme_clusters(text@),
{
    text.as_bytes().graphemes().map(|g| g.to_string()).collect()
}

/// A cell of the results: its symbol, whether it is drawn in the highlight colour, on
/// the selected background, and in italics.
#[derive(Debug, Clone, PartialEq, Eq)]
pub struct Cell {
    pub symbol: String,
    pub highlight: bool,
    pub selected: bool,
    pub italic: bool,
}

/// A cell as plain values.
pub open spec fn cell_view(c: Cell) -> (Seq<char>, bool, bool, bool) {
    (c.symbol@, c.highlight, c.selected, c.italic)
}

/// The symbol of column `i`: the `i`-th cluster, or a space past the last.
pub open spec fn symbol_at(gs: Seq<Seq<char>>, i: int) -> Seq<char> {
    if 0 <= i < gs.len() {
        gs[i]
    } else {
        seq![' ']
    }
}

/// From column `idx` of a row `width` wide, whether each column is highlighted: the
/// first always, then the column after each matched index in turn, `p` being the next
/// matched index to look for.
pub open spec fn highlights(indices: Seq<usize>, width: int, idx: int, p: int) -> Seq<bool>
    decreases width - idx,
{
    if idx < 0 || idx >= width {
        Seq::empty()
    } else {
        let next = if 0 <= p < indices.len() {
            indices[p] as int
        } else {
            width
        };
        if idx == 0 {
            seq![true] + highlights(indices, width, idx + 1, p)
        } else if next + 1 == idx {
            seq![true] + highlights(indices, width, idx + 1, p + 1)
        } else {
            seq![false] + highlights(indices, width, idx + 1, p)
        }
    }
}

/// The text of a result's row: its name, after a space unless it is the selected one.
pub open spec fn row_text(name: Seq<char>, selected: bool) -> Seq<char> {
    if selected {
        name
    } else {
        seq![' '] + name
    }
}

/// The cells of a result's row `width` wide.
pub open spec fn row_cells(name: Seq<char>, indices: Seq<usize>, selected: bool, width: int) -> Seq<
    (Seq<char>, bool, bool, bool),
> {
    Seq::new(
        width as nat,
        |i: int|
            (
                symbol_at(grapheme_clusters(row_text(name, selected)), i),
                highlights(indices, width, 0, 0)[i],
                selected,
                false,
            ),
    )
}

/// The one row drawn where nothing matches.
pub open spec fn no_matches_cells(width: int) -> Seq<(Seq<char>, bool, bool, bool)> {
    Seq::new(
        width as nat,
        |i: int| (symbol_at(grapheme_clusters(" No matches"@), i), false, false, true),
    )
}

pub proof fn lemma_highlights_len(indices: Seq<usize>, width: int, idx: int, p: int)
    requires
        0 <= idx <= width,
    ensures
        highlights(indices, width, idx, p).len() == width - idx,
    decreases width - idx,
{
    if idx < width {
        let next = if 0 <= p < indices.len() {
            indices[p] as int
        } else {
            width
        };
        if idx == 0 {
            lemma_highlights_len(indices, width, idx + 1, p);
        } else if next + 1 == idx {
            lemma_highlights_len(indices, width, idx + 1, p + 1);
        } else {
            lemma_highlights_len(indices, width, idx + 1, p);
        }
    }
}

/// The cells of a row `width` wide for the result `name`: its grapheme clusters, after a
/// space unless it is selected, then spaces.
fn result_row(name: &String, indices: &Vec<usize>, selected: bool, width: u16) -> (r: Vec<Cell>)
    requires
        forall|i: int| 0 <= i < indices@.len() ==> indices@[i] < usize::MAX,
    ensures
        r@.map_values(|c: Cell| cell_view(c)) == row_cells(name@, indices@, selected, width as int),
{
    let text = if selected {
        String::from_str(name.as_str())
    } else {
        String::from_str(" ").concat(name.as_str())
    };
    proof { reveal_strlit(" "); }
    let gs = graphemes(text.as_str());
    let ghost hl = highlights(indices@, width as int, 0, 0);
    let mut out: Vec<Cell> = Vec::new();
    let mut idx: usize = 0;
    let mut p: usize = 0;
    let maxlen: usize = width as usize;
    proof { lemma_highlights_len(indices@, width as int, 0, 0); }
    while idx < maxlen
        invariant
            maxlen == width,
            idx <= maxlen,
            p <= indices@.len(),
            text@ == row_text(name@, selected),
            gs@.map_values(|g: String| g@) == grapheme_clusters(text@),
            forall|i: int| 0 <= i < indices@.len() ==> indices@[i] < usize::MAX,
            idx > 0 ==> hl.subrange(idx as int, width as int) == highlights(indices@, width as int, idx as int, p as int),
            idx == 0 ==> p == 0,
            hl == highlights(indices@, width as int, 0, 0),
            hl.len() == width,
            out@.len() == idx,
            forall|i: int|
                0 <= i < idx ==> cell_view(#[trigger] out@[i]) == (
                    symbol_at(grapheme_clusters(row_text(name@, selected)), i),
                    hl[i],
                    selected,
                    false,
                ),
        decreases maxlen - idx,
    {
        proof {
            lemma_highlights_len(indices@, width as int, 0, 0);
            lemma_highlights_len(indices@, width as int, idx as int, p as int);
            if idx == 0 {
                assert(hl.subrange(0, width as int) =~= hl);
            }
        }
        let symbol = if idx < gs.len() {
            let g = gs[idx].clone();
            proof {
                assert(gs@.map_values(|g: String| g@)[idx as int] == gs@[idx as int]@);
            }
            g
        } else {
            proof { reveal_strlit(" "); }
            let sp = String::from_str(" ");
            assert(sp@ =~= seq![' ']);
            sp
        };
        assert(symbol@ == symbol_at(grapheme_clusters(text@), idx as int));
        let next_idx = if p < indices.len() {
            indices[p]
        } else {
            maxlen
        };
        let ghost p0 = p as int;
        let highlight = if idx == 0 {
            true
        } else if next_idx + 1 == idx {
            p = p + 1;
            true
        } else {
            false
        };
        proof {
            let rest = highlights(indices@, width as int, idx as int, p0);
            assert(hl.subrange(idx as int, width as int) == rest);
            assert(hl[idx as int] == rest[0]);
            assert(hl.subrange(idx + 1, width as int) =~= rest.drop_first());
        }
        out.push(Cell { symbol, highlight, selected, italic: false });
        idx = idx + 1;
    }
    proof {
        assert(out@.map_values(|c: Cell| cell_view(c)) =~= row_cells(name@, indices@, selected, width as int));
    }
    out
}

/// The rows of the commands pane's results, `width` cells wide: where nothing matches,
/// one row that reads " No matches" in italics; else one row per result for the
/// `height` rows of the area, each result given by its name, its matched indices and
/// whether it is the selected one.
pub fn result_rows(rows: &Vec<(String, Vec<usize>, bool)>, width: u16, height: u16) -> (r: Vec<
    Vec<Cell>,
>)
    requires
        rows@.len() > 0 ==> height <= rows@.len(),
        forall|k: int, i: int|
            0 <= k < rows@.len() && 0 <= i < rows@[k].1@.len() ==> #[trigger] rows@[k].1@[i]
                < usize::MAX,
    ensures
        rows@.len() == 0 ==> r@.len() == 1 && r@[0]@.map_values(|c: Cell| cell_view(c))
            == no_matches_cells(width as int),
        rows@.len() > 0 ==> r@.len() == height && forall|y: int|
            0 <= y < height ==> (#[trigger] r@[y])@.map_values(|c: Cell| cell_view(c))
                == row_cells(rows@[y].0@, rows@[y].1@, rows@[y].2, width as int),
{
    let mut out: Vec<Vec<Cell>> = Vec::new();
    if rows.len() == 0 {
        proof { reveal_strlit(" No matches"); }
        let gs = graphemes(" No matches");
        let mut row: Vec<Cell> = Vec::new();
        let mut x: u16 = 0;
        while x < width
            invariant
                x <= width,
                gs@.map_values(|g: String| g@) == grapheme_clusters(" No matches"@),
                row@.len() == x,
                forall|i: int|
                    0 <= i < x ==> cell_view(#[trigger] row@[i]) == no_matches_cells(
                        width as int,
                    )[i],
            decreases width - x,
        {
            let symbol = if (x as usize) < gs.len() {
                let g = gs[x as usize].clone();
                proof {
                    assert(gs@.map_values(|g: String| g@)[x as int] == gs@[x as int]@);
                }
                g
            } else {
                proof { reveal_strlit(" "); }
                let sp = String::from_str(" ");
                assert(sp@ =~= seq![' ']);
                sp
            };
            row.push(Cell { symbol, highlight: false, selected: false, italic: true });
            x = x + 1;
        }
        proof {
            assert(row@.map_values(|c: Cell| cell_view(c)) =~= no_matches_cells(width as int));
        }
        out.push(row);
        return out;
    }
    let mut y: u16 = 0;
    while y < height
        invariant
            y <= height,
            height <= rows@.len(),
            forall|k: int, i: int|
                0 <= k < rows@.len() && 0 <= i < rows@[k].1@.len() ==> #[trigger] rows@[k].1@[i]
                    < usize::MAX,
            out@.len() == y,
            forall|k: int|
                0 <= k < y ==> (#[trigger] out@[k])@.map_values(|c: Cell| cell_view(c))
                    == row_cells(rows@[k].0@, rows@[k].1@, rows@[k].2, width as int),
        decreases height - y,
    {
        let (name, indices, selected) = &rows[y as usize];
        proof {
            assert forall|i: int| 0 <= i < indices@.len() implies indices@[i] < usize::MAX by {
                assert(rows@[y as int].1@[i] < usize::MAX);
            }
        }
        let row = result_row(name, indices, *selected, width);
        out.push(row);
        y = y + 1;
    }
    out
}

} // verus!
