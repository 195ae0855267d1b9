//! Positions in text: a line and a column, and a cell on a screen.
use vstd::prelude::*;

verus! {

#[derive(Debug, Clone, Copy, Default, PartialEq, Eq, PartialOrd, Structural)]
pub struct Point {
    pub line: usize,
    pub column: usize,
}

impl Point {
    pub fn move_next_column(&mut self)
        requires
            old(self).column < usize::MAX,
        ensures
            final(self).line == old(self).line,
            final(self).column == old(self).column + 1,
    {
        self.column += 1;
    }

    /// Moves one column to the left; the first column stays.
    pub fn move_prev_column(&mut self)
        ensures
            final(self).line == old(self).line,
            final(self).column == if old(self).column > 0 {
                old(self).column - 1
            } else {
                0
            },
    {
        if self.column > 0 {
            self.column -= 1;
        }
    }

    pub fn move_next_line(&mut self)
        requires
            old(self).line < usize::MAX,
        ensures
            final(self).column == old(self).column,
            final(self).line == old(self).line + 1,
    {
        self.line += 1;
    }

    /// Moves one line up; the first line stays.
    pub fn move_prev_line(&mut self)
        ensures
            final(self).column == old(self).column,
            final(self).line == if old(self).line > 0 {
                old(self).line - 1
            } else {
                0
            },
    {
        if self.line > 0 {
            self.line -= 1;
        }
    }
}

/// A cell on the screen.
#[derive(Debug, Clone, Copy, Default, PartialEq, Eq, PartialOrd)]
pub struct CursorPoint {
    pub x: u16,
    pub y: u16,
}

} // verus!
