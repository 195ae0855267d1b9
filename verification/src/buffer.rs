//! The text of a buffer: a rope of chars, addressed by char offset and by line.
use vstd::prelude::*;

use crate::point::Point;

verus! {

/// The chars a text holds, in order.
pub uninterp spec fn text_chars(contents: Contents) -> Seq<char>;

/// The char offset at which line `line` of `text` starts, as the rope counts lines.
pub uninterp spec fn line_start(text: Seq<char>, line: int) -> int;

/// The line of `text` that holds the char at `offset`, as the rope counts lines.
pub uninterp spec fn line_of(text: Seq<char>, offset: int) -> int;

/// The number of lines of `text`, as the rope counts lines.
pub uninterp spec fn line_count(text: Seq<char>) -> int;

/// Whether `c` is alphabetic or numeric in the sense of Unicode.
pub uninterp spec fn alphanumeric(c: char) -> bool;

/// Whether `c` is alphabetic or numeric; `char::is_alphanumeric` decides it.
#[verifier::external_body]
pub fn is_alphanumeric(c: char) -> (r: bool)
    ensures
        r == alphanumeric(c),
{
    c.is_alphanumeric()
}

/// The text of a buffer, held in a `ropey::Rope`.
#[verifier::external_body]
#[derive(Debug)]
pub struct Contents {
    rope: ropey::Rope,
}

impl Contents {
    /// The chars of the text.
    pub open spec fn chars(&self) -> Seq<char> {
        text_chars(*self)
    }

    /// The number of lines, as the rope counts them.
    pub open spec fn lines(&self) -> int {
        line_count(self.chars())
    }

    /// An empty text; `ropey::Rope::new` holds no chars.
    #[verifier::external_body]
    pub fn new() -> (r: Contents)
        ensures
            r.chars() == Seq::<char>::empty(),
    {
        Contents { rope: ropey::Rope::new() }
    }

    /// The text of `text`; `ropey::Rope::from_str` holds its chars.
    #[verifier::external_body]
    pub fn from_text(text: &str) -> (r: Contents)
        ensures
            r.chars() == text@,
    {
        Contents { rope: ropey::Rope::from_str(text) }
    }

    /// The number of chars; `ropey::Rope::len_chars` counts them.
    #[verifier::external_body]
    pub fn len_chars(&self) -> (r: usize)
        ensures
            r == text_chars(*self).len(),
    {
        self.rope.len_chars()
    }

    /// The number of lines; `ropey::Rope::len_lines` counts the line breaks and one
    /// more.
    #[verifier::external_body]
    pub fn len_lines(&self) -> (r: usize)
        ensures
            r == line_count(self.chars()),
            r >= 1,
    {
        self.rope.len_lines()
    }

    /// The char at `offset`; `ropey::Rope::char` panics past the end.
    #[verifier::external_body]
    pub fn char_at(&self, offset: usize) -> (r: char)
        requires
            offset < self.chars().len(),
        ensures
            r == self.chars()[offset as int],
    {
        self.rope.char(offset)
    }

    /// The offset at which a line starts; `ropey::Rope::line_to_char` gives the end of
    /// the text for the line past the last, starts line zero at zero, starts no line
    /// before the line above it, and panics beyond the line past the last.
    #[verifier::external_body]
    pub fn line_to_char(&self, line: usize) -> (r: usize)
        requires
            line <= self.lines(),
        ensures
            r == line_start(self.chars(), line as int),
            r <= self.chars().len(),
            line == 0 ==> r == 0,
            line == self.lines() ==> r == self.chars().len(),
            line > 0 ==> line_start(self.chars(), line - 1) <= r,
    {
        self.rope.line_to_char(line)
    }

    /// The line that holds the char at `offset`; `ropey::Rope::char_to_line` takes the
    /// end of the text too, and panics beyond. That line starts at or before `offset`.
    #[verifier::external_body]
    pub fn char_to_line(&self, offset: usize) -> (r: usize)
        requires
            offset <= self.chars().len(),
        ensures
            r == line_of(self.chars(), offset as int),
            r < self.lines(),
            line_start(self.chars(), r as int) <= offset,
    {
        self.rope.char_to_line(offset)
    }

    /// Inserts `c` at `offset`; `ropey::Rope::insert_char` panics past the end.
    #[verifier::external_body]
    pub fn insert_char(&mut self, offset: usize, c: char)
        requires
            offset <= old(self).chars().len(),
        ensures
            final(self).chars() == old(self).chars().insert(offset as int, c),
    {
        self.rope.insert_char(offset, c)
    }

    /// The number of chars of a line, its line break included: the rope's line spans
    /// from its start to the start of the next line.
    pub fn line_len_chars(&self, line: usize) -> (r: usize)
        requires
            line < self.lines(),
        ensures
            r == line_start(self.chars(), line + 1) - line_start(self.chars(), line as int),
    {
        // `line` is below the line count, so `line + 1` is at most the line count.
        let count = self.len_lines();
        assert(line + 1 <= count);
        let start = self.line_to_char(line);
        let end = self.line_to_char(line + 1);
        end - start
    }

    /// The char offset of `cursor`.
    pub fn point_to_char_offset(&self, cursor: Point) -> (r: usize)
        requires
            cursor.line <= self.lines(),
            line_start(self.chars(), cursor.line as int) + cursor.column <= usize::MAX,
        ensures
            r == line_start(self.chars(), cursor.line as int) + cursor.column,
    {
        let line_offset = self.line_to_char(cursor.line);
        line_offset + cursor.column
    }

    /// The line and column of the char at `offset`.
    pub fn char_offset_to_point(&self, offset: usize) -> (r: Point)
        requires
            offset <= self.chars().len(),
        ensures
            r.line == line_of(self.chars(), offset as int),
            r.column == offset - line_start(self.chars(), r.line as int),
    {
        let line = self.char_to_line(offset);
        let column = offset - self.line_to_char(line);
        Point { line, column }
    }
}

} // verus!
