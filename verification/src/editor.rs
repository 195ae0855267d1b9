//! An editor over the text of a buffer: its mode, its cursor, and the commands that
//! move the cursor and insert text.
use vstd::prelude::*;

use crate::buffer::{alphanumeric, is_alphanumeric, line_count, line_of, line_start, Contents};
use crate::point::{CursorPoint, Point};

verus! {

/// Identifies an editor.
pub type EditorId = u64;

/// Identifies a buffer.
pub type BufferId = u64;

#[derive(Clone, Copy, Debug, PartialEq, Eq, Structural)]
pub enum Mode {
    Normal,
    Insert,
}

impl Default for Mode {
    fn default() -> (r: Mode)
        ensures
            r == Mode::Normal,
    {
        Mode::Normal
    }
}

#[derive(Debug, Clone, Copy, PartialEq, Eq, Structural)]
pub enum Direction {
    Up,
    Down,
    Left,
    Right,
}

#[derive(Debug, Clone, Copy, PartialEq, Eq, Structural)]
pub enum CursorJump {
    StartOfNextWord,
    StartOfLastWord,
    EndOfNearestWord,
    StartOfNearestWord,
}

#[derive(Debug, Clone, Copy, PartialEq, Eq, Structural)]
pub enum Command {
    SetMode(Mode),
    SwapBuffer(BufferId),
    CursorMove(Direction),
    CursorJump(CursorJump),
    InsertChar(char),
}

/// A space, tab, carriage return or line feed.
pub open spec fn whitespace(c: char) -> bool {
    c == ' ' || c == '\t' || c == '\r' || c == '\n'
}

/// An ASCII punctuation character.
pub open spec fn punctuation(c: char) -> bool {
    let u = c as u32;
    ||| 0x21 <= u <= 0x2f
    ||| 0x3a <= u <= 0x40
    ||| 0x5b <= u <= 0x60
    ||| 0x7b <= u <= 0x7e
}

pub fn is_whitespace(c: char) -> (r: bool)
    ensures
        r == whitespace(c),
{
    c == ' ' || c == '\t' || c == '\r' || c == '\n'
}

pub fn is_punctuation(c: char) -> (r: bool)
    ensures
        r == punctuation(c),
{
    let u = c as u32;
    (0x21 <= u && u <= 0x2f) || (0x3a <= u && u <= 0x40) || (0x5b <= u && u <= 0x60) || (0x7b
        <= u && u <= 0x7e)
}

/// The kinds of runs of chars that a jump skips.
pub enum Run {
    /// Alphanumeric chars.
    Word,
    /// Punctuation.
    Punctuation,
    /// Whitespace.
    Space,
    /// Whitespace that is neither alphanumeric nor punctuation.
    Blank,
}

pub open spec fn in_run(run: Run, c: char) -> bool {
    match run {
        Run::Word => alphanumeric(c),
        Run::Punctuation => punctuation(c),
        Run::Space => whitespace(c),
        Run::Blank => !alphanumeric(c) && !punctuation(c) && whitespace(c),
    }
}

/// The first index from `i` on whose char is not in `run`, or the end of `t`.
pub open spec fn skip_forward(t: Seq<char>, i: int, run: Run) -> int
    decreases t.len() - i,
{
    if 0 <= i < t.len() && in_run(run, t[i]) {
        skip_forward(t, i + 1, run)
    } else {
        i
    }
}

/// The last index at or before `i` whose char before it is not in `run`, or zero.
pub open spec fn skip_backward(t: Seq<char>, i: int, run: Run) -> int
    decreases i,
{
    if 0 < i <= t.len() && in_run(run, t[i - 1]) {
        skip_backward(t, i - 1, run)
    } else {
        i
    }
}

pub proof fn lemma_skip_forward(t: Seq<char>, i: int, run: Run)
    requires
        0 <= i <= t.len(),
    ensures
        i <= skip_forward(t, i, run) <= t.len(),
    decreases t.len() - i,
{
    if i < t.len() && in_run(run, t[i]) {
        lemma_skip_forward(t, i + 1, run);
    }
}

pub proof fn lemma_skip_backward(t: Seq<char>, i: int, run: Run)
    requires
        0 <= i <= t.len(),
    ensures
        0 <= skip_backward(t, i, run) <= i,
    decreases i,
{
    if 0 < i && in_run(run, t[i - 1]) {
        lemma_skip_backward(t, i - 1, run);
    }
}

/// Where a jump to the start of the next word lands from `o`: past the run of the char
/// at `o` and the whitespace after it; one char on from a char of no run.
pub open spec fn next_word_start(t: Seq<char>, o: int) -> int {
    if o >= t.len() {
        o
    } else if alphanumeric(t[o]) {
        skip_forward(t, skip_forward(t, o + 1, Run::Word), Run::Space)
    } else if punctuation(t[o]) {
        skip_forward(t, skip_forward(t, o + 1, Run::Punctuation), Run::Space)
    } else if whitespace(t[o]) {
        skip_forward(t, o + 1, Run::Space)
    } else {
        o + 1
    }
}

/// Where a jump to the end of the nearest word lands from `o`: past the blanks after
/// `o`, on the last char of the run that follows them, or at the end of the text where
/// the run reaches it.
pub open spec fn word_end(t: Seq<char>, o: int) -> int {
    let q = skip_forward(t, o + 1, Run::Blank);
    if q >= t.len() {
        t.len() as int
    } else if alphanumeric(t[q]) {
        let r = skip_forward(t, q + 1, Run::Word);
        if r >= t.len() {
            t.len() as int
        } else {
            r - 1
        }
    } else if punctuation(t[q]) {
        let r = skip_forward(t, q + 1, Run::Punctuation);
        if r >= t.len() {
            t.len() as int
        } else {
            r - 1
        }
    } else {
        q
    }
}

/// Where a jump to the start of the nearest word lands from `o`: back past the blanks
/// before `o`, on the first char of the run before them.
pub open spec fn word_start(t: Seq<char>, o: int) -> int {
    let p = skip_backward(t, o, Run::Blank);
    if p <= 0 {
        0
    } else if alphanumeric(t[p - 1]) {
        skip_backward(t, p - 1, Run::Word)
    } else if punctuation(t[p - 1]) {
        skip_backward(t, p - 1, Run::Punctuation)
    } else {
        p - 1
    }
}

/// The point of the char at `offset`.
pub open spec fn point_of(t: Seq<char>, offset: int) -> Point {
    Point {
        line: line_of(t, offset) as usize,
        column: (offset - line_start(t, line_of(t, offset))) as usize,
    }
}

/// The number of chars of line `line`, its line break included.
pub open spec fn line_len(t: Seq<char>, line: int) -> int {
    line_start(t, line + 1) - line_start(t, line)
}

/// The column a vertical move keeps on a line of `len` chars: at most the last char
/// before the line break.
pub open spec fn clamp_column(len: int, column: usize) -> usize {
    let last = if len == 0 {
        0
    } else {
        len - 1
    };
    if last < column {
        last as usize
    } else {
        column
    }
}

/// The state of a word jump.
enum JumpState {
    Init,
    SkipWord,
    SkipPunctuation,
    SkipWhitespace,
    Done,
}

/// Zero once the jump is done.
spec fn live(state: JumpState) -> int {
    if state is Done {
        0
    } else {
        1
    }
}

spec fn rank(state: JumpState) -> int {
    match state {
        JumpState::Init => 3,
        JumpState::SkipWord => 2,
        JumpState::SkipPunctuation => 2,
        JumpState::SkipWhitespace => 1,
        JumpState::Done => 0,
    }
}

/// The offset a jump to the start of the next word reaches from `offset`.
fn start_of_next_word(contents: &Contents, offset: usize) -> (r: usize)
    requires
        offset <= contents.chars().len(),
    ensures
        r <= contents.chars().len(),
        r == next_word_start(contents.chars(), offset as int),
{
    let ghost t = contents.chars();
    let ghost o = offset as int;
    let ghost ans = next_word_start(t, o);
    let len = contents.len_chars();
    let mut offset = offset;
    let mut state = JumpState::Init;
    loop
        invariant
            t == contents.chars(),
            len == t.len(),
            0 <= o <= len,
            offset <= len,
            ans == next_word_start(t, o),
            state is Init ==> offset == o,
            state is SkipWord ==> o < len && alphanumeric(t[o]) && o < offset && skip_forward(
                t,
                offset as int,
                Run::Word,
            ) == skip_forward(t, o + 1, Run::Word),
            state is SkipPunctuation ==> o < len && !alphanumeric(t[o]) && punctuation(t[o]) && o
                < offset && skip_forward(t, offset as int, Run::Punctuation) == skip_forward(
                t,
                o + 1,
                Run::Punctuation,
            ),
            state is SkipWhitespace ==> ans == skip_forward(t, offset as int, Run::Space),
            state is Done ==> offset == ans,
        ensures
            offset == ans,
        decreases len - offset, rank(state),
    {
        match state {
            JumpState::Done => break,
            _ => {
                if offset >= len {
                    break;
                }
                let c = contents.char_at(offset);
                offset += 1;
                match state {
                    JumpState::Done => {},
                    JumpState::Init => {
                        if is_alphanumeric(c) {
                            state = JumpState::SkipWord;
                        } else if is_punctuation(c) {
                            state = JumpState::SkipPunctuation;
                        } else if is_whitespace(c) {
                            state = JumpState::SkipWhitespace;
                        } else {
                            state = JumpState::Done;
                        }
                    },
                    JumpState::SkipWhitespace => {
                        if c == ' ' || c == '\t' || c == '\r' || c == '\n' {
                            state = JumpState::SkipWhitespace;
                        } else {
                            offset -= 1;
                            state = JumpState::Done;
                        }
                    },
                    JumpState::SkipWord => {
                        if is_alphanumeric(c) {
                            state = JumpState::SkipWord;
                        } else {
                            offset -= 1;
                            state = JumpState::SkipWhitespace;
                        }
                    },
                    JumpState::SkipPunctuation => {
                        if is_punctuation(c) {
                            state = JumpState::SkipPunctuation;
                        } else {
                            offset -= 1;
                            state = JumpState::SkipWhitespace;
                        }
                    },
                }
            },
        }
    }
    offset
}

/// The offset a jump to the end of the nearest word reaches from `offset`.
fn end_of_nearest_word(contents: &Contents, offset: usize) -> (r: usize)
    requires
        offset < contents.chars().len(),
    ensures
        r <= contents.chars().len(),
        r == word_end(contents.chars(), offset as int),
{
    let ghost t = contents.chars();
    let ghost q = skip_forward(t, offset + 1, Run::Blank);
    let ghost ans = word_end(t, offset as int);
    let len = contents.len_chars();
    let mut offset = offset + 1;
    let ghost p = offset as int;
    proof {
        lemma_skip_forward(t, p, Run::Blank);
    }
    let mut state = JumpState::Init;
    loop
        invariant
            t == contents.chars(),
            len == t.len(),
            1 <= p <= len,
            q == skip_forward(t, p, Run::Blank),
            p <= q <= len,
            offset <= len,
            ans == word_end(t, p - 1),
            state is Init || state is SkipWhitespace ==> offset <= q && skip_forward(
                t,
                offset as int,
                Run::Blank,
            ) == q,
            state is SkipWord ==> q < len && alphanumeric(t[q]) && q < offset && skip_forward(
                t,
                offset as int,
                Run::Word,
            ) == skip_forward(t, q + 1, Run::Word),
            state is SkipPunctuation ==> q < len && !alphanumeric(t[q]) && punctuation(t[q]) && q
                < offset && skip_forward(t, offset as int, Run::Punctuation) == skip_forward(
                t,
                q + 1,
                Run::Punctuation,
            ),
            state is Done ==> offset == ans,
        ensures
            offset == ans,
        decreases live(state), len - offset,
    {
        match state {
            JumpState::Done => break,
            _ => {
                if offset >= len {
                    break;
                }
                let c = contents.char_at(offset);
                offset += 1;
                match state {
                    JumpState::Done => {},
                    JumpState::Init | JumpState::SkipWhitespace => {
                        if is_alphanumeric(c) {
                            state = JumpState::SkipWord;
                        } else if is_punctuation(c) {
                            state = JumpState::SkipPunctuation;
                        } else if is_whitespace(c) {
                            proof {
                                lemma_skip_forward(t, offset as int, Run::Blank);
                            }
                            state = JumpState::SkipWhitespace;
                        } else {
                            offset -= 1;
                            state = JumpState::Done;
                        }
                    },
                    JumpState::SkipWord => {
                        if is_alphanumeric(c) {
                            state = JumpState::SkipWord;
                        } else {
                            offset -= 2;
                            state = JumpState::Done;
                        }
                    },
                    JumpState::SkipPunctuation => {
                        if is_punctuation(c) {
                            state = JumpState::SkipPunctuation;
                        } else {
                            offset -= 2;
                            state = JumpState::Done;
                        }
                    },
                }
            },
        }
    }
    offset
}

/// The offset a jump to the start of the nearest word reaches from `offset`.
fn start_of_nearest_word(contents: &Contents, offset: usize) -> (r: usize)
    requires
        offset <= contents.chars().len(),
    ensures
        r <= contents.chars().len(),
        r == word_start(contents.chars(), offset as int),
{
    let ghost t = contents.chars();
    let ghost o = offset as int;
    let ghost p = skip_backward(t, o, Run::Blank);
    let ghost ans = word_start(t, o);
    let len = contents.len_chars();
    proof {
        lemma_skip_backward(t, o, Run::Blank);
    }
    let mut offset = offset;
    let mut state = JumpState::Init;
    loop
        invariant
            t == contents.chars(),
            len == t.len(),
            0 <= o <= len,
            p == skip_backward(t, o, Run::Blank),
            0 <= p <= o,
            offset <= len,
            ans == word_start(t, o),
            state is Init || state is SkipWhitespace ==> p <= offset <= o && skip_backward(
                t,
                offset as int,
                Run::Blank,
            ) == p,
            state is SkipWord ==> 0 < p && alphanumeric(t[p - 1]) && offset <= p - 1
                && skip_backward(t, offset as int, Run::Word) == skip_backward(t, p - 1, Run::Word),
            state is SkipPunctuation ==> 0 < p && !alphanumeric(t[p - 1]) && punctuation(t[p - 1])
                && offset <= p - 1 && skip_backward(t, offset as int, Run::Punctuation)
                == skip_backward(t, p - 1, Run::Punctuation),
            state is Done ==> offset == ans,
        ensures
            offset == ans,
        decreases live(state), offset,
    {
        match state {
            JumpState::Done => break,
            _ => {
                if offset == 0 {
                    break;
                }
                let c = contents.char_at(offset - 1);
                offset -= 1;
                match state {
                    JumpState::Done => {},
                    JumpState::Init | JumpState::SkipWhitespace => {
                        if is_alphanumeric(c) {
                            state = JumpState::SkipWord;
                        } else if is_punctuation(c) {
                            state = JumpState::SkipPunctuation;
                        } else if is_whitespace(c) {
                            proof {
                                lemma_skip_backward(t, offset as int, Run::Blank);
                            }
                            state = JumpState::SkipWhitespace;
                        } else {
                            state = JumpState::Done;
                        }
                    },
                    JumpState::SkipWord => {
                        if is_alphanumeric(c) {
                            state = JumpState::SkipWord;
                        } else {
                            offset += 1;
                            state = JumpState::Done;
                        }
                    },
                    JumpState::SkipPunctuation => {
                        if is_punctuation(c) {
                            state = JumpState::SkipPunctuation;
                        } else {
                            offset += 1;
                            state = JumpState::Done;
                        }
                    },
                }
            },
        }
    }
    offset
}

/// An editor: its mode and its cursor over the text of a buffer.
#[derive(Debug)]
pub struct Editor {
    pub mode: Mode,
    pub id: EditorId,
    pub buffer_id: BufferId,
    pub cursor: Point,
}

/// The cursor after a move in `direction` over the text `t`.
pub open spec fn moved(t: Seq<char>, cursor: Point, direction: Direction) -> Point {
    match direction {
        Direction::Up => {
            let line = if cursor.line > 0 {
                (cursor.line - 1) as usize
            } else {
                0
            };
            Point { line, column: clamp_column(line_len(t, line as int), cursor.column) }
        },
        Direction::Down => {
            let line = (cursor.line + 1) as usize;
            Point { line, column: clamp_column(line_len(t, line as int), cursor.column) }
        },
        Direction::Left => Point {
            line: cursor.line,
            column: if cursor.column > 0 {
                (cursor.column - 1) as usize
            } else {
                0
            },
        },
        Direction::Right => {
            let column = cursor.column + 1;
            if column < line_len(t, cursor.line as int) && t[line_start(t, cursor.line as int)
                + column] != '\n' {
                Point { line: cursor.line, column: column as usize }
            } else {
                cursor
            }
        },
    }
}

/// The offset of `cursor` in the text `t`.
pub open spec fn offset_of(t: Seq<char>, cursor: Point) -> int {
    line_start(t, cursor.line as int) + cursor.column
}

/// The cursor after `jump` over the text `t`.
pub open spec fn jumped(t: Seq<char>, cursor: Point, jump: CursorJump) -> Point {
    match jump {
        CursorJump::StartOfNextWord => point_of(t, next_word_start(t, offset_of(t, cursor))),
        CursorJump::EndOfNearestWord => point_of(t, word_end(t, offset_of(t, cursor))),
        CursorJump::StartOfNearestWord => point_of(t, word_start(t, offset_of(t, cursor))),
        CursorJump::StartOfLastWord => cursor,
    }
}

/// The commands that run without a panic: the lines and offsets that a command reads
/// exist.
pub open spec fn command_ok(t: Seq<char>, cursor: Point, command: Command) -> bool {
    match command {
        Command::SetMode(_) => true,
        Command::SwapBuffer(_) => true,
        Command::InsertChar(_) => {
            &&& cursor.line <= line_count(t)
            &&& offset_of(t, cursor) <= t.len()
            &&& cursor.column < usize::MAX
        },
        Command::CursorMove(Direction::Up) => cursor.line <= line_count(t),
        Command::CursorMove(Direction::Down) => cursor.line + 1 < line_count(t),
        Command::CursorMove(Direction::Left) => true,
        Command::CursorMove(Direction::Right) => cursor.line < line_count(t) && cursor.column
            < usize::MAX,
        Command::CursorJump(CursorJump::StartOfLastWord) => false,
        Command::CursorJump(CursorJump::EndOfNearestWord) => cursor.line <= line_count(t)
            && offset_of(t, cursor) < t.len(),
        Command::CursorJump(_) => cursor.line <= line_count(t) && offset_of(t, cursor) <= t.len(),
    }
}

/// The text after `command` with the cursor at `cursor`: only an insertion changes it.
pub open spec fn text_after(t: Seq<char>, cursor: Point, command: Command) -> Seq<char> {
    match command {
        Command::InsertChar(c) => t.insert(offset_of(t, cursor), c),
        _ => t,
    }
}

impl Editor {
    /// The editor after `command` over the text `t`.
    pub open spec fn after(self, t: Seq<char>, command: Command) -> Editor {
        Editor {
            buffer_id: match command {
                Command::SwapBuffer(b) => b,
                _ => self.buffer_id,
            },
            mode: match command {
                Command::SetMode(m) => m,
                _ => self.mode,
            },
            cursor: match command {
                Command::CursorMove(d) => moved(t, self.cursor, d),
                Command::CursorJump(j) => jumped(t, self.cursor, j),
                Command::InsertChar(_) => Point {
                    line: self.cursor.line,
                    column: (self.cursor.column + 1) as usize,
                },
                _ => self.cursor,
            },
            ..self
        }
    }
}

impl Editor {
    pub fn new(id: EditorId, buffer_id: BufferId) -> (r: Editor)
        ensures
            r == (Editor { mode: Mode::Normal, id, buffer_id, cursor: Point { line: 0, column: 0 } }),
    {
        Editor { id, mode: Mode::default(), buffer_id, cursor: Point { line: 0, column: 0 } }
    }

    pub fn swap_buffer(&mut self, buffer_id: BufferId)
        ensures
            *final(self) == (Editor { buffer_id, ..*old(self) }),
    {
        self.buffer_id = buffer_id;
    }

    /// Carries out `command` on the editor and the text of its buffer.
    pub fn command(&mut self, contents: &mut Contents, command: Command)
        requires
            command_ok(old(contents).chars(), old(self).cursor, command),
        ensures
            *final(self) == old(self).after(old(contents).chars(), command),
            final(contents).chars() == text_after(old(contents).chars(), old(self).cursor, command),
    {
        match command {
            Command::SwapBuffer(buffer_id) => self.swap_buffer(buffer_id),
            Command::InsertChar(c) => self.insert_char(contents, c),
            Command::SetMode(mode) => self.mode = mode,
            Command::CursorMove(direction) => match direction {
                Direction::Up => self.cursor_move_up(contents),
                Direction::Down => self.cursor_move_down(contents),
                Direction::Left => self.cursor_move_left(contents),
                Direction::Right => self.cursor_move_right(contents),
            },
            Command::CursorJump(jump) => match jump {
                CursorJump::StartOfNextWord => self.cursor_jump_start_of_next_word(contents),
                CursorJump::StartOfLastWord => {},
                CursorJump::EndOfNearestWord => self.cursor_jump_end_of_nearest_word(contents),
                CursorJump::StartOfNearestWord => self.cursor_jump_start_of_nearest_word(contents),
            },
        };
    }

    /// Whether the text has the lines and offsets that `command` reads.
    pub fn can_command(&self, contents: &Contents, command: Command) -> (r: bool)
        ensures
            r == command_ok(contents.chars(), self.cursor, command),
    {
        let cursor = self.cursor;
        let lines = contents.len_lines();
        let len = contents.len_chars();
        match command {
            Command::SetMode(_) | Command::SwapBuffer(_) => true,
            Command::CursorMove(Direction::Left) => true,
            Command::CursorMove(Direction::Up) => cursor.line <= lines,
            Command::CursorMove(Direction::Down) => cursor.line < lines && cursor.line + 1 < lines,
            Command::CursorMove(Direction::Right) => cursor.line < lines && cursor.column
                < usize::MAX,
            Command::CursorJump(CursorJump::StartOfLastWord) => false,
            Command::CursorJump(jump) => {
                if cursor.line > lines {
                    false
                } else {
                    let start = contents.line_to_char(cursor.line);
                    if cursor.column > len - start {
                        false
                    } else {
                        match jump {
                            CursorJump::EndOfNearestWord => start + cursor.column < len,
                            _ => true,
                        }
                    }
                }
            },
            Command::InsertChar(_) => {
                if cursor.line > lines || cursor.column == usize::MAX {
                    false
                } else {
                    let start = contents.line_to_char(cursor.line);
                    cursor.column <= len - start
                }
            },
        }
    }

    /// Carries out `command` where the text has the lines and offsets it reads, and
    /// reports whether it did; elsewhere leaves the editor and the text as they are.
    pub fn try_command(&mut self, contents: &mut Contents, command: Command) -> (r: bool)
        ensures
            r == command_ok(old(contents).chars(), old(self).cursor, command),
            r ==> *final(self) == old(self).after(old(contents).chars(), command)
                && final(contents).chars() == text_after(
                old(contents).chars(),
                old(self).cursor,
                command,
            ),
            !r ==> *final(self) == *old(self) && final(contents).chars() == old(contents).chars(),
    {
        let ok = self.can_command(contents, command);
        if ok {
            self.command(contents, command);
        }
        ok
    }

    /// Inserts `c` at the cursor and moves the cursor past it.
    pub fn insert_char(&mut self, contents: &mut Contents, c: char)
        requires
            old(self).cursor.line <= line_count(old(contents).chars()),
            offset_of(old(contents).chars(), old(self).cursor) <= old(contents).chars().len(),
            old(self).cursor.column < usize::MAX,
        ensures
            final(self).cursor == (Point {
                line: old(self).cursor.line,
                column: (old(self).cursor.column + 1) as usize,
            }),
            final(self).mode == old(self).mode,
            final(self).id == old(self).id,
            final(self).buffer_id == old(self).buffer_id,
            final(contents).chars() == old(contents).chars().insert(
                offset_of(old(contents).chars(), old(self).cursor),
                c,
            ),
    {
        let len = contents.len_chars();
        assert(offset_of(contents.chars(), self.cursor) <= len);
        let offset = contents.point_to_char_offset(self.cursor);
        self.cursor.move_next_column();
        contents.insert_char(offset, c);
    }

    pub fn cursor_move_left(&mut self, contents: &Contents)
        ensures
            *final(self) == (Editor {
                cursor: moved(contents.chars(), old(self).cursor, Direction::Left),
                ..*old(self)
            }),
    {
        self.cursor.move_prev_column();
    }

    /// Moves up a line, keeping the column within the line.
    pub fn cursor_move_up(&mut self, contents: &Contents)
        requires
            old(self).cursor.line <= line_count(contents.chars()),
        ensures
            *final(self) == (Editor {
                cursor: moved(contents.chars(), old(self).cursor, Direction::Up),
                ..*old(self)
            }),
    {
        // There is always a line, so the line above the first is the first.
        let lines = contents.len_lines();
        assert(lines >= 1);
        self.cursor.move_prev_line();
        let len = contents.line_len_chars(self.cursor.line);
        let len = if len == 0 {
            0
        } else {
            len - 1
        };
        self.cursor.column = if len < self.cursor.column {
            len
        } else {
            self.cursor.column
        };
    }

    /// Moves right a column, but not onto the line break or past the end of the line.
    pub fn cursor_move_right(&mut self, contents: &Contents)
        requires
            old(self).cursor.line < line_count(contents.chars()),
            old(self).cursor.column < usize::MAX,
        ensures
            *final(self) == (Editor {
                cursor: moved(contents.chars(), old(self).cursor, Direction::Right),
                ..*old(self)
            }),
    {
        self.cursor.move_next_column();
        let line = self.cursor.line;
        let len = contents.line_len_chars(line);
        if self.cursor.column < len {
            // The column is within the line, whose end is at most the end of the text.
            let lines = contents.len_lines();
            assert(line + 1 <= lines);
            let start = contents.line_to_char(line);
            let end = contents.line_to_char(line + 1);
            assert(start + self.cursor.column < end);
            if contents.char_at(start + self.cursor.column) == '\n' {
                self.cursor.move_prev_column();
            }
        } else {
            self.cursor.move_prev_column();
        }
    }

    /// Moves down a line, keeping the column within the line.
    pub fn cursor_move_down(&mut self, contents: &Contents)
        requires
            old(self).cursor.line + 1 < line_count(contents.chars()),
        ensures
            *final(self) == (Editor {
                cursor: moved(contents.chars(), old(self).cursor, Direction::Down),
                ..*old(self)
            }),
    {
        let lines = contents.len_lines();
        assert(self.cursor.line + 1 < lines);
        self.cursor.move_next_line();
        let len = contents.line_len_chars(self.cursor.line);
        let len = if len == 0 {
            0
        } else {
            len - 1
        };
        self.cursor.column = if len < self.cursor.column {
            len
        } else {
            self.cursor.column
        };
    }

    pub fn cursor_jump_line_zero(&mut self, contents: &Contents)
        ensures
            *final(self) == (Editor {
                cursor: Point { line: old(self).cursor.line, column: 0 },
                ..*old(self)
            }),
    {
        self.cursor.column = 0;
    }

    /// Jumps back to the start of the word at or before the cursor.
    pub fn cursor_jump_start_of_nearest_word(&mut self, contents: &Contents)
        requires
            old(self).cursor.line <= line_count(contents.chars()),
            offset_of(contents.chars(), old(self).cursor) <= contents.chars().len(),
        ensures
            *final(self) == (Editor {
                cursor: jumped(contents.chars(), old(self).cursor, CursorJump::StartOfNearestWord),
                ..*old(self)
            }),
    {
        let line_offset = contents.line_to_char(self.cursor.line);
        let len = contents.len_chars();
        assert(line_offset + self.cursor.column <= len);
        let offset = line_offset + self.cursor.column;
        let offset = start_of_nearest_word(contents, offset);
        self.cursor = contents.char_offset_to_point(offset);
    }

    /// Jumps forward to the last char of the word after the cursor.
    pub fn cursor_jump_end_of_nearest_word(&mut self, contents: &Contents)
        requires
            old(self).cursor.line <= line_count(contents.chars()),
            offset_of(contents.chars(), old(self).cursor) < contents.chars().len(),
        ensures
            *final(self) == (Editor {
                cursor: jumped(contents.chars(), old(self).cursor, CursorJump::EndOfNearestWord),
                ..*old(self)
            }),
    {
        let line_offset = contents.line_to_char(self.cursor.line);
        let len = contents.len_chars();
        assert(line_offset + self.cursor.column <= len);
        let offset = line_offset + self.cursor.column;
        let offset = end_of_nearest_word(contents, offset);
        self.cursor = contents.char_offset_to_point(offset);
    }

    /// Jumps forward to the start of the next word.
    pub fn cursor_jump_start_of_next_word(&mut self, contents: &Contents)
        requires
            old(self).cursor.line <= line_count(contents.chars()),
            offset_of(contents.chars(), old(self).cursor) <= contents.chars().len(),
        ensures
            *final(self) == (Editor {
                cursor: jumped(contents.chars(), old(self).cursor, CursorJump::StartOfNextWord),
                ..*old(self)
            }),
    {
        let line_offset = contents.line_to_char(self.cursor.line);
        let len = contents.len_chars();
        assert(line_offset + self.cursor.column <= len);
        let offset = line_offset + self.cursor.column;
        let offset = start_of_next_word(contents, offset);
        self.cursor = contents.char_offset_to_point(offset);
    }
}

/// The first line and column of the text shown on a screen of `width` by `height` cells
/// with the cursor at `cursor`: the screen scrolls by its own size once the cursor
/// passes it.
pub fn screen_offset(cursor: Point, width: u16, height: u16) -> (r: Point)
    ensures
        r.column == if cursor.column >= width {
            cursor.column - width
        } else {
            0
        },
        r.line == if cursor.line >= height {
            cursor.line - height
        } else {
            0
        },
{
    let width: usize = width as usize;
    let height: usize = height as usize;
    let column = if cursor.column >= width {
        cursor.column - width
    } else {
        0
    };
    let line = if cursor.line >= height {
        cursor.line - height
    } else {
        0
    };
    Point { line, column }
}

/// The screen cell of the cursor: its column and line, cut to the width of a cell
/// coordinate.
pub fn offset_cursor(cursor: Point) -> (r: CursorPoint)
    ensures
        r.x == cursor.column as u16,
        r.y == cursor.line as u16,
{
    CursorPoint { x: cursor.column as u16, y: cursor.line as u16 }
}

} // verus!

verus! {

/// A move up lands on the line above (or stays on the first line), and a move down on
/// the line below; either keeps the column where the line it lands on reaches it, and
/// else puts the cursor on that line's last char, never past it.
pub proof fn law_vertical_move_stays_in_line(t: Seq<char>, cursor: Point, up: bool)
    requires
        !up ==> cursor.line < usize::MAX,
    ensures
        ({
            let r = moved(t, cursor, if up { Direction::Up } else { Direction::Down });
            let len = line_len(t, r.line as int);
            let last = if len > 0 { len - 1 } else { 0 };
            &&& up ==> r.line == (if cursor.line > 0 { cursor.line - 1 } else { 0 })
            &&& !up ==> r.line == cursor.line + 1
            &&& len >= 0 ==> r.column <= last
            &&& len >= 0 ==> r.column <= cursor.column
            &&& len >= 0 ==> (r.column == cursor.column || r.column == last)
        }),
{
}

/// The kind of run `c` starts, and whether `d` belongs to it: letters and digits,
/// punctuation, and whitespace each form runs; any other char is a run of its own.
pub open spec fn same_run(c: char, d: char) -> bool {
    if alphanumeric(c) {
        alphanumeric(d)
    } else if punctuation(c) {
        punctuation(d)
    } else if whitespace(c) {
        whitespace(d)
    } else {
        false
    }
}

/// From `o`, the chars before `m` belong to the run of the char at `o`, the run ends at
/// `m`, and the chars from `m` to `r` are whitespace.
pub open spec fn run_then_space(t: Seq<char>, o: int, m: int, r: int) -> bool {
    &&& o < m <= r
    &&& forall|j: int| o < j < m ==> same_run(t[o], #[trigger] t[j])
    &&& m < t.len() ==> !same_run(t[o], t[m])
    &&& forall|j: int| m <= j < r ==> whitespace(#[trigger] t[j])
}

/// `skip_forward` stops at the first char from `i` on that is not in the run.
pub proof fn lemma_skip_forward_stops(t: Seq<char>, i: int, run: Run)
    requires
        0 <= i <= t.len(),
    ensures
        i <= skip_forward(t, i, run) <= t.len(),
        forall|j: int| i <= j < skip_forward(t, i, run) ==> in_run(run, #[trigger] t[j]),
        skip_forward(t, i, run) < t.len() ==> !in_run(run, t[skip_forward(t, i, run)]),
    decreases t.len() - i,
{
    lemma_skip_forward(t, i, run);
    if i < t.len() && in_run(run, t[i]) {
        lemma_skip_forward_stops(t, i + 1, run);
    }
}

/// A jump to the start of the next word from a char of the text moves forward: past
/// the rest of that char's run, then past the whitespace after it, onto a char that is
/// not whitespace or to the end of the text; from a char of no run it moves one char.
pub proof fn law_next_word_start(t: Seq<char>, o: int)
    requires
        0 <= o < t.len(),
    ensures
        ({
            let r = next_word_start(t, o);
            &&& o < r <= t.len()
            &&& exists|m: int| #[trigger] run_then_space(t, o, m, r)
            &&& (alphanumeric(t[o]) || punctuation(t[o]) || whitespace(t[o])) ==> (r == t.len()
                || !whitespace(t[r]))
        }),
{
    let r = next_word_start(t, o);
    if alphanumeric(t[o]) || punctuation(t[o]) {
        let run = if alphanumeric(t[o]) {
            Run::Word
        } else {
            Run::Punctuation
        };
        let m = skip_forward(t, o + 1, run);
        lemma_skip_forward_stops(t, o + 1, run);
        lemma_skip_forward(t, o + 1, run);
        lemma_skip_forward_stops(t, m, Run::Space);
        lemma_skip_forward(t, m, Run::Space);
        assert(r == skip_forward(t, m, Run::Space));
        assert(forall|j: int| o < j < m ==> same_run(t[o], #[trigger] t[j]));
        assert(forall|j: int| m <= j < r ==> whitespace(#[trigger] t[j]));
        assert(run_then_space(t, o, m, r));
    } else if whitespace(t[o]) {
        lemma_skip_forward_stops(t, o + 1, Run::Space);
        lemma_skip_forward(t, o + 1, Run::Space);
        assert(forall|j: int| o < j < r ==> same_run(t[o], #[trigger] t[j]));
        assert(run_then_space(t, o, r, r));
    } else {
        assert(run_then_space(t, o, o + 1, r));
    }
}

} // verus!

verus! {

/// A char that a jump passes over between words: whitespace that is neither a letter,
/// a digit nor punctuation.
pub open spec fn blank(c: char) -> bool {
    !alphanumeric(c) && !punctuation(c) && whitespace(c)
}

/// `skip_backward` stops at the first char before `i`, going back, that is not in the
/// run.
pub proof fn lemma_skip_backward_stops(t: Seq<char>, i: int, run: Run)
    requires
        0 <= i <= t.len(),
    ensures
        0 <= skip_backward(t, i, run) <= i,
        forall|j: int| skip_backward(t, i, run) <= j < i ==> in_run(run, #[trigger] t[j]),
        skip_backward(t, i, run) > 0 ==> !in_run(run, t[skip_backward(t, i, run) - 1]),
    decreases i,
{
    lemma_skip_backward(t, i, run);
    if 0 < i && in_run(run, t[i - 1]) {
        lemma_skip_backward_stops(t, i - 1, run);
    }
}

/// Going back from `o`, the chars from `p` to `o` are blanks and the one before `p` is
/// not; `r` is where the run before `p` starts: every char from `r` to `p` belongs to
/// the run of the char before `p`, and the char before `r` does not; a char of no run
/// is a run of its own.
pub open spec fn back_over_blanks_and_run(t: Seq<char>, o: int, p: int, r: int) -> bool {
    &&& 0 <= r <= p <= o
    &&& forall|j: int| p <= j < o ==> blank(#[trigger] t[j])
    &&& (p == 0 || !blank(t[p - 1]))
    &&& p == 0 ==> r == 0
    &&& p > 0 ==> r < p
    &&& p > 0 && !(alphanumeric(t[p - 1]) || punctuation(t[p - 1])) ==> r == p - 1
    &&& p > 0 && (alphanumeric(t[p - 1]) || punctuation(t[p - 1])) ==> forall|j: int|
        r <= j < p ==> same_run(t[p - 1], #[trigger] t[j])
    &&& p > 0 && r > 0 && (alphanumeric(t[p - 1]) || punctuation(t[p - 1])) ==> !same_run(
        t[p - 1],
        t[r - 1],
    )
}

/// A jump to the start of the nearest word goes back from `o` over the blanks before
/// it, then to the first char of the run before them; it never lands after `o`.
pub proof fn law_word_start(t: Seq<char>, o: int)
    requires
        0 <= o <= t.len(),
    ensures
        word_start(t, o) <= o,
        exists|p: int| #[trigger] back_over_blanks_and_run(t, o, p, word_start(t, o)),
{
    let p = skip_backward(t, o, Run::Blank);
    lemma_skip_backward_stops(t, o, Run::Blank);
    let r = word_start(t, o);
    if p > 0 {
        let c = t[p - 1];
        if alphanumeric(c) {
            lemma_skip_backward_stops(t, p - 1, Run::Word);
            assert(forall|j: int| r <= j < p ==> same_run(t[p - 1], #[trigger] t[j]));
        } else if punctuation(c) {
            lemma_skip_backward_stops(t, p - 1, Run::Punctuation);
            assert(forall|j: int| r <= j < p ==> same_run(t[p - 1], #[trigger] t[j]));
        }
    }
    assert(back_over_blanks_and_run(t, o, p, r));
}

/// Going on from `o`, the chars between `o` and `q` are blanks and the one at `q` is
/// not; `r` is the last char of the run from `q`, or the end of the text where that
/// run reaches it; a char of no run is a run of its own.
pub open spec fn on_over_blanks_and_run(t: Seq<char>, o: int, q: int, r: int) -> bool {
    &&& o < q <= t.len()
    &&& forall|j: int| o < j < q ==> blank(#[trigger] t[j])
    &&& q < t.len() ==> !blank(t[q])
    &&& q >= t.len() ==> r == t.len()
    &&& q < t.len() && !(alphanumeric(t[q]) || punctuation(t[q])) ==> r == q
    &&& q < t.len() && (alphanumeric(t[q]) || punctuation(t[q])) ==> {
        &&& q <= r <= t.len()
        &&& forall|j: int| q <= j <= r && j < t.len() ==> same_run(t[q], #[trigger] t[j])
        &&& r + 1 < t.len() ==> !same_run(t[q], t[r + 1])
        &&& r < t.len() - 1 || r == t.len()
    }
}

/// A jump to the end of the nearest word goes on from `o` over the blanks after it to
/// the run that follows them, and lands on its last char, or at the end of the text
/// where that run reaches it; it never lands before `o`.
pub proof fn law_word_end(t: Seq<char>, o: int)
    requires
        0 <= o < t.len(),
    ensures
        o < word_end(t, o) <= t.len(),
        exists|q: int| #[trigger] on_over_blanks_and_run(t, o, q, word_end(t, o)),
{
    let q = skip_forward(t, o + 1, Run::Blank);
    lemma_skip_forward_stops(t, o + 1, Run::Blank);
    let r = word_end(t, o);
    if q < t.len() {
        if alphanumeric(t[q]) {
            lemma_skip_forward_stops(t, q + 1, Run::Word);
            assert(forall|j: int| q <= j <= r && j < t.len() ==> same_run(t[q], #[trigger] t[j]));
        } else if punctuation(t[q]) {
            lemma_skip_forward_stops(t, q + 1, Run::Punctuation);
            assert(forall|j: int| q <= j <= r && j < t.len() ==> same_run(t[q], #[trigger] t[j]));
        }
    }
    assert(on_over_blanks_and_run(t, o, q, r));
}

/// A move left stays on the cursor's line and goes back one column, stopping at the
/// first; a move right stays on the line and goes on one column only onto a char of
/// the line that is not its line feed.
pub proof fn law_horizontal_move(t: Seq<char>, cursor: Point)
    requires
        cursor.column < usize::MAX,
    ensures
        ({
            let l = moved(t, cursor, Direction::Left);
            &&& l.line == cursor.line
            &&& l.column == (if cursor.column > 0 { cursor.column - 1 } else { 0 })
        }),
        ({
            let r = moved(t, cursor, Direction::Right);
            &&& r.line == cursor.line
            &&& r.column == cursor.column || r.column == cursor.column + 1
            &&& r.column == cursor.column + 1 ==> r.column < line_len(t, cursor.line as int)
                && t[line_start(t, cursor.line as int) + r.column] != '\n'
            &&& (cursor.column + 1 < line_len(t, cursor.line as int) && t[line_start(
                t,
                cursor.line as int,
            ) + cursor.column + 1] != '\n') ==> r.column == cursor.column + 1
        }),
{
}

} // verus!
