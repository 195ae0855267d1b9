//! An editor whose cursor walks the bytes of a rope: the keys of its two modes, and the
//! moves and jumps of its cursor.
use vstd::prelude::*;

use crate::app::{KeyCode, KeyEvent};
use crate::cursor::Cursor;
use crate::editor::BufferId;
use crate::rope::Rope;

verus! {

#[derive(Debug, Clone, Copy, PartialEq, Eq, Structural)]
pub enum Direction {
    Up,
    Down,
    Left,
    Right,
}

#[derive(Debug, Clone, Copy, PartialEq, Eq, Structural)]
pub enum CursorJump {
    ForwardEndWord,
    ForwardNextWord,
}

#[derive(Debug, Clone, Copy, PartialEq, Eq, Structural)]
pub enum Mode {
    Normal,
    Insert,
}

#[derive(Debug, Clone, Copy, PartialEq, Eq, Structural)]
pub enum Command {
    ModeSet(Mode),
    CursorMove(Direction),
    CursorJump(CursorJump),
    Insert(char),
}

/// What an editor asks of the application.
#[derive(Debug, Clone, Copy, PartialEq, Eq, Structural)]
pub enum Request {
    /// Insert a char into the editor's buffer.
    BufferInsert(BufferId, char),
}

/// A space or a line feed, where a word ends.
pub open spec fn word_break(b: u8) -> bool {
    b == 0x20 || b == 0x0a
}

/// The first offset from `i` on whose byte ends a word, or the end of `t`.
pub open spec fn word_end_from(t: Seq<u8>, i: int) -> int
    decreases t.len() - i,
{
    if 0 <= i < t.len() && !word_break(t[i]) {
        word_end_from(t, i + 1)
    } else {
        i
    }
}

/// The first offset from `i` on whose byte is not a space, or the end of `t`.
pub open spec fn skip_spaces(t: Seq<u8>, i: int) -> int
    decreases t.len() - i,
{
    if 0 <= i < t.len() && t[i] == 0x20 {
        skip_spaces(t, i + 1)
    } else {
        i
    }
}

pub proof fn lemma_word_end_from(t: Seq<u8>, i: int)
    requires
        0 <= i <= t.len(),
    ensures
        i <= word_end_from(t, i) <= t.len(),
    decreases t.len() - i,
{
    if i < t.len() && !word_break(t[i]) {
        lemma_word_end_from(t, i + 1);
    }
}

/// The command a key stands for in `mode`.
pub open spec fn binding(mode: Mode, code: KeyCode) -> Option<Command> {
    match mode {
        Mode::Normal => match code {
            KeyCode::Up => Some(Command::CursorMove(Direction::Up)),
            KeyCode::Down => Some(Command::CursorMove(Direction::Down)),
            KeyCode::Left => Some(Command::CursorMove(Direction::Left)),
            KeyCode::Right => Some(Command::CursorMove(Direction::Right)),
            KeyCode::Char('w') => Some(Command::CursorJump(CursorJump::ForwardNextWord)),
            KeyCode::Char('e') => Some(Command::CursorJump(CursorJump::ForwardEndWord)),
            KeyCode::Char('i') => Some(Command::ModeSet(Mode::Insert)),
            _ => None,
        },
        Mode::Insert => match code {
            KeyCode::Esc => Some(Command::ModeSet(Mode::Normal)),
            KeyCode::Up => Some(Command::CursorMove(Direction::Up)),
            KeyCode::Down => Some(Command::CursorMove(Direction::Down)),
            KeyCode::Left => Some(Command::CursorMove(Direction::Left)),
            KeyCode::Right => Some(Command::CursorMove(Direction::Right)),
            KeyCode::Char(c) => Some(Command::Insert(c)),
            _ => None,
        },
    }
}

/// An editor of a buffer, with a cursor over its bytes.
pub struct Editor {
    pub buffer_id: BufferId,
    pub mode: Mode,
    pub cursor: Cursor,
}

impl Editor {
    pub open spec fn wf(&self) -> bool {
        self.cursor.wf()
    }

    /// The offset of the cursor after a move in `direction`, or the jump `jump`.
    pub open spec fn moved(t: Seq<u8>, i: int, direction: Direction) -> int {
        match direction {
            Direction::Left => if i > 0 && t[i - 1] != 0x0a {
                i - 1
            } else {
                i
            },
            Direction::Right => if i < t.len() && t[i] != 0x0a {
                i + 1
            } else {
                i
            },
            _ => i,
        }
    }

    pub open spec fn jumped(t: Seq<u8>, i: int, jump: CursorJump) -> int {
        match jump {
            CursorJump::ForwardEndWord => word_end_from(t, i),
            CursorJump::ForwardNextWord => skip_spaces(t, word_end_from(t, i)),
        }
    }

    /// An editor in normal mode with its cursor at the start of `contents`.
    pub fn new_contents(buffer_id: BufferId, contents: Rope) -> (r: Editor)
        ensures
            r.wf(),
            r.buffer_id == buffer_id,
            r.mode == Mode::Normal,
            r.cursor.text() == contents@,
            r.cursor.index() == 0,
    {
        let cursor = contents.cursor();
        Editor { buffer_id, mode: Mode::Normal, cursor }
    }

    /// The command `key` stands for in the editor's mode.
    pub fn process_key(&self, key: KeyEvent) -> (r: Option<Command>)
        ensures
            r == binding(self.mode, key.code),
    {
        match self.mode {
            Mode::Normal => match key.code {
                KeyCode::Up => Some(Command::CursorMove(Direction::Up)),
                KeyCode::Down => Some(Command::CursorMove(Direction::Down)),
                KeyCode::Left => Some(Command::CursorMove(Direction::Left)),
                KeyCode::Right => Some(Command::CursorMove(Direction::Right)),
                KeyCode::Char('w') => Some(Command::CursorJump(CursorJump::ForwardNextWord)),
                KeyCode::Char('e') => Some(Command::CursorJump(CursorJump::ForwardEndWord)),
                KeyCode::Char('i') => Some(Command::ModeSet(Mode::Insert)),
                _ => None,
            },
            Mode::Insert => match key.code {
                KeyCode::Esc => Some(Command::ModeSet(Mode::Normal)),
                KeyCode::Up => Some(Command::CursorMove(Direction::Up)),
                KeyCode::Down => Some(Command::CursorMove(Direction::Down)),
                KeyCode::Left => Some(Command::CursorMove(Direction::Left)),
                KeyCode::Right => Some(Command::CursorMove(Direction::Right)),
                KeyCode::Char(c) => Some(Command::Insert(c)),
                _ => None,
            },
        }
    }

    /// Carries out `command`; an insertion is asked of the application.
    pub fn command(&mut self, command: &Command) -> (r: Option<Request>)
        requires
            old(self).wf(),
            *command != Command::CursorMove(Direction::Up),
            *command != Command::CursorMove(Direction::Down),
        ensures
            final(self).wf(),
            final(self).buffer_id == old(self).buffer_id,
            final(self).cursor.text() == old(self).cursor.text(),
            final(self).mode == match *command {
                Command::ModeSet(m) => m,
                _ => old(self).mode,
            },
            final(self).cursor.index() == match *command {
                Command::CursorMove(d) => Self::moved(
                    old(self).cursor.text(),
                    old(self).cursor.index() as int,
                    d,
                ),
                Command::CursorJump(j) => Self::jumped(
                    old(self).cursor.text(),
                    old(self).cursor.index() as int,
                    j,
                ),
                _ => old(self).cursor.index() as int,
            },
            r == match *command {
                Command::Insert(c) => Some(Request::BufferInsert(old(self).buffer_id, c)),
                _ => None,
            },
    {
        match command {
            Command::ModeSet(mode) => self.mode = *mode,
            Command::CursorMove(direction) => match direction {
                Direction::Left => self.cursor_move_left(),
                Direction::Right => self.cursor_move_right(),
                _ => {},
            },
            Command::CursorJump(jump) => match jump {
                CursorJump::ForwardEndWord => self.cursor_jump_forward_word_end(),
                CursorJump::ForwardNextWord => self.cursor_jump_forward_word_next(),
            },
            Command::Insert(c) => {
                return Some(Request::BufferInsert(self.buffer_id, *c));
            },
        };
        None
    }

    /// Moves back a byte, but not back over a line feed.
    fn cursor_move_left(&mut self)
        requires
            old(self).wf(),
        ensures
            final(self).wf(),
            final(self).buffer_id == old(self).buffer_id,
            final(self).mode == old(self).mode,
            final(self).cursor.text() == old(self).cursor.text(),
            final(self).cursor.index() == Self::moved(
                old(self).cursor.text(),
                old(self).cursor.index() as int,
                Direction::Left,
            ),
    {
        proof {
            self.cursor.lemma_index();
        }
        if self.cursor.len() == 0 {
            return ;
        }
        if let Some(0x0au8) = self.cursor.prev_byte() {
            self.cursor.next_byte();
        }
    }

    /// Moves on a byte, but not over a line feed.
    fn cursor_move_right(&mut self)
        requires
            old(self).wf(),
        ensures
            final(self).wf(),
            final(self).buffer_id == old(self).buffer_id,
            final(self).mode == old(self).mode,
            final(self).cursor.text() == old(self).cursor.text(),
            final(self).cursor.index() == Self::moved(
                old(self).cursor.text(),
                old(self).cursor.index() as int,
                Direction::Right,
            ),
    {
        proof {
            self.cursor.lemma_index();
        }
        if self.cursor.len() == 0 {
            return ;
        }
        if let Some(0x0au8) = self.cursor.next_byte() {
            self.cursor.prev_byte();
        }
    }

    /// Moves on to the next space or line feed.
    fn cursor_jump_forward_word_end(&mut self)
        requires
            old(self).wf(),
        ensures
            final(self).wf(),
            final(self).buffer_id == old(self).buffer_id,
            final(self).mode == old(self).mode,
            final(self).cursor.text() == old(self).cursor.text(),
            final(self).cursor.index() == word_end_from(
                old(self).cursor.text(),
                old(self).cursor.index() as int,
            ),
    {
        proof {
            self.cursor.lemma_index();
        }
        if self.cursor.len() == 0 {
            return ;
        }
        let ghost t = self.cursor.text();
        let ghost target = word_end_from(t, self.cursor.index() as int);
        proof {
            lemma_word_end_from(t, self.cursor.index() as int);
        }
        loop
            invariant
                self.cursor.wf(),
                self.cursor.text() == t,
                t.len() > 0,
                self.buffer_id == old(self).buffer_id,
                self.mode == old(self).mode,
                self.cursor.index() <= target,
                word_end_from(t, self.cursor.index() as int) == target,
            ensures
                self.cursor.wf(),
                self.cursor.text() == t,
                self.buffer_id == old(self).buffer_id,
                self.mode == old(self).mode,
                self.cursor.index() == target,
            decreases t.len() - self.cursor.index(),
        {
            proof {
                self.cursor.lemma_index();
            }
            match self.cursor.next_byte() {
                None => break,
                Some(0x20u8) | Some(0x0au8) => {
                    self.cursor.prev_byte();
                    break;
                },
                _ => {
                    proof {
                        lemma_word_end_from(t, self.cursor.index() as int);
                    }
                },
            }
        }
    }

    /// Moves on past the next word end and the spaces after it.
    fn cursor_jump_forward_word_next(&mut self)
        requires
            old(self).wf(),
        ensures
            final(self).wf(),
            final(self).buffer_id == old(self).buffer_id,
            final(self).mode == old(self).mode,
            final(self).cursor.text() == old(self).cursor.text(),
            final(self).cursor.index() == skip_spaces(
                old(self).cursor.text(),
                word_end_from(old(self).cursor.text(), old(self).cursor.index() as int),
            ),
    {
        self.cursor_jump_forward_word_end();
        proof {
            self.cursor.lemma_index();
        }
        if self.cursor.len() == 0 {
            return ;
        }
        let ghost t = self.cursor.text();
        let ghost target = skip_spaces(t, self.cursor.index() as int);
        loop
            invariant
                self.cursor.wf(),
                self.cursor.text() == t,
                t.len() > 0,
                self.buffer_id == old(self).buffer_id,
                self.mode == old(self).mode,
                skip_spaces(t, self.cursor.index() as int) == target,
            ensures
                self.cursor.wf(),
                self.cursor.text() == t,
                self.buffer_id == old(self).buffer_id,
                self.mode == old(self).mode,
                self.cursor.index() == target,
            decreases t.len() - self.cursor.index(),
        {
            proof {
                self.cursor.lemma_index();
            }
            match self.cursor.next_byte() {
                None => break,
                Some(0x20u8) => {},
                _ => {
                    self.cursor.prev_byte();
                    break;
                },
            }
        }
    }
}

} // verus!
