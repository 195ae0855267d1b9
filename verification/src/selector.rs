//! A list of entries to pick from by a typed query: the query with its cursor, and the
//! focused entry.
use vstd::prelude::*;

use crate::point::Point;

verus! {

#[derive(Debug, Clone, Copy, PartialEq, Eq, Structural)]
pub enum Mode {
    Single,
}

#[derive(Debug, Clone, Copy, PartialEq, Eq, Structural)]
pub enum Direction {
    Next,
    Prev,
}

#[derive(Debug, Clone, PartialEq, Eq)]
pub enum Command<Id> {
    Focus(Direction),
    Delete(Direction),
    Insert(char),
    SetEntries(Vec<Id>),
}

/// Identifies an entry.
pub type EntryId = u64;

/// The query typed so far, its cursor, the entries shown and the focused one.
#[derive(Debug)]
pub struct Selector {
    pub query_prefix: &'static str,
    pub query: Vec<char>,
    pub cursor: Point,
    pub entries: Vec<EntryId>,
    pub focused: Option<EntryId>,
}

/// The entry that focus moves to from `focused` in `direction`: the neighbour of the
/// first entry equal to `focused`; no move where there is no such entry or neighbour.
pub open spec fn focus_target(entries: Seq<EntryId>, focused: Option<EntryId>, direction: Direction) -> Option<EntryId> {
    match focused {
        None => focused,
        Some(f) => match entries.index_of_first(f) {
            None => focused,
            Some(i) => match direction {
                Direction::Prev => if i > 0 {
                    Some(entries[i - 1])
                } else {
                    focused
                },
                Direction::Next => if i + 1 < entries.len() {
                    Some(entries[i + 1])
                } else {
                    focused
                },
            },
        },
    }
}

/// The commands that run without a panic: deletion stays within the query.
pub open spec fn command_ok(s: Selector, command: Command<EntryId>) -> bool {
    match command {
        Command::Insert(_) => s.cursor.column <= s.query.len() && s.cursor.column < usize::MAX,
        Command::Delete(Direction::Next) => s.cursor.column < s.query.len(),
        Command::Delete(Direction::Prev) => 0 < s.cursor.column <= s.query.len(),
        _ => true,
    }
}

impl Selector {
    pub fn new(query_prefix: &'static str) -> (r: Selector)
        ensures
            r.query_prefix == query_prefix,
            r.query@ == Seq::<char>::empty(),
            r.cursor == (Point { line: 0, column: 0 }),
            r.entries@ == Seq::<EntryId>::empty(),
            r.focused is None,
    {
        let query = Vec::new();
        let cursor = Point { line: 0, column: 0 };
        let focused = None;
        let entries = Vec::new();
        Selector { query_prefix, query, cursor, entries, focused }
    }

    pub fn command(&mut self, command: Command<EntryId>)
        requires
            command_ok(*old(self), command),
        ensures
            final(self).query_prefix == old(self).query_prefix,
            match command {
                Command::Focus(dir) => {
                    &&& final(self).focused == focus_target(
                        old(self).entries@,
                        old(self).focused,
                        dir,
                    )
                    &&& final(self).query@ == old(self).query@
                    &&& final(self).cursor == old(self).cursor
                    &&& final(self).entries@ == old(self).entries@
                },
                Command::Delete(dir) => {
                    &&& final(self).query@ == old(self).query@.remove(
                        match dir {
                            Direction::Next => old(self).cursor.column as int,
                            Direction::Prev => old(self).cursor.column - 1,
                        },
                    )
                    &&& final(self).cursor.column == if old(self).cursor.column > 0 {
                        old(self).cursor.column - 1
                    } else {
                        0
                    }
                    &&& final(self).cursor.line == old(self).cursor.line
                    &&& final(self).entries@ == old(self).entries@
                    &&& final(self).focused == old(self).focused
                },
                Command::Insert(c) => {
                    &&& final(self).query@ == old(self).query@.insert(
                        old(self).cursor.column as int,
                        c,
                    )
                    &&& final(self).cursor.column == old(self).cursor.column + 1
                    &&& final(self).cursor.line == old(self).cursor.line
                    &&& final(self).entries@ == old(self).entries@
                    &&& final(self).focused == old(self).focused
                },
                Command::SetEntries(es) => {
                    &&& final(self).entries@ == es@
                    &&& final(self).query@ == old(self).query@
                    &&& final(self).cursor == old(self).cursor
                    &&& final(self).focused == old(self).focused
                },
            },
    {
        match command {
            Command::Focus(dir) => self.focus(dir),
            Command::Delete(dir) => self.delete(dir),
            Command::Insert(c) => self.insert(c),
            Command::SetEntries(es) => self.set_entries(es),
        }
    }

    /// Inserts `c` at the cursor and moves the cursor past it.
    pub fn insert(&mut self, c: char)
        requires
            old(self).cursor.column <= old(self).query.len(),
            old(self).cursor.column < usize::MAX,
        ensures
            final(self).query@ == old(self).query@.insert(old(self).cursor.column as int, c),
            final(self).cursor.column == old(self).cursor.column + 1,
            final(self).cursor.line == old(self).cursor.line,
            final(self).entries == old(self).entries,
            final(self).focused == old(self).focused,
            final(self).query_prefix == old(self).query_prefix,
    {
        if self.cursor.column == self.query.len() {
            self.query.push(c);
        } else {
            self.query.insert(self.cursor.column, c);
        }
        self.cursor.move_next_column();
    }

    /// Deletes the char after the cursor, or the one before it, and moves the cursor
    /// back a column either way.
    fn delete(&mut self, dir: Direction)
        requires
            match dir {
                Direction::Next => old(self).cursor.column < old(self).query.len(),
                Direction::Prev => 0 < old(self).cursor.column <= old(self).query.len(),
            },
        ensures
            final(self).query@ == old(self).query@.remove(
                match dir {
                    Direction::Next => old(self).cursor.column as int,
                    Direction::Prev => old(self).cursor.column - 1,
                },
            ),
            final(self).cursor.column == if old(self).cursor.column > 0 {
                old(self).cursor.column - 1
            } else {
                0
            },
            final(self).cursor.line == old(self).cursor.line,
            final(self).entries == old(self).entries,
            final(self).focused == old(self).focused,
            final(self).query_prefix == old(self).query_prefix,
    {
        let at = match dir {
            Direction::Next => self.cursor.column,
            Direction::Prev => self.cursor.column - 1,
        };
        self.query.remove(at);
        self.cursor.move_prev_column();
    }

    /// Moves the focus to the neighbour of the focused entry.
    fn focus(&mut self, direction: Direction)
        ensures
            final(self).focused == focus_target(old(self).entries@, old(self).focused, direction),
            final(self).query == old(self).query,
            final(self).cursor == old(self).cursor,
            final(self).entries == old(self).entries,
            final(self).query_prefix == old(self).query_prefix,
    {
        let mut prev: Option<EntryId> = None;
        let mut i: usize = 0;
        let len = self.entries.len();
        while i < len
            invariant
                len == self.entries.len(),
                i <= len,
                self.focused == old(self).focused,
                self.entries == old(self).entries,
                self.query == old(self).query,
                self.cursor == old(self).cursor,
                self.query_prefix == old(self).query_prefix,
                prev == if i == 0 {
                    None
                } else {
                    Some(self.entries@[i - 1])
                },
                forall|j: int| 0 <= j < i ==> Some(#[trigger] self.entries@[j]) != self.focused,
            decreases len - i,
        {
            let res = self.entries[i];
            if Some(res) == self.focused {
                proof {
                    let s = self.entries@;
                    s.index_of_first_ensures(res);
                }
                let focused = match direction {
                    Direction::Prev => prev,
                    Direction::Next => if i + 1 < len {
                        Some(self.entries[i + 1])
                    } else {
                        None
                    },
                };
                if focused.is_some() {
                    self.focused = focused;
                }
                return ;
            }
            prev = Some(res);
            i += 1;
        }
        proof {
            let s = self.entries@;
            if let Some(f) = self.focused {
                s.index_of_first_ensures(f);
            }
        }
    }

    pub fn set_entries(&mut self, entries: Vec<EntryId>)
        ensures
            final(self).entries == entries,
            final(self).query == old(self).query,
            final(self).cursor == old(self).cursor,
            final(self).focused == old(self).focused,
            final(self).query_prefix == old(self).query_prefix,
    {
        self.entries = entries;
    }
}

/// Deleting back over a char just typed gives back the query and the cursor as they
/// were.
pub proof fn law_delete_prev_undoes_insert(query: Seq<char>, column: int, c: char)
    requires
        0 <= column <= query.len(),
    ensures
        query.insert(column, c).remove(column) == query,
{
    assert(query.insert(column, c).remove(column) =~= query);
}

} // verus!
