//! The decisions of the application: which command a key stands for in the focused
//! pane, which panes are visible and focused, and what a command does to the panes,
//! editors and buffers.
use vstd::prelude::*;

use std::collections::HashMap;

use crate::buffer::Contents;
use crate::editor::{self, command_ok, text_after, BufferId, CursorJump, Editor, EditorId};
use crate::selector;

verus! {

/// The command line: the files to open.
#[derive(Debug, Clone, PartialEq, Eq)]
pub struct Args {
    pub paths: Option<Vec<String>>,
}

/// Identifies a pane.
pub type PaneId = u64;

/// Identifies a registered command.
pub type CommandId = u64;

#[derive(Debug, Clone, Copy, PartialEq, Eq, Structural)]
pub enum PaneCommand {
    Open,
    Close,
}

#[derive(Debug, Clone, Copy, PartialEq, Eq, Structural)]
pub enum Pane {
    Commands(PaneId),
    Editor(PaneId, EditorId),
}

impl Pane {
    pub fn id(&self) -> (r: PaneId)
        ensures
            r == match self {
                Pane::Commands(id) => *id,
                Pane::Editor(id, _) => *id,
            },
    {
        match self {
            Pane::Commands(id) => *id,
            Pane::Editor(id, ..) => *id,
        }
    }

    pub fn new_editor(id: PaneId, editor_id: EditorId) -> (r: Pane)
        ensures
            r == Pane::Editor(id, editor_id),
    {
        Pane::Editor(id, editor_id)
    }

    pub fn new_commands(id: PaneId) -> (r: Pane)
        ensures
            r == Pane::Commands(id),
    {
        Pane::Commands(id)
    }
}

/// What the application is asked to do.
#[derive(Debug, Clone, PartialEq, Eq)]
pub enum Command {
    Quit,
    FileOpen(Option<EditorId>, String),
    Pane(PaneId, PaneCommand),
    Editor(EditorId, editor::Command),
    FocusedEditor(editor::Command),
    Commands(selector::Command<CommandId>),
}

/// The key of a key press.
#[derive(Debug, Clone, Copy, PartialEq, Eq, Structural)]
pub enum KeyCode {
    Backspace,
    Enter,
    Left,
    Right,
    Up,
    Down,
    Esc,
    Char(char),
    /// Any other key.
    Other,
}

/// The modifier bit of the control key.
pub const CONTROL: u8 = 0b0000_0010;

/// A key press: the key and the modifier keys held, one bit each.
#[derive(Debug, Clone, Copy, PartialEq, Eq, Structural)]
pub struct KeyEvent {
    pub code: KeyCode,
    pub modifiers: u8,
}

/// The command a key stands for in the commands pane.
pub open spec fn commands_binding(key: KeyEvent, focused: Option<Command>) -> Option<Command> {
    match key.code {
        KeyCode::Up => Some(Command::Commands(selector::Command::Focus(selector::Direction::Prev))),
        KeyCode::Down => Some(
            Command::Commands(selector::Command::Focus(selector::Direction::Next)),
        ),
        KeyCode::Backspace => Some(
            Command::Commands(selector::Command::Delete(selector::Direction::Prev)),
        ),
        KeyCode::Enter => focused,
        KeyCode::Char(c) => if key.modifiers == CONTROL && c == 'p' {
            Some(Command::Commands(selector::Command::Focus(selector::Direction::Prev)))
        } else if key.modifiers == CONTROL && c == 'n' {
            Some(Command::Commands(selector::Command::Focus(selector::Direction::Next)))
        } else {
            Some(Command::Commands(selector::Command::Insert(c)))
        },
        _ => None,
    }
}

/// The editor command a key stands for in `mode`.
pub open spec fn editor_binding(mode: editor::Mode, code: KeyCode) -> Option<editor::Command> {
    match mode {
        editor::Mode::Normal => match code {
            KeyCode::Up | KeyCode::Char('k') => Some(
                editor::Command::CursorMove(editor::Direction::Up),
            ),
            KeyCode::Down | KeyCode::Char('j') => Some(
                editor::Command::CursorMove(editor::Direction::Down),
            ),
            KeyCode::Left | KeyCode::Char('h') => Some(
                editor::Command::CursorMove(editor::Direction::Left),
            ),
            KeyCode::Right | KeyCode::Char('l') => Some(
                editor::Command::CursorMove(editor::Direction::Right),
            ),
            KeyCode::Char('w') => Some(editor::Command::CursorJump(CursorJump::StartOfNextWord)),
            KeyCode::Char('e') => Some(editor::Command::CursorJump(CursorJump::EndOfNearestWord)),
            KeyCode::Char('b') => Some(
                editor::Command::CursorJump(CursorJump::StartOfNearestWord),
            ),
            KeyCode::Char('0') => Some(
                editor::Command::CursorJump(CursorJump::StartOfNearestWord),
            ),
            KeyCode::Char('i') => Some(editor::Command::SetMode(editor::Mode::Insert)),
            _ => None,
        },
        editor::Mode::Insert => match code {
            KeyCode::Esc => Some(editor::Command::SetMode(editor::Mode::Normal)),
            KeyCode::Up => Some(editor::Command::CursorMove(editor::Direction::Up)),
            KeyCode::Down => Some(editor::Command::CursorMove(editor::Direction::Down)),
            KeyCode::Left => Some(editor::Command::CursorMove(editor::Direction::Left)),
            KeyCode::Right => Some(editor::Command::CursorMove(editor::Direction::Right)),
            KeyCode::Char(c) => Some(editor::Command::InsertChar(c)),
            _ => None,
        },
    }
}

/// The command a key stands for in the editor pane of `editor_id`: its editor command,
/// or, in normal mode, `:` opens the commands pane.
pub open spec fn editor_pane_binding(
    editor_id: EditorId,
    mode: editor::Mode,
    commands_pane_id: PaneId,
    code: KeyCode,
) -> Option<Command> {
    match editor_binding(mode, code) {
        Some(c) => Some(Command::Editor(editor_id, c)),
        None => if mode == editor::Mode::Normal && code == KeyCode::Char(':') {
            Some(Command::Pane(commands_pane_id, PaneCommand::Open))
        } else {
            None
        },
    }
}

/// The command `key` stands for in the focused pane. `focused` is the command focused in
/// the commands pane, which Enter picks; `editor_mode` is the mode of the focused
/// editor.
pub fn process_key(
    focused_pane: Pane,
    editor_mode: editor::Mode,
    commands_pane_id: PaneId,
    focused: Option<Command>,
    key: KeyEvent,
) -> (r: Option<Command>)
    ensures
        r == match focused_pane {
            Pane::Commands(_) => commands_binding(key, focused),
            Pane::Editor(_, editor_id) => editor_pane_binding(
                editor_id,
                editor_mode,
                commands_pane_id,
                key.code,
            ),
        },
{
    match focused_pane {
        Pane::Commands(_) => match key.code {
            KeyCode::Up => Some(
                Command::Commands(selector::Command::Focus(selector::Direction::Prev)),
            ),
            KeyCode::Down => Some(
                Command::Commands(selector::Command::Focus(selector::Direction::Next)),
            ),
            KeyCode::Backspace => Some(
                Command::Commands(selector::Command::Delete(selector::Direction::Prev)),
            ),
            KeyCode::Enter => focused,
            KeyCode::Char(c) => {
                let ctrl = key.modifiers == CONTROL;
                if ctrl && c == 'p' {
                    Some(Command::Commands(selector::Command::Focus(selector::Direction::Prev)))
                } else if ctrl && c == 'n' {
                    Some(Command::Commands(selector::Command::Focus(selector::Direction::Next)))
                } else {
                    Some(Command::Commands(selector::Command::Insert(c)))
                }
            },
            _ => None,
        },
        Pane::Editor(_, editor_id) => {
            let command = match editor_mode {
                editor::Mode::Normal => match key.code {
                    KeyCode::Up | KeyCode::Char('k') => Some(
                        editor::Command::CursorMove(editor::Direction::Up),
                    ),
                    KeyCode::Down | KeyCode::Char('j') => Some(
                        editor::Command::CursorMove(editor::Direction::Down),
                    ),
                    KeyCode::Left | KeyCode::Char('h') => Some(
                        editor::Command::CursorMove(editor::Direction::Left),
                    ),
                    KeyCode::Right | KeyCode::Char('l') => Some(
                        editor::Command::CursorMove(editor::Direction::Right),
                    ),
                    KeyCode::Char('w') => Some(
                        editor::Command::CursorJump(CursorJump::StartOfNextWord),
                    ),
                    KeyCode::Char('e') => Some(
                        editor::Command::CursorJump(CursorJump::EndOfNearestWord),
                    ),
                    KeyCode::Char('b') => Some(
                        editor::Command::CursorJump(CursorJump::StartOfNearestWord),
                    ),
                    KeyCode::Char('0') => Some(
                        editor::Command::CursorJump(CursorJump::StartOfNearestWord),
                    ),
                    KeyCode::Char('i') => Some(editor::Command::SetMode(editor::Mode::Insert)),
                    _ => None,
                },
                editor::Mode::Insert => match key.code {
                    KeyCode::Esc => Some(editor::Command::SetMode(editor::Mode::Normal)),
                    KeyCode::Up => Some(editor::Command::CursorMove(editor::Direction::Up)),
                    KeyCode::Down => Some(editor::Command::CursorMove(editor::Direction::Down)),
                    KeyCode::Left => Some(editor::Command::CursorMove(editor::Direction::Left)),
                    KeyCode::Right => Some(
                        editor::Command::CursorMove(editor::Direction::Right),
                    ),
                    KeyCode::Char(c) => Some(editor::Command::InsertChar(c)),
                    _ => None,
                },
            };
            match command {
                Some(c) => Some(Command::Editor(editor_id, c)),
                None => match editor_mode {
                    editor::Mode::Normal => match key.code {
                        KeyCode::Char(':') => Some(
                            Command::Pane(commands_pane_id, PaneCommand::Open),
                        ),
                        _ => None,
                    },
                    _ => None,
                },
            }
        },
    }
}

/// The panes on screen, in the order they were focused, and the focused one.
#[derive(Debug)]
pub struct Panes {
    pub visible: Vec<PaneId>,
    pub focused: PaneId,
}

impl Panes {
    /// Brings `pane_id` to the top of the visible panes and focuses it.
    pub fn focus_pane(&mut self, pane_id: PaneId)
        ensures
            final(self).focused == pane_id,
            final(self).visible@ == old(self).visible@.remove_value(pane_id).push(pane_id),
    {
        let mut i: usize = 0;
        while i < self.visible.len() && self.visible[i] != pane_id
            invariant
                i <= self.visible.len(),
                self.visible@ == old(self).visible@,
                forall|j: int| 0 <= j < i ==> self.visible@[j] != pane_id,
            decreases self.visible.len() - i,
        {
            i += 1;
        }
        let found = i < self.visible.len();
        if found {
            proof {
                let s = self.visible@;
                assert(s.index_of_first(pane_id) == Some(i as int)) by {
                    s.index_of_first_ensures(pane_id);
                }
                assert(s.remove_value(pane_id) == s.remove(i as int));
            }
            self.visible.remove(i);
        } else {
            proof {
                let s = self.visible@;
                assert(!s.contains(pane_id));
                s.index_of_first_ensures(pane_id);
            }
        }
        self.visible.push(pane_id);
        self.focused = pane_id;
    }

    /// Focuses the top visible pane.
    pub fn restore_focus_to_last_pane(&mut self)
        requires
            old(self).visible@.len() > 0,
        ensures
            final(self).visible@ == old(self).visible@,
            final(self).focused == old(self).visible@.last(),
    {
        let last = self.visible[self.visible.len() - 1];
        self.focused = last;
    }

    /// The pane that a command for the focused editor goes to: the focused pane, or,
    /// while the commands pane is focused, the pane under it.
    pub fn focused_editor_pane(&self, commands_focused: bool) -> (r: PaneId)
        requires
            commands_focused ==> self.visible@.len() > 1,
        ensures
            r == if commands_focused {
                self.visible@[self.visible@.len() - 2]
            } else {
                self.focused
            },
    {
        if commands_focused {
            self.visible[self.visible.len() - 2]
        } else {
            self.focused
        }
    }

    /// Drops the top visible pane, which is the focused one, and focuses the pane under
    /// it.
    pub fn close_focused_pane(&mut self)
        requires
            old(self).visible@.len() > 1,
        ensures
            final(self).visible@ == old(self).visible@.drop_last(),
            final(self).focused == old(self).visible@.drop_last().last(),
    {
        let _pane_id = self.visible.pop();
        self.restore_focus_to_last_pane();
    }
}

} // verus!

verus! {

broadcast use vstd::std_specs::hash::group_hash_axioms;

/// What is left to do outside after a command.
#[derive(Debug, Clone, PartialEq, Eq)]
pub enum Action {
    /// Nothing.
    Done,
    /// Read the file at the path and open it in the editor named, or the default one.
    ReadFile(Option<EditorId>, String),
}

/// The panes, editors and buffers of the application.
#[derive(Debug)]
pub struct AppState {
    pub panes: Panes,
    /// What each pane shows.
    pub pane_kinds: HashMap<PaneId, Pane>,
    pub editors: HashMap<EditorId, Editor>,
    pub buffers: HashMap<BufferId, Contents>,
    /// The editor a file opens in where the command names none.
    pub default_editor: EditorId,
    /// No buffer has this key or a greater one.
    pub next_buffer: BufferId,
}

impl AppState {
    /// Every buffer's key is below `next_buffer`.
    pub open spec fn wf(&self) -> bool {
        forall|k: BufferId| #[trigger] self.buffers@.contains_key(k) ==> k < self.next_buffer
    }
}

/// The pane that a command for the focused editor goes to: the focused pane, or, while
/// the commands pane is focused, the pane under it.
pub open spec fn focused_editor_pane_of(s: AppState) -> PaneId {
    if s.pane_kinds@[s.panes.focused] is Commands {
        s.panes.visible@[s.panes.visible@.len() - 2]
    } else {
        s.panes.focused
    }
}

/// The editor of a pane that shows one.
pub open spec fn editor_of(p: Pane) -> EditorId {
    match p {
        Pane::Editor(_, e) => e,
        Pane::Commands(_) => 0,
    }
}

/// The editor a command goes to: the one it names, or that of the focused editor pane.
pub open spec fn addressed_editor(s: AppState, command: Command) -> EditorId {
    match command {
        Command::Editor(e, _) => e,
        _ => editor_of(s.pane_kinds@[focused_editor_pane_of(s)]),
    }
}

/// The editor `e` exists, so does its buffer, and the buffer has the lines and offsets
/// that `c` reads.
pub open spec fn editor_ready(s: AppState, e: EditorId, c: editor::Command) -> bool {
    &&& s.editors@.contains_key(e)
    &&& s.buffers@.contains_key(s.editors@[e].buffer_id)
    &&& command_ok(s.buffers@[s.editors@[e].buffer_id].chars(), s.editors@[e].cursor, c)
}

/// The commands that `process_command` carries out without a panic. Quitting is the
/// event loop's to handle, and commands of the commands pane are not carried out.
pub open spec fn command_ready(s: AppState, command: Command) -> bool {
    match command {
        Command::Quit => false,
        Command::Commands(_) => false,
        Command::FileOpen(..) => true,
        Command::Pane(_, PaneCommand::Open) => true,
        Command::Pane(_, PaneCommand::Close) => s.panes.visible@.len() > 1,
        Command::Editor(e, c) => editor_ready(s, e, c),
        Command::FocusedEditor(c) => {
            &&& s.pane_kinds@.contains_key(s.panes.focused)
            &&& s.pane_kinds@[s.panes.focused] is Commands ==> s.panes.visible@.len() > 1
            &&& s.pane_kinds@.contains_key(focused_editor_pane_of(s))
            &&& s.pane_kinds@[focused_editor_pane_of(s)] is Editor
            &&& editor_ready(s, addressed_editor(s, command), c)
        },
    }
}

/// `t` is `s` after the editor `e` carries out `c` on the text of its buffer.
pub open spec fn edited(s: AppState, t: AppState, e: EditorId, c: editor::Command) -> bool {
    let b = s.editors@[e].buffer_id;
    let text = s.buffers@[b].chars();
    &&& t.editors@ == s.editors@.insert(e, s.editors@[e].after(text, c))
    &&& t.buffers@.dom() == s.buffers@.dom()
    &&& forall|k: BufferId| #[trigger] t.buffers@.contains_key(k) && k != b ==> t.buffers@[k]
        == s.buffers@[k]
    &&& t.buffers@[b].chars() == text_after(text, s.editors@[e].cursor, c)
    &&& t.panes.visible@ == s.panes.visible@
    &&& t.panes.focused == s.panes.focused
    &&& t.pane_kinds@ == s.pane_kinds@
    &&& t.default_editor == s.default_editor
    &&& t.next_buffer == s.next_buffer
}

impl AppState {
    /// The editor `e` carries out `c` on the text of its buffer.
    fn edit(&mut self, e: EditorId, c: editor::Command)
        requires
            editor_ready(*old(self), e, c),
        ensures
            edited(*old(self), *final(self), e, c),
    {
        let mut editor = match self.editors.remove(&e) {
            Some(editor) => editor,
            None => {
                proof { assert(false); }
                return;
            },
        };
        let b = editor.buffer_id;
        let mut contents = match self.buffers.remove(&b) {
            Some(contents) => contents,
            None => {
                proof { assert(false); }
                return;
            },
        };
        editor.command(&mut contents, c);
        self.buffers.insert(b, contents);
        self.editors.insert(e, editor);
        proof {
            assert(self.editors@ =~= old(self).editors@.insert(e, old(self).editors@[e].after(
                old(self).buffers@[b].chars(),
                c,
            )));
            assert(self.buffers@.dom() =~= old(self).buffers@.dom());
        }
    }
}

/// `t` is `s` after `command`, and `r` what is left to do outside.
pub open spec fn processed(s: AppState, t: AppState, command: Command, r: Action) -> bool {
    match command {
        Command::FileOpen(e, path) => r == Action::ReadFile(e, path) && t == s,
        Command::Pane(id, PaneCommand::Open) => {
            &&& r == Action::Done
            &&& t.panes.focused == id
            &&& t.panes.visible@ == s.panes.visible@.remove_value(id).push(id)
            &&& t.pane_kinds == s.pane_kinds
            &&& t.editors == s.editors
            &&& t.buffers == s.buffers
            &&& t.default_editor == s.default_editor
            &&& t.next_buffer == s.next_buffer
        },
        Command::Pane(_, PaneCommand::Close) => {
            &&& r == Action::Done
            &&& t.panes.visible@ == s.panes.visible@.drop_last()
            &&& t.panes.focused == s.panes.visible@.drop_last().last()
            &&& t.pane_kinds == s.pane_kinds
            &&& t.editors == s.editors
            &&& t.buffers == s.buffers
            &&& t.default_editor == s.default_editor
            &&& t.next_buffer == s.next_buffer
        },
        Command::Editor(e, c) => r == Action::Done && edited(s, t, e, c),
        Command::FocusedEditor(c) => r == Action::Done && edited(
            s,
            t,
            addressed_editor(s, command),
            c,
        ),
        _ => true,
    }
}

/// Carries out `command` on the panes, editors and buffers, and says what is left to do
/// outside: opening a file asks for it to be read.
pub fn process_command(state: &mut AppState, command: Command) -> (r: Action)
    requires
        command_ready(*old(state), command),
    ensures
        old(state).wf() ==> final(state).wf(),
        processed(*old(state), *final(state), command, r),
{
    match command {
        Command::FileOpen(e, path) => Action::ReadFile(e, path),
        Command::Pane(id, PaneCommand::Open) => {
            state.panes.focus_pane(id);
            Action::Done
        },
        Command::Pane(_, PaneCommand::Close) => {
            state.panes.close_focused_pane();
            Action::Done
        },
        Command::Editor(e, c) => {
            state.edit(e, c);
            proof {
                if old(state).wf() {
                    assert forall|k: BufferId| #[trigger] state.buffers@.contains_key(k) implies k
                        < state.next_buffer by {
                        assert(state.buffers@.dom().contains(k));
                        assert(old(state).buffers@.contains_key(k));
                    }
                }
            }
            Action::Done
        },
        Command::FocusedEditor(c) => {
            let commands_focused = match state.pane_kinds.get(&state.panes.focused) {
                Some(Pane::Commands(_)) => true,
                _ => false,
            };
            let pane_id = state.panes.focused_editor_pane(commands_focused);
            let e = match state.pane_kinds.get(&pane_id) {
                Some(Pane::Editor(_, e)) => *e,
                _ => {
                    proof { assert(false); }
                    return Action::Done;
                },
            };
            proof {
                assert(e == addressed_editor(*old(state), command));
            }
            state.edit(e, c);
            proof {
                if old(state).wf() {
                    assert forall|k: BufferId| #[trigger] state.buffers@.contains_key(k) implies k
                        < state.next_buffer by {
                        assert(state.buffers@.dom().contains(k));
                        assert(old(state).buffers@.contains_key(k));
                    }
                }
            }
            Action::Done
        },
        _ => {
            proof { assert(false); }
            Action::Done
        },
    }
}

/// Whether the editor `e` exists, so does its buffer, and the buffer has the lines and
/// offsets that `c` reads.
fn can_edit(state: &AppState, e: EditorId, c: editor::Command) -> (r: bool)
    ensures
        r == editor_ready(*state, e, c),
{
    match state.editors.get(&e) {
        Some(editor) => match state.buffers.get(&editor.buffer_id) {
            Some(contents) => editor.can_command(contents, c),
            None => false,
        },
        None => false,
    }
}

/// Carries out `command` where it runs without a panic, and gives what is left to do
/// outside; elsewhere leaves the state as it is and gives none.
pub fn try_process_command(state: &mut AppState, command: Command) -> (r: Option<Action>)
    ensures
        r is Some <==> command_ready(*old(state), command),
        r matches Some(a) ==> processed(*old(state), *final(state), command, a),
        r is None ==> *final(state) == *old(state),
        old(state).wf() ==> final(state).wf(),
{
    let ready = match &command {
        Command::Quit => false,
        Command::Commands(_) => false,
        Command::FileOpen(..) => true,
        Command::Pane(_, PaneCommand::Open) => true,
        Command::Pane(_, PaneCommand::Close) => state.panes.visible.len() > 1,
        Command::Editor(e, c) => can_edit(state, *e, *c),
        Command::FocusedEditor(c) => match state.pane_kinds.get(&state.panes.focused) {
            None => false,
            Some(focused) => {
                let commands_focused = match focused {
                    Pane::Commands(_) => true,
                    _ => false,
                };
                if commands_focused && state.panes.visible.len() < 2 {
                    false
                } else {
                    let pane_id = state.panes.focused_editor_pane(commands_focused);
                    match state.pane_kinds.get(&pane_id) {
                        Some(Pane::Editor(_, e)) => can_edit(state, *e, *c),
                        _ => false,
                    }
                }
            },
        },
    };
    if ready {
        Some(process_command(state, command))
    } else {
        None
    }
}

/// Opens `contents` as a new buffer under a key no buffer has, and switches the editor
/// named, or the default one, to it; gives the buffer's key.
pub fn file_opened(state: &mut AppState, editor: Option<EditorId>, contents: Contents) -> (r: BufferId)
    requires
        old(state).wf(),
        old(state).next_buffer < u64::MAX,
        old(state).editors@.contains_key(
            match editor {
                Some(e) => e,
                None => old(state).default_editor,
            },
        ),
    ensures
        final(state).wf(),
        !old(state).buffers@.contains_key(r),
        final(state).buffers@ == old(state).buffers@.insert(r, contents),
        ({
            let e = match editor {
                Some(e) => e,
                None => old(state).default_editor,
            };
            final(state).editors@ == old(state).editors@.insert(
                e,
                Editor { buffer_id: r, ..old(state).editors@[e] },
            )
        }),
        final(state).panes.visible@ == old(state).panes.visible@,
        final(state).panes.focused == old(state).panes.focused,
        final(state).pane_kinds@ == old(state).pane_kinds@,
        final(state).default_editor == old(state).default_editor,
{
    let buffer_id = state.next_buffer;
    state.next_buffer = state.next_buffer + 1;
    state.buffers.insert(buffer_id, contents);
    let e = match editor {
        Some(e) => e,
        None => state.default_editor,
    };
    let mut ed = match state.editors.remove(&e) {
        Some(ed) => ed,
        None => {
            proof { assert(false); }
            return buffer_id;
        },
    };
    ed.swap_buffer(buffer_id);
    state.editors.insert(e, ed);
    proof {
        assert(state.editors@ =~= old(state).editors@.insert(
            e,
            Editor { buffer_id, ..old(state).editors@[e] },
        ));
    }
    buffer_id
}

} // verus!

verus! {

/// Where a word jump lands from offset `o` of the text `t`.
pub open spec fn jump_offset(t: Seq<char>, o: int, jump: CursorJump) -> int {
    match jump {
        CursorJump::StartOfNextWord => editor::next_word_start(t, o),
        CursorJump::EndOfNearestWord => editor::word_end(t, o),
        CursorJump::StartOfNearestWord => editor::word_start(t, o),
        CursorJump::StartOfLastWord => o,
    }
}

/// In normal mode, the word keys of an editor pane jump the way their letters say: `b`
/// (and `0`) back, never landing after the cursor, and `w` and `e` forward, never landing before
/// it, `w` always moving on from a char of the text.
pub proof fn law_word_keys_jump_their_way(t: Seq<char>, o: int)
    requires
        0 <= o <= t.len(),
    ensures
        editor_binding(editor::Mode::Normal, KeyCode::Char('b')) matches Some(
            editor::Command::CursorJump(j),
        ) && jump_offset(t, o, j) <= o,
        editor_binding(editor::Mode::Normal, KeyCode::Char('0')) matches Some(
            editor::Command::CursorJump(j),
        ) && jump_offset(t, o, j) <= o,
        editor_binding(editor::Mode::Normal, KeyCode::Char('w')) matches Some(
            editor::Command::CursorJump(j),
        ) && jump_offset(t, o, j) >= o && (o < t.len() ==> jump_offset(t, o, j) > o),
        editor_binding(editor::Mode::Normal, KeyCode::Char('e')) matches Some(
            editor::Command::CursorJump(j),
        ) && jump_offset(t, o, j) >= o,
{
    editor::lemma_skip_backward(t, o, editor::Run::Blank);
    let p = editor::skip_backward(t, o, editor::Run::Blank);
    if p > 0 {
        editor::lemma_skip_backward(t, p - 1, editor::Run::Word);
        editor::lemma_skip_backward(t, p - 1, editor::Run::Punctuation);
    }
    if o < t.len() {
        editor::law_next_word_start(t, o);
    }
    if o + 1 <= t.len() {
        editor::lemma_skip_forward(t, o + 1, editor::Run::Blank);
        let q = editor::skip_forward(t, o + 1, editor::Run::Blank);
        if q < t.len() {
            editor::lemma_skip_forward(t, q + 1, editor::Run::Word);
            editor::lemma_skip_forward(t, q + 1, editor::Run::Punctuation);
        }
    }
}

} // verus!
