use toku::app::{
    file_opened, process_command, process_key, try_process_command, Action, AppState, Command,
    KeyCode, KeyEvent, Pane, PaneCommand, Panes, CONTROL,
};
use std::collections::HashMap;
use toku::buffer::Contents;
use toku::editor::Editor;
use toku::editor::{self, CursorJump};
use toku::selector;

fn key(code: KeyCode) -> KeyEvent {
    KeyEvent { code, modifiers: 0 }
}

#[test]
fn keys_in_the_commands_pane() {
    let pane = Pane::new_commands(3);
    assert_eq!(pane.id(), 3);
    let mode = editor::Mode::Normal;
    assert_eq!(
        process_key(pane, mode, 3, None, key(KeyCode::Up)),
        Some(Command::Commands(selector::Command::Focus(selector::Direction::Prev)))
    );
    assert_eq!(
        process_key(pane, mode, 3, None, key(KeyCode::Down)),
        Some(Command::Commands(selector::Command::Focus(selector::Direction::Next)))
    );
    assert_eq!(
        process_key(pane, mode, 3, None, key(KeyCode::Backspace)),
        Some(Command::Commands(selector::Command::Delete(selector::Direction::Prev)))
    );
    assert_eq!(
        process_key(pane, mode, 3, Some(Command::Quit), key(KeyCode::Enter)),
        Some(Command::Quit)
    );
    assert_eq!(process_key(pane, mode, 3, None, key(KeyCode::Enter)), None);
    assert_eq!(
        process_key(pane, mode, 3, None, KeyEvent { code: KeyCode::Char('p'), modifiers: CONTROL }),
        Some(Command::Commands(selector::Command::Focus(selector::Direction::Prev)))
    );
    assert_eq!(
        process_key(pane, mode, 3, None, KeyEvent { code: KeyCode::Char('n'), modifiers: CONTROL }),
        Some(Command::Commands(selector::Command::Focus(selector::Direction::Next)))
    );
    assert_eq!(
        process_key(pane, mode, 3, None, key(KeyCode::Char('p'))),
        Some(Command::Commands(selector::Command::Insert('p')))
    );
    assert_eq!(process_key(pane, mode, 3, None, key(KeyCode::Esc)), None);
}

#[test]
fn keys_in_an_editor_pane() {
    let pane = Pane::new_editor(1, 8);
    assert_eq!(pane.id(), 1);
    let normal = editor::Mode::Normal;
    let insert = editor::Mode::Insert;
    assert_eq!(
        process_key(pane, normal, 3, None, key(KeyCode::Char('w'))),
        Some(Command::Editor(8, editor::Command::CursorJump(CursorJump::StartOfNextWord)))
    );
    assert_eq!(
        process_key(pane, normal, 3, None, key(KeyCode::Char('0'))),
        Some(Command::Editor(8, editor::Command::CursorJump(CursorJump::StartOfNearestWord)))
    );
    assert_eq!(
        process_key(pane, normal, 3, None, key(KeyCode::Char('j'))),
        Some(Command::Editor(8, editor::Command::CursorMove(editor::Direction::Down)))
    );
    assert_eq!(
        process_key(pane, normal, 3, None, key(KeyCode::Char(':'))),
        Some(Command::Pane(3, PaneCommand::Open))
    );
    assert_eq!(process_key(pane, normal, 3, None, key(KeyCode::Char('q'))), None);
    assert_eq!(
        process_key(pane, insert, 3, None, key(KeyCode::Char(':'))),
        Some(Command::Editor(8, editor::Command::InsertChar(':')))
    );
    assert_eq!(
        process_key(pane, insert, 3, None, key(KeyCode::Esc)),
        Some(Command::Editor(8, editor::Command::SetMode(editor::Mode::Normal)))
    );
    assert_eq!(process_key(pane, insert, 3, None, key(KeyCode::Enter)), None);
}

#[test]
fn focusing_and_closing_panes() {
    let mut panes = Panes { visible: vec![1, 2, 3], focused: 3 };
    panes.focus_pane(2);
    assert_eq!(panes.visible, vec![1, 3, 2]);
    assert_eq!(panes.focused, 2);
    panes.focus_pane(9);
    assert_eq!(panes.visible, vec![1, 3, 2, 9]);
    assert_eq!(panes.focused, 9);
    panes.close_focused_pane();
    assert_eq!(panes.visible, vec![1, 3, 2]);
    assert_eq!(panes.focused, 2);
    panes.focused = 1;
    panes.restore_focus_to_last_pane();
    assert_eq!(panes.focused, 2);
}

#[test]
fn the_focused_editor_pane() {
    let panes = Panes { visible: vec![4, 7, 1], focused: 1 };
    assert_eq!(panes.focused_editor_pane(false), 1);
    assert_eq!(panes.focused_editor_pane(true), 7);
}

fn two_editors() -> AppState {
    let mut pane_kinds = HashMap::new();
    pane_kinds.insert(1, Pane::Editor(1, 10));
    pane_kinds.insert(2, Pane::Editor(2, 20));
    pane_kinds.insert(3, Pane::Commands(3));
    let mut editors = HashMap::new();
    editors.insert(10, Editor::new(10, 100));
    editors.insert(20, Editor::new(20, 200));
    let mut buffers = HashMap::new();
    buffers.insert(100, Contents::from_text("ab\ncd\n"));
    buffers.insert(200, Contents::from_text("xyz"));
    AppState {
        panes: Panes { visible: vec![1, 2], focused: 2 },
        pane_kinds,
        editors,
        buffers,
        default_editor: 10,
        next_buffer: 201,
    }
}

#[test]
fn commands_move_the_focus_and_edit_the_addressed_editor() {
    let mut state = two_editors();
    let r = process_command(&mut state, Command::Pane(3, PaneCommand::Open));
    assert_eq!(r, Action::Done);
    assert_eq!(state.panes.visible, vec![1, 2, 3]);
    assert_eq!(state.panes.focused, 3);

    // The commands pane is focused: the editor under it, of pane 2, takes the command.
    let r = process_command(&mut state, Command::FocusedEditor(editor::Command::InsertChar('!')));
    assert_eq!(r, Action::Done);
    assert_eq!(state.buffers[&200].len_chars(), 4);
    assert_eq!(state.buffers[&200].char_at(0), '!');
    assert_eq!(state.editors[&20].cursor.column, 1);
    assert_eq!(state.buffers[&100].len_chars(), 6);

    let r = process_command(&mut state, Command::Pane(3, PaneCommand::Close));
    assert_eq!(r, Action::Done);
    assert_eq!(state.panes.visible, vec![1, 2]);
    assert_eq!(state.panes.focused, 2);

    let r = process_command(&mut state, Command::Editor(10, editor::Command::CursorMove(editor::Direction::Down)));
    assert_eq!(r, Action::Done);
    assert_eq!(state.editors[&10].cursor.line, 1);

    let r = process_command(&mut state, Command::FileOpen(Some(20), "notes.txt".to_string()));
    assert_eq!(r, Action::ReadFile(Some(20), "notes.txt".to_string()));
    assert_eq!(state.panes.visible, vec![1, 2]);
}

#[test]
fn an_opened_file_becomes_a_new_buffer_of_the_editor() {
    let mut state = two_editors();
    let b = file_opened(&mut state, None, Contents::from_text("new"));
    assert_eq!(b, 201);
    assert_eq!(state.next_buffer, 202);
    assert_eq!(state.editors[&10].buffer_id, 201);
    assert_eq!(state.editors[&20].buffer_id, 200);
    assert_eq!(state.buffers[&201].len_chars(), 3);
    let c = file_opened(&mut state, Some(20), Contents::from_text(""));
    assert_eq!(c, 202);
    assert_eq!(state.editors[&20].buffer_id, 202);
    assert_eq!(state.buffers.len(), 4);
}

#[test]
fn a_command_that_would_panic_is_refused() {
    let mut state = two_editors();
    assert_eq!(try_process_command(&mut state, Command::Quit), None);
    assert_eq!(try_process_command(&mut state, Command::Pane(2, PaneCommand::Close)), Some(Action::Done));
    assert_eq!(state.panes.visible, vec![1]);
    assert_eq!(try_process_command(&mut state, Command::Pane(1, PaneCommand::Close)), None);
    assert_eq!(state.panes.visible, vec![1]);
    assert_eq!(try_process_command(&mut state, Command::Editor(99, editor::Command::SetMode(editor::Mode::Insert))), None);
    let down = editor::Command::CursorMove(editor::Direction::Down);
    assert_eq!(try_process_command(&mut state, Command::Editor(20, down)), None);
    assert_eq!(try_process_command(&mut state, Command::Editor(10, down)), Some(Action::Done));
}
