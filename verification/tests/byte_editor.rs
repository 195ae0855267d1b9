use toku::app::{KeyCode, KeyEvent};
use toku::byte_editor::{Command, CursorJump, Direction, Editor, Mode, Request};
use toku::rope::Rope;
use toku::slab::SlabAllocator;

fn rope_of(text: &[u8]) -> Rope {
    let mut alloc = SlabAllocator::new();
    let (slab, written) = alloc.append(text);
    assert_eq!(written, text.len());
    Rope::empty().insert(0, slab).expect("insert")
}

fn key(code: KeyCode) -> KeyEvent {
    KeyEvent { code, modifiers: 0 }
}

#[test]
fn byte_editor_moves_and_jumps() {
    let mut editor = Editor::new_contents(4, rope_of(b"ab  cd\nef"));
    assert_eq!(editor.mode, Mode::Normal);
    assert_eq!(editor.command(&Command::CursorMove(Direction::Right)), None);
    assert_eq!(editor.cursor.byte_offset(), 1);
    editor.command(&Command::CursorMove(Direction::Left));
    assert_eq!(editor.cursor.byte_offset(), 0);
    editor.command(&Command::CursorMove(Direction::Left));
    assert_eq!(editor.cursor.byte_offset(), 0);
    editor.command(&Command::CursorJump(CursorJump::ForwardEndWord));
    assert_eq!(editor.cursor.byte_offset(), 2);
    editor.command(&Command::CursorJump(CursorJump::ForwardNextWord));
    assert_eq!(editor.cursor.byte_offset(), 4);
    editor.command(&Command::CursorJump(CursorJump::ForwardNextWord));
    assert_eq!(editor.cursor.byte_offset(), 6);
    // a line feed stops a move to the right
    editor.command(&Command::CursorMove(Direction::Right));
    assert_eq!(editor.cursor.byte_offset(), 6);
    editor.command(&Command::CursorJump(CursorJump::ForwardEndWord));
    assert_eq!(editor.cursor.byte_offset(), 6);
    editor.command(&Command::CursorMove(Direction::Left));
    assert_eq!(editor.cursor.byte_offset(), 5);
    editor.command(&Command::ModeSet(Mode::Insert));
    assert_eq!(editor.mode, Mode::Insert);
    assert_eq!(editor.command(&Command::Insert('x')), Some(Request::BufferInsert(4, 'x')));
}

#[test]
fn byte_editor_jumps_to_the_end() {
    let mut editor = Editor::new_contents(1, rope_of(b"word"));
    editor.command(&Command::CursorJump(CursorJump::ForwardNextWord));
    assert_eq!(editor.cursor.byte_offset(), 4);
    editor.command(&Command::CursorMove(Direction::Right));
    assert_eq!(editor.cursor.byte_offset(), 4);
    let mut empty = Editor::new_contents(1, Rope::empty());
    empty.command(&Command::CursorMove(Direction::Right));
    empty.command(&Command::CursorJump(CursorJump::ForwardNextWord));
    assert_eq!(empty.cursor.byte_offset(), 0);
}

#[test]
fn byte_editor_keys() {
    let mut editor = Editor::new_contents(1, Rope::empty());
    assert_eq!(editor.process_key(key(KeyCode::Char('w'))), Some(Command::CursorJump(CursorJump::ForwardNextWord)));
    assert_eq!(editor.process_key(key(KeyCode::Char('e'))), Some(Command::CursorJump(CursorJump::ForwardEndWord)));
    assert_eq!(editor.process_key(key(KeyCode::Char('i'))), Some(Command::ModeSet(Mode::Insert)));
    assert_eq!(editor.process_key(key(KeyCode::Char('x'))), None);
    assert_eq!(editor.process_key(key(KeyCode::Up)), Some(Command::CursorMove(Direction::Up)));
    editor.mode = Mode::Insert;
    assert_eq!(editor.process_key(key(KeyCode::Char('x'))), Some(Command::Insert('x')));
    assert_eq!(editor.process_key(key(KeyCode::Esc)), Some(Command::ModeSet(Mode::Normal)));
    assert_eq!(editor.process_key(key(KeyCode::Enter)), None);
}
