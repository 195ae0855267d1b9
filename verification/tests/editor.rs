use toku::buffer::Contents;
use toku::editor::{offset_cursor, screen_offset, Command, CursorJump, Direction, Editor, Mode};
use toku::point::Point;

fn at(line: usize, column: usize) -> Point {
    Point { line, column }
}

fn jump(text: &str, from: Point, jump: CursorJump) -> Point {
    let contents = Contents::from_text(text);
    let mut editor = Editor::new(1, 2);
    editor.cursor = from;
    match jump {
        CursorJump::StartOfNextWord => editor.cursor_jump_start_of_next_word(&contents),
        CursorJump::EndOfNearestWord => editor.cursor_jump_end_of_nearest_word(&contents),
        CursorJump::StartOfNearestWord => editor.cursor_jump_start_of_nearest_word(&contents),
        CursorJump::StartOfLastWord => unreachable!(),
    }
    editor.cursor
}

#[test]
fn start_of_next_word_skips_the_run_and_the_space_after_it() {
    let text = "hello world, foo";
    assert_eq!(jump(text, at(0, 0), CursorJump::StartOfNextWord), at(0, 6));
    assert_eq!(jump(text, at(0, 6), CursorJump::StartOfNextWord), at(0, 11));
    assert_eq!(jump(text, at(0, 11), CursorJump::StartOfNextWord), at(0, 13));
    assert_eq!(jump(text, at(0, 5), CursorJump::StartOfNextWord), at(0, 6));
    assert_eq!(jump(text, at(0, 16), CursorJump::StartOfNextWord), at(0, 16));
}

#[test]
fn start_of_next_word_crosses_lines() {
    assert_eq!(jump("ab\ncd", at(0, 0), CursorJump::StartOfNextWord), at(1, 0));
    assert_eq!(jump("ab\n\n  cd", at(0, 1), CursorJump::StartOfNextWord), at(2, 2));
}

#[test]
fn end_of_nearest_word_lands_on_the_last_char() {
    let text = "hello world, foo";
    assert_eq!(jump(text, at(0, 0), CursorJump::EndOfNearestWord), at(0, 4));
    assert_eq!(jump(text, at(0, 4), CursorJump::EndOfNearestWord), at(0, 10));
    assert_eq!(jump(text, at(0, 10), CursorJump::EndOfNearestWord), at(0, 11));
    // a run reaching the end of the text ends past its last char
    assert_eq!(jump(text, at(0, 13), CursorJump::EndOfNearestWord), at(0, 16));
}

#[test]
fn start_of_nearest_word_goes_back() {
    let text = "hello world, foo";
    assert_eq!(jump(text, at(0, 13), CursorJump::StartOfNearestWord), at(0, 11));
    assert_eq!(jump(text, at(0, 6), CursorJump::StartOfNearestWord), at(0, 0));
    assert_eq!(jump(text, at(0, 9), CursorJump::StartOfNearestWord), at(0, 6));
    assert_eq!(jump(text, at(0, 0), CursorJump::StartOfNearestWord), at(0, 0));
    assert_eq!(jump("ab\ncd", at(1, 0), CursorJump::StartOfNearestWord), at(0, 0));
}

#[test]
fn moves_stay_within_lines() {
    let mut contents = Contents::from_text("abc\nde\n");
    let mut editor = Editor::new(1, 2);
    assert_eq!(editor.mode, Mode::Normal);
    editor.cursor = at(0, 2);
    editor.command(&mut contents, Command::CursorMove(Direction::Down));
    assert_eq!(editor.cursor, at(1, 2));
    editor.command(&mut contents, Command::CursorMove(Direction::Right));
    assert_eq!(editor.cursor, at(1, 2));
    editor.cursor = at(1, 0);
    editor.command(&mut contents, Command::CursorMove(Direction::Right));
    assert_eq!(editor.cursor, at(1, 1));
    editor.command(&mut contents, Command::CursorMove(Direction::Right));
    assert_eq!(editor.cursor, at(1, 1));
    editor.cursor = at(1, 2);
    editor.command(&mut contents, Command::CursorMove(Direction::Up));
    assert_eq!(editor.cursor, at(0, 2));
    editor.command(&mut contents, Command::CursorMove(Direction::Up));
    assert_eq!(editor.cursor, at(0, 2));
    editor.command(&mut contents, Command::CursorMove(Direction::Left));
    assert_eq!(editor.cursor, at(0, 1));
    editor.cursor = at(0, 3);
    editor.command(&mut contents, Command::CursorMove(Direction::Down));
    assert_eq!(editor.cursor, at(1, 2));
    editor.cursor = at(0, 0);
    editor.command(&mut contents, Command::CursorMove(Direction::Left));
    assert_eq!(editor.cursor, at(0, 0));
    editor.cursor_jump_line_zero(&contents);
    assert_eq!(editor.cursor, at(0, 0));
}

#[test]
fn insert_char_inserts_at_the_cursor() {
    let mut contents = Contents::from_text("abc\nde\n");
    let mut editor = Editor::new(1, 2);
    editor.cursor = at(0, 1);
    editor.command(&mut contents, Command::InsertChar('X'));
    assert_eq!(editor.cursor, at(0, 2));
    editor.cursor = at(1, 2);
    editor.command(&mut contents, Command::InsertChar('Y'));
    assert_eq!(editor.cursor, at(1, 3));
    assert_eq!(contents.len_chars(), 9);
    assert_eq!(contents.char_at(1), 'X');
    assert_eq!(contents.char_at(7), 'Y');
    assert_eq!(contents.char_at(8), '\n');
}

#[test]
fn mode_and_buffer_commands() {
    let mut contents = Contents::new();
    let mut editor = Editor::new(1, 2);
    editor.command(&mut contents, Command::SetMode(Mode::Insert));
    assert_eq!(editor.mode, Mode::Insert);
    editor.command(&mut contents, Command::SwapBuffer(7));
    assert_eq!(editor.buffer_id, 7);
    assert_eq!(editor.id, 1);
    editor.command(&mut contents, Command::CursorJump(CursorJump::StartOfNextWord));
    assert_eq!(editor.cursor, at(0, 0));
}

#[test]
fn contents_count_lines_and_chars() {
    let contents = Contents::from_text("héllo\nwörld");
    assert_eq!(contents.len_chars(), 11);
    assert_eq!(contents.len_lines(), 2);
    assert_eq!(contents.line_to_char(1), 6);
    assert_eq!(contents.char_to_line(7), 1);
    assert_eq!(contents.line_len_chars(0), 6);
    assert_eq!(contents.point_to_char_offset(at(1, 2)), 8);
    assert_eq!(contents.char_offset_to_point(8), at(1, 2));
    assert!(toku::buffer::is_alphanumeric('é'));
    assert!(!toku::buffer::is_alphanumeric('-'));
    assert!(toku::editor::is_punctuation('-'));
    assert!(!toku::editor::is_punctuation('a'));
    assert!(toku::editor::is_whitespace('\t'));
}

#[test]
fn screen_follows_the_cursor() {
    assert_eq!(screen_offset(at(3, 5), 80, 24), at(0, 0));
    assert_eq!(screen_offset(at(30, 100), 80, 24), at(6, 20));
    let c = offset_cursor(at(2, 7));
    assert_eq!((c.x, c.y), (7, 2));
    let c = offset_cursor(at(0, 65536 + 3));
    assert_eq!(c.x, 3);
}

#[test]
fn try_command_refuses_what_the_text_lacks() {
    let mut contents = Contents::from_text("ab\ncd");
    let mut editor = Editor::new(1, 2);
    editor.cursor = at(1, 0);
    assert!(!editor.try_command(&mut contents, Command::CursorMove(Direction::Down)));
    assert_eq!(editor.cursor, at(1, 0));
    assert!(!editor.try_command(&mut contents, Command::CursorJump(CursorJump::StartOfLastWord)));
    assert!(editor.try_command(&mut contents, Command::CursorMove(Direction::Up)));
    assert_eq!(editor.cursor, at(0, 0));
    editor.cursor = at(1, 2);
    assert!(!editor.try_command(&mut contents, Command::CursorJump(CursorJump::EndOfNearestWord)));
    assert!(editor.try_command(&mut contents, Command::InsertChar('!')));
    assert_eq!(contents.len_chars(), 6);
    editor.cursor = at(1, 9);
    assert!(!editor.try_command(&mut contents, Command::InsertChar('?')));
    assert_eq!(contents.len_chars(), 6);
}
