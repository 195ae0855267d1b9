use toku::term::{erase_in_line_sequence, erase_in_sequence, key_after_escape, key_of_byte, EraseInMode, Key};

#[test]
fn bytes_stand_for_keys() {
    assert_eq!(key_of_byte(b'a'), Some(Key::Char(b'a')));
    assert_eq!(key_of_byte(0x01), Some(Key::Ctrl(b'a')));
    assert_eq!(key_of_byte(0x11), Some(Key::Ctrl(b'q')));
    assert_eq!(key_of_byte(0x7f), Some(Key::Ctrl(0x7f)));
    assert_eq!(key_of_byte(0x1b), None);
    assert_eq!(key_after_escape(0x1b), Key::Char(0x1b));
}

#[test]
fn erase_sequences() {
    assert_eq!(erase_in_sequence(EraseInMode::FromPos), b"\x1b[J".to_vec());
    assert_eq!(erase_in_sequence(EraseInMode::ToPos), b"\x1b[1J".to_vec());
    assert_eq!(erase_in_sequence(EraseInMode::All), b"\x1b[2J".to_vec());
    assert_eq!(erase_in_line_sequence(EraseInMode::FromPos), b"\x1b[K".to_vec());
    assert_eq!(erase_in_line_sequence(EraseInMode::ToPos), b"\x1b[1K".to_vec());
    assert_eq!(erase_in_line_sequence(EraseInMode::All), b"\x1b[2K".to_vec());
}
