use toku::selector::{Command, Direction, Selector};

#[test]
fn typing_and_deleting_in_the_query() {
    let mut s = Selector::new(":");
    assert_eq!(s.query_prefix, ":");
    s.command(Command::Insert('a'));
    s.command(Command::Insert('c'));
    s.cursor.column = 1;
    s.command(Command::Insert('b'));
    assert_eq!(s.query, vec!['a', 'b', 'c']);
    assert_eq!(s.cursor.column, 2);
    s.command(Command::Delete(Direction::Prev));
    assert_eq!(s.query, vec!['a', 'c']);
    assert_eq!(s.cursor.column, 1);
    s.command(Command::Delete(Direction::Next));
    assert_eq!(s.query, vec!['a']);
    assert_eq!(s.cursor.column, 0);
}

#[test]
fn focus_moves_between_entries() {
    let mut s = Selector::new(":");
    s.command(Command::SetEntries(vec![10, 20, 30]));
    s.command(Command::Focus(Direction::Next));
    assert_eq!(s.focused, None);
    s.focused = Some(20);
    s.command(Command::Focus(Direction::Next));
    assert_eq!(s.focused, Some(30));
    s.command(Command::Focus(Direction::Next));
    assert_eq!(s.focused, Some(30));
    s.command(Command::Focus(Direction::Prev));
    s.command(Command::Focus(Direction::Prev));
    assert_eq!(s.focused, Some(10));
    s.command(Command::Focus(Direction::Prev));
    assert_eq!(s.focused, Some(10));
    s.focused = Some(99);
    s.command(Command::Focus(Direction::Prev));
    assert_eq!(s.focused, Some(99));
}
