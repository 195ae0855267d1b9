use toku::app::{KeyCode, KeyEvent};
use toku::commands::{Command, Commands};

fn key(code: KeyCode) -> KeyEvent {
    KeyEvent { code, modifiers: 0 }
}

#[test]
fn typing_searches_the_registered_commands() {
    let (tx, _rx) = tokio::sync::mpsc::channel::<u32>(1);
    let mut commands = Commands::new(tx);
    let quit = commands.register("quit", vec!["q", "exit"], 0);
    let up = commands.register("cursor.up", vec![], 1);
    let _down = commands.register("cursor.down", vec![], 2);
    assert!(commands.selected.is_none());
    assert!(matches!(commands.process_key(key(KeyCode::Enter)), None));

    assert!(commands.process_key(key(KeyCode::Char('q'))).is_none());
    assert_eq!(commands.query, "q");
    assert_eq!(commands.cursor.column, 1);
    let results = commands.results();
    assert_eq!(results.len(), 1);
    assert_eq!(results[0].entry.command, "quit");
    assert_eq!(results[0].entry.aliases, vec!["q".to_string(), "exit".to_string()]);
    assert_eq!(results[0].entry.send, 0);
    assert_eq!(commands.selected, Some(quit));
    match commands.process_key(key(KeyCode::Enter)) {
        Some(Command::Select(id)) => assert_eq!(id, quit),
        other => panic!("unexpected {:?}", other),
    }

    commands.process_key(key(KeyCode::Backspace));
    assert_eq!(commands.query, "");
    assert_eq!(commands.cursor.column, 0);
    for c in "cur".chars() {
        commands.process_key(key(KeyCode::Char(c)));
    }
    let results = commands.results();
    assert_eq!(results.len(), 2);
    assert!(results[0].score <= results[1].score);
    assert!(results.iter().all(|r| r.entry.command.starts_with("cursor")));
    assert_eq!(commands.selected, Some(results[0].entry.id));
    commands.process_key(key(KeyCode::Char('.')));
    commands.process_key(key(KeyCode::Char('u')));
    commands.process_key(key(KeyCode::Char('p')));
    let results = commands.results();
    assert_eq!(results.len(), 1);
    assert_eq!(results[0].entry.id, up);
    assert!(!results[0].indices.is_empty());

    commands.reset();
    assert_eq!(commands.query, "");
}

#[test]
fn registering_gives_distinct_keys_and_keeps_each_entry() {
    let (tx, _rx) = tokio::sync::mpsc::channel::<u32>(1);
    let mut commands = Commands::new(tx);
    let a = commands.register("write", vec!["w"], 7);
    let b = commands.register("wrap", vec![], 8);
    assert_ne!(a, b);
    for c in "wr".chars() {
        commands.process_key(key(KeyCode::Char(c)));
    }
    let results = commands.results();
    assert_eq!(results.len(), commands.filtered.len());
    assert_eq!(results.len(), 2);
    for (r, m) in results.iter().zip(commands.filtered.iter()) {
        assert_eq!(r.entry.id, m.entry);
        assert_eq!(r.score, m.score);
        assert_eq!(r.indices, m.indices);
    }
    let write = results.iter().find(|r| r.entry.id == a).unwrap();
    assert_eq!(write.entry.command, "write");
    assert_eq!(write.entry.aliases, vec!["w".to_string()]);
    assert_eq!(write.entry.send, 7);
    let wrap = results.iter().find(|r| r.entry.id == b).unwrap();
    assert_eq!(wrap.entry.send, 8);
}
