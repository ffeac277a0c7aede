use lw::controller::handle_backspace;
use lw::keys::{Key, KeyCode};
use lw::log::Item;
use lw::text::{backspace, contains_text, ctrl_backspace_remaining, is_white_space};
use lw::App;

fn word_back(s: &str) -> String {
    ctrl_backspace_remaining(&s.to_string())
}

fn item(id: u128, content: &str, created: i64) -> Item {
    Item { id, content: content.to_string(), created, modified: created }
}

fn key(c: char) -> Key {
    Key::new(KeyCode::Char(c), false)
}

fn ctrl(c: char) -> Key {
    Key::new(KeyCode::Char(c), true)
}

fn press_edit(app: &mut App, k: Key) -> bool {
    let current = app.edit.clone().expect("editing");
    app.handle_edit_keys(k, current)
}

#[test]
fn word_backspace_examples() {
    assert_eq!(word_back("hello world  "), "hello ");
    assert_eq!(word_back("hello"), "");
    assert_eq!(word_back(""), "");
}

#[test]
fn word_backspace_only_whitespace() {
    assert_eq!(word_back(" \t\n "), "");
}

#[test]
fn word_backspace_multiline_and_unicode() {
    assert_eq!(word_back("first line\nsecond"), "first line\n");
    assert_eq!(word_back("grüße schön"), "grüße ");
    assert_eq!(word_back("a\u{3000}b"), "a\u{3000}");
}

#[test]
fn simple_backspace_removes_one_character() {
    assert_eq!(backspace(&"abc".to_string()), "ab");
    assert_eq!(backspace(&"añ".to_string()), "a");
    assert_eq!(backspace(&String::new()), "");
}

#[test]
fn white_space_classes() {
    assert!(is_white_space(' '));
    assert!(is_white_space('\t'));
    assert!(is_white_space('\u{a0}'));
    assert!(is_white_space('\u{2009}'));
    assert!(!is_white_space('a'));
    assert!(!is_white_space('\u{200b}'));
    for c in ['\u{0}', 'x', '\u{9}', '\u{1680}', '\u{205f}', '\u{3000}', '\u{85}'] {
        assert_eq!(is_white_space(c), c.is_whitespace());
    }
}

#[test]
fn text_check_ignores_newlines_and_tabs() {
    assert!(!contains_text(&"\n\t".to_string()));
    assert!(!contains_text(&String::new()));
    assert!(contains_text(&"\n x".to_string()));
    assert!(contains_text(&" ".to_string()));
}

#[test]
fn handle_backspace_on_item() {
    let it = item(5, "one two", 3);
    let plain = handle_backspace(it.clone(), false).unwrap();
    assert_eq!(plain.content, "one tw");
    assert_eq!(plain.id, 5);
    assert_eq!(plain.created, 3);
    let word = handle_backspace(it, true).unwrap();
    assert_eq!(word.content, "one ");
    assert!(handle_backspace(item(6, "", 3), true).is_none());
}

#[test]
fn commit_of_newline_and_tab_is_rejected() {
    let mut app = App::new(vec![]);
    assert!(!app.handle_main_keys(key('o')));
    assert!(!press_edit(&mut app, Key::new(KeyCode::Enter, false)));
    assert!(!press_edit(&mut app, key('\t')));
    assert_eq!(app.edit.as_ref().unwrap().content, "\n\t");
    assert!(!press_edit(&mut app, Key::new(KeyCode::Enter, true)));
    assert!(!press_edit(&mut app, ctrl('o')));
    assert!(app.edit.is_some());
    assert_eq!(app.edit.as_ref().unwrap().content, "\n\t");
    assert!(app.logs.is_empty());
}

#[test]
fn typing_appends_characters_and_newlines() {
    let mut app = App::new(vec![]);
    app.handle_main_keys(key('o'));
    press_edit(&mut app, key('h'));
    press_edit(&mut app, key('i'));
    press_edit(&mut app, Key::new(KeyCode::Enter, false));
    press_edit(&mut app, ctrl('x'));
    assert_eq!(app.edit.as_ref().unwrap().content, "hi\nx");
    press_edit(&mut app, Key::new(KeyCode::Backspace, false));
    assert_eq!(app.edit.as_ref().unwrap().content, "hi\n");
    press_edit(&mut app, key('a'));
    press_edit(&mut app, key(' '));
    press_edit(&mut app, key('b'));
    press_edit(&mut app, ctrl('h'));
    assert_eq!(app.edit.as_ref().unwrap().content, "hi\na ");
    press_edit(&mut app, Key::new(KeyCode::Backspace, true));
    assert_eq!(app.edit.as_ref().unwrap().content, "hi\n");
    press_edit(&mut app, Key::new(KeyCode::Up, false));
    assert_eq!(app.edit.as_ref().unwrap().content, "hi\n");
}

#[test]
fn cancel_leaves_store_untouched() {
    let mut app = App::new(vec![item(1, "keep", 10)]);
    app.handle_main_keys(key('e'));
    press_edit(&mut app, key('!'));
    assert_eq!(app.edit.as_ref().unwrap().content, "keep!");
    assert!(!press_edit(&mut app, Key::new(KeyCode::Esc, false)));
    assert!(app.edit.is_none());
    assert_eq!(app.logs[0].content, "keep");

    app.handle_main_keys(key(' '));
    press_edit(&mut app, key('?'));
    assert!(!press_edit(&mut app, ctrl('c')));
    assert!(app.edit.is_none());
    assert_eq!(app.logs[0].content, "keep");
}

#[test]
fn commit_of_existing_entry_updates_in_place() {
    let mut app = App::new(vec![item(1, "old", 20), item(2, "other", 10)]);
    app.handle_main_keys(Key::new(KeyCode::Down, false));
    assert_eq!(app.selected, Some(1));
    app.handle_main_keys(Key::new(KeyCode::Enter, false));
    press_edit(&mut app, key('!'));
    assert!(press_edit(&mut app, Key::new(KeyCode::Enter, true)));
    assert!(app.edit.is_none());
    assert_eq!(app.logs.len(), 2);
    assert_eq!(app.logs[1].content, "other!");
    assert_eq!(app.logs[1].id, 2);
    assert_eq!(app.logs[1].created, 10);
    assert_eq!(app.selected, Some(1));
}

#[test]
fn scenario_new_commit_order_and_delete() {
    let mut app = App::new(vec![]);
    app.handle_main_keys(key('o'));
    press_edit(&mut app, key('A'));
    assert!(press_edit(&mut app, ctrl('o')));
    assert_eq!(app.logs.len(), 1);
    assert_eq!(app.logs[0].content, "A");

    let a_created = app.logs[0].created;
    while chrono::Local::now().timestamp_micros() <= a_created {}

    app.handle_main_keys(key('o'));
    press_edit(&mut app, key('B'));
    assert!(press_edit(&mut app, Key::new(KeyCode::Enter, true)));
    let order: Vec<&str> = app.logs.iter().map(|e| e.content.as_str()).collect();
    assert_eq!(order, vec!["B", "A"]);
    assert_eq!(app.selected, Some(0));

    assert!(!app.handle_main_keys(key('d')));
    assert_eq!(app.delete, Some(0));
    assert_eq!(app.logs.len(), 2);
    assert!(app.handle_main_keys(key('d')));
    let order: Vec<&str> = app.logs.iter().map(|e| e.content.as_str()).collect();
    assert_eq!(order, vec!["A"]);
    assert_eq!(app.delete, None);
    assert_eq!(app.selected, Some(0));
}
