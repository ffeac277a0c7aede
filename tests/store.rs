use lw::keys::{Key, KeyCode};
use lw::log::Item;
use lw::App;

fn item(id: u128, content: &str, created: i64) -> Item {
    Item { id, content: content.to_string(), created, modified: created }
}

fn createds(app: &App) -> Vec<i64> {
    app.logs.iter().map(|e| e.created).collect()
}

fn ids(app: &App) -> Vec<u128> {
    app.logs.iter().map(|e| e.id).collect()
}

fn key(c: char) -> Key {
    Key::new(KeyCode::Char(c), false)
}

#[test]
fn new_sorts_newest_first_and_selects_first() {
    let app = App::new(vec![item(1, "a", 5), item(2, "b", 9), item(3, "c", 7)]);
    assert_eq!(createds(&app), vec![9, 7, 5]);
    assert_eq!(app.selected, Some(0));
    assert!(!app.exit);
    assert!(app.edit.is_none());
    let empty = App::new(vec![]);
    assert_eq!(empty.selected, None);
}

#[test]
fn add_and_update_keep_order() {
    let mut app = App::new(vec![]);
    app.add(item(1, "a", 5));
    app.add(item(2, "b", 9));
    app.add(item(3, "c", 7));
    app.add(item(4, "d", 7));
    assert_eq!(createds(&app), vec![9, 7, 7, 5]);
    assert_eq!(ids(&app), vec![2, 3, 4, 1]);
    app.update(3, "changed".to_string());
    assert_eq!(ids(&app), vec![2, 3, 4, 1]);
    assert_eq!(app.logs[1].content, "changed");
    assert_eq!(app.logs[1].created, 7);
}

#[test]
fn update_of_unknown_id_changes_nothing() {
    let mut app = App::new(vec![item(1, "a", 5), item(2, "b", 9)]);
    let before = app.logs.clone();
    app.update(77, "x".to_string());
    assert_eq!(app.logs, before);
}

#[test]
fn remove_twice_is_a_no_op_the_second_time() {
    let mut app = App::new(vec![item(1, "a", 5), item(2, "b", 9), item(3, "c", 7)]);
    app.remove(3);
    let once = app.logs.clone();
    assert_eq!(ids(&app), vec![2, 1]);
    app.remove(3);
    assert_eq!(app.logs, once);
    app.remove(42);
    assert_eq!(app.logs, once);
}

#[test]
fn remove_clamps_the_selection() {
    let mut app = App::new(vec![item(1, "a", 5), item(2, "b", 9)]);
    app.handle_main_keys(Key::new(KeyCode::End, false));
    assert_eq!(app.selected, Some(1));
    app.remove(1);
    assert_eq!(app.selected, Some(0));
    app.remove(2);
    assert_eq!(app.selected, None);
}

#[test]
fn navigation_stays_in_bounds() {
    let mut app = App::new(vec![item(1, "a", 5), item(2, "b", 9), item(3, "c", 7)]);
    assert_eq!(app.selected, Some(0));
    app.handle_main_keys(key('k'));
    assert_eq!(app.selected, Some(0));
    app.handle_main_keys(key('j'));
    app.handle_main_keys(key('j'));
    app.handle_main_keys(key('j'));
    assert_eq!(app.selected, Some(2));
    app.handle_main_keys(key('g'));
    assert_eq!(app.selected, Some(0));
    app.handle_main_keys(key('G'));
    assert_eq!(app.selected, Some(2));
    app.handle_main_keys(Key::new(KeyCode::Home, false));
    assert_eq!(app.selected, Some(0));
    app.handle_main_keys(Key::new(KeyCode::Up, false));
    assert_eq!(app.selected, Some(0));

    let mut empty = App::new(vec![]);
    empty.handle_main_keys(key('j'));
    assert_eq!(empty.selected, None);
    empty.handle_main_keys(key('G'));
    assert_eq!(empty.selected, None);
}

#[test]
fn moving_disarms_delete() {
    let mut app = App::new(vec![item(1, "a", 5), item(2, "b", 9)]);
    assert!(!app.handle_main_keys(key('d')));
    assert_eq!(app.delete, Some(0));
    app.handle_main_keys(key('j'));
    assert_eq!(app.delete, None);
    assert!(!app.handle_main_keys(key('d')));
    assert_eq!(app.delete, Some(1));
    assert_eq!(app.logs.len(), 2);
    assert!(app.handle_main_keys(key('d')));
    assert_eq!(ids(&app), vec![2]);
    assert_eq!(app.selected, Some(0));
}

#[test]
fn delete_without_entries_does_nothing() {
    let mut app = App::new(vec![]);
    assert!(!app.handle_main_keys(key('d')));
    assert!(!app.handle_main_keys(key('d')));
    assert!(app.logs.is_empty());
    assert_eq!(app.delete, None);
}

#[test]
fn quit_and_unbound_keys() {
    let mut app = App::new(vec![item(1, "a", 5)]);
    app.handle_main_keys(key('z'));
    assert!(!app.exit);
    assert_eq!(app.selected, Some(0));
    app.handle_main_keys(key('q'));
    assert!(app.exit);
    let mut other = App::new(vec![]);
    other.handle_main_keys(Key::new(KeyCode::Esc, false));
    assert!(other.exit);
}

#[test]
fn open_copies_the_selected_entry() {
    let mut app = App::new(vec![item(1, "a", 5)]);
    app.handle_main_keys(key('e'));
    assert_eq!(app.edit, Some(item(1, "a", 5)));
    let mut empty = App::new(vec![]);
    empty.handle_main_keys(key('e'));
    let fresh = empty.edit.unwrap();
    assert_eq!(fresh.content, "");
    assert_eq!(fresh.created, fresh.modified);
}

#[test]
fn fresh_entries_have_distinct_ids_and_a_current_time() {
    let a = Item::new();
    let b = Item::default();
    assert_ne!(a.id(), b.id());
    let now = chrono::Local::now().timestamp_micros();
    assert!(a.created > 0 && a.created <= now);
    assert_eq!(a.created, a.modified);
    let c = Item::with_content("text".to_string());
    assert_eq!(c.content, "text");
}

#[test]
fn item_update_stamps_modified() {
    let mut it = item(9, "x", 1);
    it.update("y".to_string());
    assert_eq!(it.content, "y");
    assert_eq!(it.id(), 9);
    assert_eq!(it.created, 1);
    assert!(it.modified > 1);
}

#[test]
fn equal_creation_times_keep_their_order() {
    let app = App::new(vec![item(1, "a", 5), item(2, "b", 5), item(3, "c", 6), item(4, "d", 5)]);
    assert_eq!(ids(&app), vec![3, 1, 2, 4]);
}

#[test]
fn fresh_item_takes_id_and_time() {
    let it = Item::fresh(42, 1_000);
    assert_eq!(it.id, 42);
    assert_eq!(it.content, "");
    assert_eq!(it.created, 1_000);
    assert_eq!(it.modified, 1_000);
}

#[test]
fn set_content_stamps_the_given_time() {
    let mut it = item(3, "x", 10);
    it.set_content("y".to_string(), 25);
    assert_eq!(it, Item { id: 3, content: "y".to_string(), created: 10, modified: 25 });
}

#[test]
fn update_at_stamps_the_given_time() {
    let mut app = App::new(vec![item(1, "a", 5), item(2, "b", 9)]);
    app.update_at(1, "changed".to_string(), 77);
    assert_eq!(app.logs[1], Item { id: 1, content: "changed".to_string(), created: 5, modified: 77 });
    assert_eq!(app.logs[0], item(2, "b", 9));
    let before = app.logs.clone();
    app.update_at(99, "none".to_string(), 80);
    assert_eq!(app.logs, before);
}

#[test]
fn handle_key_follows_the_mode() {
    let mut app = App::new(vec![item(1, "a", 5)]);
    assert!(!app.handle_key(key('e')));
    assert_eq!(app.edit, Some(item(1, "a", 5)));
    assert!(!app.handle_key(key('q')));
    assert_eq!(app.edit.as_ref().unwrap().content, "aq");
    assert!(!app.exit);
    assert!(app.handle_key(Key::new(KeyCode::Char('o'), true)));
    assert!(app.edit.is_none());
    assert_eq!(app.logs[0].content, "aq");
    assert!(!app.handle_key(key('q')));
    assert!(app.exit);
}

#[test]
fn commit_disarms_delete() {
    let mut app = App::new(vec![item(1, "a", 5), item(2, "b", 9)]);
    assert!(!app.handle_key(key('d')));
    assert_eq!(app.delete, Some(0));
    app.handle_key(key('o'));
    app.handle_key(key('n'));
    assert!(app.handle_key(Key::new(KeyCode::Enter, true)));
    assert_eq!(app.delete, None);
    assert_eq!(app.logs.len(), 3);
    let sel = app.selected.unwrap();
    assert_eq!(app.logs[sel].content, "n");
}
