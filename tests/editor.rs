use mtg_search::app::{clamp_selection, App, Flow, KeyCode, KeyInput};
use mtg_search::collection::CollectionStore;

fn empty_app() -> App {
    let store = CollectionStore::from_fetched(vec![Ok(Vec::new()), Ok(Vec::new())]).unwrap();
    App::new(store)
}

fn press(code: KeyCode) -> KeyInput {
    KeyInput { code, control_only: false, press: true }
}

#[test]
fn typing_moving_and_deleting() {
    let mut app = empty_app();
    for c in "lig".chars() {
        assert_eq!(app.handle_key(press(KeyCode::Char(c))), Flow::Continue);
    }
    assert_eq!(app.search, "lig");
    assert_eq!(app.character_index, 3);
    app.handle_key(press(KeyCode::Left));
    app.handle_key(press(KeyCode::Left));
    assert_eq!(app.character_index, 1);
    app.handle_key(press(KeyCode::Backspace));
    // the character before the cursor ('l') goes
    assert_eq!(app.search, "ig");
    assert_eq!(app.character_index, 0);
}

#[test]
fn insert_in_middle_of_multibyte_text() {
    let mut app = empty_app();
    for c in "héllo".chars() {
        app.enter_char(c);
    }
    assert_eq!(app.character_index, 5);
    app.move_cursor_left();
    app.move_cursor_left();
    app.move_cursor_left();
    assert_eq!(app.character_index, 2);
    assert_eq!(app.byte_index(), 3);
    app.enter_char('€');
    assert_eq!(app.search, "hé€llo");
    assert_eq!(app.character_index, 3);
    assert_eq!(app.byte_index(), 6);
}

#[test]
fn insert_then_delete_restores_text_and_cursor() {
    let mut app = empty_app();
    for c in "añb".chars() {
        app.enter_char(c);
    }
    app.move_cursor_left();
    let before = app.search.clone();
    let cursor = app.character_index;
    app.enter_char('ß');
    app.delete_char();
    assert_eq!(app.search, before);
    assert_eq!(app.character_index, cursor);
}

#[test]
fn cursor_stops_at_both_ends() {
    let mut app = empty_app();
    app.move_cursor_left();
    assert_eq!(app.character_index, 0);
    app.delete_char();
    assert_eq!(app.search, "");
    app.enter_char('x');
    app.move_cursor_right();
    app.move_cursor_right();
    assert_eq!(app.character_index, 1);
    assert_eq!(app.clamp_cursor(7), 1);
    assert_eq!(app.clamp_cursor(0), 0);
}

#[test]
fn quit_keys_change_nothing() {
    let mut app = empty_app();
    app.enter_char('a');
    assert_eq!(app.handle_key(press(KeyCode::Esc)), Flow::Quit);
    let ctrl_c = KeyInput { code: KeyCode::Char('c'), control_only: true, press: false };
    assert_eq!(app.handle_key(ctrl_c), Flow::Quit);
    assert_eq!(app.search, "a");
    assert_eq!(app.character_index, 1);
}

#[test]
fn released_and_unknown_keys_are_ignored() {
    let mut app = empty_app();
    let release = KeyInput { code: KeyCode::Char('z'), control_only: false, press: false };
    assert_eq!(app.handle_key(release), Flow::Continue);
    assert_eq!(app.handle_key(press(KeyCode::Other)), Flow::Continue);
    assert_eq!(app.search, "");
    assert_eq!(app.character_index, 0);
    let ctrl_x = KeyInput { code: KeyCode::Char('x'), control_only: true, press: true };
    assert_eq!(app.handle_key(ctrl_x), Flow::Continue);
    assert_eq!(app.search, "x");
}

#[test]
fn selection_is_clamped() {
    assert_eq!(clamp_selection(None, 3), None);
    assert_eq!(clamp_selection(Some(1), 3), Some(1));
    assert_eq!(clamp_selection(Some(5), 3), Some(2));
    assert_eq!(clamp_selection(Some(0), 0), None);
}
