use todo_tui::item::Item;
use todo_tui::session::{KeyEvent, Mode, Session};
use todo_tui::store::Store;

fn store_of(entries: &[(&str, bool)]) -> Store {
    let mut store = Store::new();
    for (text, complete) in entries {
        store.append(Item::new(text.to_string(), *complete));
    }
    store
}

fn texts(store: &Store) -> Vec<(String, bool)> {
    let mut out = Vec::new();
    let mut i = 0;
    while i < store.len() {
        let it = store.get(i);
        out.push((it.text.clone(), it.complete));
        i += 1;
    }
    out
}

fn press(session: &mut Session, keys: &[KeyEvent]) {
    for key in keys {
        let quit = session.handle_key(*key);
        assert!(!quit);
    }
}

#[test]
fn new_item_commit_from_empty_store() {
    let mut session = Session::new(Store::new());
    press(
        &mut session,
        &[
            KeyEvent::Char('n'),
            KeyEvent::Char('e'),
            KeyEvent::Char('g'),
            KeyEvent::Char('g'),
            KeyEvent::Char('s'),
        ],
    );
    assert_eq!(session.cursor(), (5, 1));
    press(&mut session, &[KeyEvent::Char('\n')]);
    assert_eq!(texts(&session.store), vec![("eggs".to_string(), false)]);
    assert_eq!(session.mode, Mode::View);
    assert_eq!(session.cursor(), (1, 1));
    assert_eq!(session.draft, "");
}

#[test]
fn empty_draft_confirm_is_a_noop() {
    let mut session = Session::new(store_of(&[("a", false)]));
    press(&mut session, &[KeyEvent::Char('n'), KeyEvent::Char('\n')]);
    assert_eq!(texts(&session.store), vec![("a".to_string(), false)]);
    assert_eq!(session.mode, Mode::View);
    assert_eq!(session.cursor(), (1, 1));
}

#[test]
fn delete_shrinks_store_and_clamps_cursor() {
    let mut session = Session::new(store_of(&[("a", false), ("b", false), ("c", false)]));
    press(&mut session, &[KeyEvent::Char('j'), KeyEvent::Char('j')]);
    assert_eq!(session.row, 3);
    press(&mut session, &[KeyEvent::Char('d')]);
    assert_eq!(session.store.len(), 2);
    assert_eq!(session.row, 2);
}

#[test]
fn delete_in_the_middle_keeps_cursor_row() {
    let mut session = Session::new(store_of(&[("a", false), ("b", false), ("c", false)]));
    press(&mut session, &[KeyEvent::Char('d')]);
    assert_eq!(
        texts(&session.store),
        vec![("b".to_string(), false), ("c".to_string(), false)]
    );
    assert_eq!(session.row, 1);
}

#[test]
fn delete_last_item_leaves_row_zero() {
    let mut session = Session::new(store_of(&[("a", false)]));
    press(&mut session, &[KeyEvent::Char('d')]);
    assert_eq!(session.store.len(), 0);
    assert_eq!(session.row, 0);
}

#[test]
fn edit_backspace_stops_at_text_start_boundary() {
    let mut session = Session::new(store_of(&[("ab", false)]));
    press(&mut session, &[KeyEvent::Char('\n')]);
    assert_eq!(session.mode, Mode::Edit(1));
    assert_eq!(session.cursor(), (7, 1));
    press(
        &mut session,
        &[
            KeyEvent::Backspace,
            KeyEvent::Backspace,
            KeyEvent::Backspace,
            KeyEvent::Backspace,
            KeyEvent::Backspace,
        ],
    );
    assert_eq!(session.store.get(0).text, "");
    assert_eq!(session.mode, Mode::Edit(1));
    assert_eq!(session.cursor(), (5, 1));
    press(&mut session, &[KeyEvent::Char('z'), KeyEvent::Char('\n')]);
    assert_eq!(texts(&session.store), vec![("z".to_string(), false)]);
    assert_eq!(session.mode, Mode::View);
    assert_eq!(session.cursor(), (1, 1));
}

#[test]
fn word_delete_in_new_mode() {
    let mut session = Session::new(Store::new());
    press(
        &mut session,
        &[
            KeyEvent::Char('n'),
            KeyEvent::Char('a'),
            KeyEvent::Char('b'),
            KeyEvent::Char(' '),
            KeyEvent::Char('c'),
            KeyEvent::Char('d'),
        ],
    );
    press(&mut session, &[KeyEvent::Ctrl('w')]);
    assert_eq!(session.draft, "ab");
    press(&mut session, &[KeyEvent::Ctrl('w')]);
    assert_eq!(session.draft, "");
    press(&mut session, &[KeyEvent::Ctrl('w')]);
    assert_eq!(session.draft, "");
}

#[test]
fn word_delete_consumes_one_trailing_space() {
    let mut session = Session::new(Store::new());
    press(
        &mut session,
        &[
            KeyEvent::Char('n'),
            KeyEvent::Char('a'),
            KeyEvent::Char('b'),
            KeyEvent::Char(' '),
        ],
    );
    press(&mut session, &[KeyEvent::Ctrl('w')]);
    assert_eq!(session.draft, "ab");
}

#[test]
fn toggle_flips_item_under_cursor() {
    let mut session = Session::new(store_of(&[("a", false), ("b", false)]));
    press(&mut session, &[KeyEvent::Char('j'), KeyEvent::Char(' ')]);
    assert_eq!(
        texts(&session.store),
        vec![("a".to_string(), false), ("b".to_string(), true)]
    );
}

#[test]
fn navigation_clamps_to_list() {
    let mut session = Session::new(store_of(&[("a", false), ("b", false)]));
    press(&mut session, &[KeyEvent::Char('j'), KeyEvent::Char('j'), KeyEvent::Char('j')]);
    assert_eq!(session.row, 2);
    press(
        &mut session,
        &[KeyEvent::Char('k'), KeyEvent::Char('k'), KeyEvent::Char('k')],
    );
    assert_eq!(session.row, 0);
}

#[test]
fn row_zero_disables_toggle_delete_and_edit() {
    let mut session = Session::new(store_of(&[("a", false)]));
    press(&mut session, &[KeyEvent::Char('k')]);
    assert_eq!(session.row, 0);
    press(&mut session, &[KeyEvent::Char(' '), KeyEvent::Char('d'), KeyEvent::Char('\n')]);
    assert_eq!(texts(&session.store), vec![("a".to_string(), false)]);
    assert_eq!(session.mode, Mode::View);
    assert_eq!(session.row, 0);
}

#[test]
fn empty_store_disables_toggle_delete_and_edit() {
    let mut session = Session::new(Store::new());
    assert_eq!(session.row, 1);
    press(&mut session, &[KeyEvent::Char(' '), KeyEvent::Char('d'), KeyEvent::Char('\n')]);
    assert_eq!(session.store.len(), 0);
    assert_eq!(session.mode, Mode::View);
}

#[test]
fn reorder_key_partitions_and_homes_cursor() {
    let mut session = Session::new(store_of(&[
        ("A", true),
        ("B", false),
        ("C", true),
        ("D", false),
    ]));
    press(&mut session, &[KeyEvent::Char('j'), KeyEvent::Char('o')]);
    assert_eq!(session.row, 1);
    assert_eq!(
        texts(&session.store),
        vec![
            ("A".to_string(), true),
            ("C".to_string(), true),
            ("B".to_string(), false),
            ("D".to_string(), false)
        ]
    );
}

#[test]
fn quit_key_ends_the_session() {
    let mut session = Session::new(store_of(&[("a", false)]));
    assert!(session.handle_key(KeyEvent::Char('q')));
    assert_eq!(texts(&session.store), vec![("a".to_string(), false)]);
}

#[test]
fn unbound_keys_are_noops() {
    let mut session = Session::new(store_of(&[("a", true)]));
    press(
        &mut session,
        &[KeyEvent::Other, KeyEvent::Ctrl('w'), KeyEvent::Backspace, KeyEvent::Char('z')],
    );
    assert_eq!(texts(&session.store), vec![("a".to_string(), true)]);
    assert_eq!(session.mode, Mode::View);
    assert_eq!(session.row, 1);
    press(&mut session, &[KeyEvent::Char('n'), KeyEvent::Ctrl('x'), KeyEvent::Other]);
    assert_eq!(session.draft, "");
    assert_eq!(session.mode, Mode::New);
}

#[test]
fn new_mode_cursor_tracks_draft_and_list() {
    let mut session = Session::new(store_of(&[("a", false)]));
    press(&mut session, &[KeyEvent::Char('n')]);
    assert_eq!(session.cursor(), (1, 2));
    press(&mut session, &[KeyEvent::Char('h'), KeyEvent::Char('i')]);
    assert_eq!(session.cursor(), (3, 2));
    press(&mut session, &[KeyEvent::Backspace]);
    assert_eq!(session.cursor(), (2, 2));
}

#[test]
fn cursor_ready_on_ordinary_sessions() {
    let mut session = Session::new(store_of(&[("ab", false)]));
    assert!(session.cursor_ready());
    press(&mut session, &[KeyEvent::Char('\n')]);
    assert!(session.cursor_ready());
    press(&mut session, &[KeyEvent::Char('\n'), KeyEvent::Char('n')]);
    assert!(session.cursor_ready());
}

#[test]
fn new_mode_backspace_at_start_is_a_noop() {
    let mut session = Session::new(Store::new());
    press(&mut session, &[KeyEvent::Char('n'), KeyEvent::Backspace]);
    assert_eq!(session.draft, "");
    assert_eq!(session.cursor(), (1, 1));
}
