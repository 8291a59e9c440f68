use todo_tui::item::Item;
use todo_tui::render::{render, DrawCmd};
use todo_tui::session::{KeyEvent, Session};
use todo_tui::store::Store;

fn store_of(entries: &[(&str, bool)]) -> Store {
    let mut store = Store::new();
    for (text, complete) in entries {
        store.append(Item::new(text.to_string(), *complete));
    }
    store
}

#[test]
fn render_view_frame() {
    let session = Session::new(store_of(&[("milk", true), ("dog", false)]));
    let cmds = render(&session);
    assert_eq!(
        cmds,
        vec![
            DrawCmd::Goto(1, 1),
            DrawCmd::ClearAll,
            DrawCmd::Goto(1, 1),
            DrawCmd::Text("-\u{2705}".to_string()),
            DrawCmd::Text(" milk".to_string()),
            DrawCmd::Goto(1, 2),
            DrawCmd::Text("-\u{274C}".to_string()),
            DrawCmd::Text(" dog".to_string()),
            DrawCmd::Goto(1, 1),
        ]
    );
}

#[test]
fn render_empty_store_only_clears_and_homes() {
    let session = Session::new(Store::new());
    let cmds = render(&session);
    assert_eq!(
        cmds,
        vec![DrawCmd::Goto(1, 1), DrawCmd::ClearAll, DrawCmd::Goto(1, 1)]
    );
}

#[test]
fn render_draft_line_below_list() {
    let mut session = Session::new(store_of(&[("a", false)]));
    session.handle_key(KeyEvent::Char('n'));
    session.handle_key(KeyEvent::Char('h'));
    session.handle_key(KeyEvent::Char('i'));
    let cmds = render(&session);
    assert_eq!(
        cmds,
        vec![
            DrawCmd::Goto(1, 1),
            DrawCmd::ClearAll,
            DrawCmd::Goto(1, 1),
            DrawCmd::Text("-\u{274C}".to_string()),
            DrawCmd::Text(" a".to_string()),
            DrawCmd::Goto(1, 2),
            DrawCmd::Text("hi".to_string()),
            DrawCmd::Goto(3, 2),
        ]
    );
}

#[test]
fn render_omits_empty_draft_line() {
    let mut session = Session::new(Store::new());
    session.handle_key(KeyEvent::Char('n'));
    let cmds = render(&session);
    assert_eq!(
        cmds,
        vec![DrawCmd::Goto(1, 1), DrawCmd::ClearAll, DrawCmd::Goto(1, 1)]
    );
}

#[test]
fn render_edit_mode_cursor_after_text() {
    let mut session = Session::new(store_of(&[("ab", false)]));
    session.handle_key(KeyEvent::Char('\n'));
    let cmds = render(&session);
    assert_eq!(cmds.last(), Some(&DrawCmd::Goto(7, 1)));
}
