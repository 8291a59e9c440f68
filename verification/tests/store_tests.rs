use todo_tui::item::Item;
use todo_tui::store::Store;

fn store_of(entries: &[(&str, bool)]) -> Store {
    let mut store = Store::new();
    for (text, complete) in entries {
        store.append(Item::new(text.to_string(), *complete));
    }
    store
}

fn texts(store: &Store) -> Vec<(String, bool)> {
    let mut out = Vec::new();
    let mut i = 0;
    while i < store.len() {
        let it = store.get(i);
        out.push((it.text.clone(), it.complete));
        i += 1;
    }
    out
}

#[test]
fn append_and_remove() {
    let mut store = store_of(&[("a", false), ("b", false), ("c", false)]);
    let removed = store.remove(1);
    assert_eq!(removed.text, "b");
    assert_eq!(
        texts(&store),
        vec![("a".to_string(), false), ("c".to_string(), false)]
    );
}

#[test]
fn toggle_flips_only_the_target() {
    let mut store = store_of(&[("a", false), ("b", true)]);
    store.toggle(0);
    assert_eq!(
        texts(&store),
        vec![("a".to_string(), true), ("b".to_string(), true)]
    );
    store.toggle(0);
    assert_eq!(
        texts(&store),
        vec![("a".to_string(), false), ("b".to_string(), true)]
    );
}

#[test]
fn reorder_is_a_stable_partition() {
    let mut store = store_of(&[("A", true), ("B", false), ("C", true), ("D", false)]);
    store.reorder();
    assert_eq!(
        texts(&store),
        vec![
            ("A".to_string(), true),
            ("C".to_string(), true),
            ("B".to_string(), false),
            ("D".to_string(), false)
        ]
    );
}

#[test]
fn reorder_twice_equals_once() {
    let mut once = store_of(&[("A", true), ("B", false), ("C", true), ("D", false)]);
    once.reorder();
    let mut twice = store_of(&[("A", true), ("B", false), ("C", true), ("D", false)]);
    twice.reorder();
    twice.reorder();
    assert_eq!(texts(&once), texts(&twice));
}

#[test]
fn text_editing_on_an_item() {
    let mut store = store_of(&[("ab", false)]);
    store.text_push(0, 'c');
    assert_eq!(store.get(0).text, "abc");
    store.text_backspace(0);
    assert_eq!(store.get(0).text, "ab");
    store.text_backspace(0);
    store.text_backspace(0);
    store.text_backspace(0);
    assert_eq!(store.get(0).text, "");
}

#[test]
fn word_delete_rule_on_an_item() {
    let mut store = store_of(&[("ab cd", false)]);
    store.text_word_delete(0);
    assert_eq!(store.get(0).text, "ab");
    store.text_word_delete(0);
    assert_eq!(store.get(0).text, "");

    let mut trailing = store_of(&[("ab ", false)]);
    trailing.text_word_delete(0);
    assert_eq!(trailing.get(0).text, "ab");
}
