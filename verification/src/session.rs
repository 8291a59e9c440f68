//! The edit session state machine: modes, cursor derivation, and the
//! transition taken for each key event.
//!
//! The whole machine is captured by the spec function [`step`]; the executable
//! [`Session::handle_key`] is proved to implement it exactly, and to preserve
//! the session invariant [`SessionModel::wf`].

use vstd::prelude::*;

use crate::item::{Item, ItemModel};
use crate::store::{reorder_spec, Store};
use crate::text::{pop_char, push_char, word_delete, word_delete_spec};

verus! {

/// Width of the status-marker prefix drawn before an item's text
/// (dash, two-codepoint glyph, space). Edit-mode columns start after it.
pub const TEXT_START: usize = 4;

/// The session mode: viewing the list, composing a new item, or editing the
/// item at a 1-based row.
#[derive(Clone, Copy, PartialEq, Eq, Structural, Debug)]
pub enum Mode {
    View,
    New,
    Edit(usize),
}

/// One decoded key event, as the terminal adapter hands it in. Which command
/// a key means depends on the current mode.
#[derive(Clone, Copy, PartialEq, Eq, Structural, Debug)]
pub enum KeyEvent {
    Char(char),
    Ctrl(char),
    Backspace,
    Other,
}

/// Mathematical model of the mode, with an unbounded edit row.
pub ghost enum ModeModel {
    View,
    New,
    Edit(int),
}

/// Mathematical model of a session: the item models, the mode, the draft text
/// and the 1-based cursor row (0 is the degenerate "above the first item"
/// position, where toggle, delete and edit are disabled).
pub ghost struct SessionModel {
    pub items: Seq<ItemModel>,
    pub mode: ModeModel,
    pub draft: Seq<char>,
    pub row: int,
}

impl SessionModel {
    /// The session invariant: the row stays within the list (or at 1 above an
    /// empty list, with 0 reachable by moving up), an edit mode always points
    /// at an existing item and keeps the row there, and the draft exists only
    /// while composing a new item.
    pub open spec fn wf(self) -> bool {
        &&& 0 <= self.row
        &&& match self.mode {
            ModeModel::View => self.row <= self.items.len() || self.row <= 1,
            ModeModel::New => self.row <= self.items.len() || self.row <= 1,
            ModeModel::Edit(n) => 1 <= n && n <= self.items.len() && self.row == n,
        }
        &&& (!(self.mode is New) ==> self.draft.len() == 0)
    }
}

/// Transition taken from `View` mode.
pub open spec fn step_view(s: SessionModel, k: KeyEvent) -> (SessionModel, bool) {
    match k {
        KeyEvent::Char(c) => if c == 'q' {
            (s, true)
        } else if c == 'd' {
            if 1 <= s.row && s.row <= s.items.len() {
                let items2 = s.items.remove(s.row - 1);
                let row2 = if s.row > items2.len() {
                    items2.len() as int
                } else {
                    s.row
                };
                (SessionModel { items: items2, mode: s.mode, draft: s.draft, row: row2 }, false)
            } else {
                (s, false)
            }
        } else if c == ' ' {
            if 1 <= s.row && s.row <= s.items.len() {
                let flipped = ItemModel {
                    text: s.items[s.row - 1].text,
                    complete: !s.items[s.row - 1].complete,
                };
                (
                    SessionModel {
                        items: s.items.update(s.row - 1, flipped),
                        mode: s.mode,
                        draft: s.draft,
                        row: s.row,
                    },
                    false,
                )
            } else {
                (s, false)
            }
        } else if c == 'n' {
            (SessionModel { items: s.items, mode: ModeModel::New, draft: s.draft, row: s.row }, false)
        } else if c == '\n' {
            if 1 <= s.row && s.row <= s.items.len() {
                (
                    SessionModel {
                        items: s.items,
                        mode: ModeModel::Edit(s.row),
                        draft: s.draft,
                        row: s.row,
                    },
                    false,
                )
            } else {
                (s, false)
            }
        } else if c == 'j' {
            if s.row < s.items.len() {
                (SessionModel { items: s.items, mode: s.mode, draft: s.draft, row: s.row + 1 }, false)
            } else {
                (s, false)
            }
        } else if c == 'k' {
            if s.row > 0 {
                (SessionModel { items: s.items, mode: s.mode, draft: s.draft, row: s.row - 1 }, false)
            } else {
                (s, false)
            }
        } else if c == 'o' {
            (SessionModel { items: reorder_spec(s.items), mode: s.mode, draft: s.draft, row: 1 }, false)
        } else {
            (s, false)
        },
        _ => (s, false),
    }
}

/// Transition taken from `NewItem` mode, operating on the draft.
pub open spec fn step_new(s: SessionModel, k: KeyEvent) -> (SessionModel, bool) {
    match k {
        KeyEvent::Ctrl(c) => if c == 'w' {
            (
                SessionModel {
                    items: s.items,
                    mode: s.mode,
                    draft: word_delete_spec(s.draft),
                    row: s.row,
                },
                false,
            )
        } else {
            (s, false)
        },
        KeyEvent::Char(c) => if c == '\n' {
            let items2 = if s.draft.len() > 0 {
                s.items.push(ItemModel { text: s.draft, complete: false })
            } else {
                s.items
            };
            (
                SessionModel {
                    items: items2,
                    mode: ModeModel::View,
                    draft: Seq::<char>::empty(),
                    row: items2.len() as int,
                },
                false,
            )
        } else {
            (SessionModel { items: s.items, mode: s.mode, draft: s.draft.push(c), row: s.row }, false)
        },
        KeyEvent::Backspace => if s.draft.len() > 0 {
            (SessionModel { items: s.items, mode: s.mode, draft: s.draft.drop_last(), row: s.row }, false)
        } else {
            (s, false)
        },
        KeyEvent::Other => (s, false),
    }
}

/// Transition taken from `EditItem(n)` mode, operating on the item's text in
/// place. Leaving edit mode keeps whatever was typed; there is no cancel.
pub open spec fn step_edit(s: SessionModel, n: int, k: KeyEvent) -> (SessionModel, bool) {
    match k {
        KeyEvent::Ctrl(c) => if c == 'w' {
            let edited = ItemModel {
                text: word_delete_spec(s.items[n - 1].text),
                complete: s.items[n - 1].complete,
            };
            (
                SessionModel {
                    items: s.items.update(n - 1, edited),
                    mode: s.mode,
                    draft: s.draft,
                    row: n,
                },
                false,
            )
        } else {
            (s, false)
        },
        KeyEvent::Char(c) => if c == '\n' {
            (SessionModel { items: s.items, mode: ModeModel::View, draft: s.draft, row: n }, false)
        } else {
            let edited = ItemModel {
                text: s.items[n - 1].text.push(c),
                complete: s.items[n - 1].complete,
            };
            (
                SessionModel {
                    items: s.items.update(n - 1, edited),
                    mode: s.mode,
                    draft: s.draft,
                    row: n,
                },
                false,
            )
        },
        KeyEvent::Backspace => {
            let edited = ItemModel {
                text: if s.items[n - 1].text.len() > 0 {
                    s.items[n - 1].text.drop_last()
                } else {
                    s.items[n - 1].text
                },
                complete: s.items[n - 1].complete,
            };
            (
                SessionModel {
                    items: s.items.update(n - 1, edited),
                    mode: s.mode,
                    draft: s.draft,
                    row: n,
                },
                false,
            )
        },
        KeyEvent::Other => (s, false),
    }
}

/// The whole state machine: what one key event does to a session, and whether
/// it ends the session.
pub open spec fn step(s: SessionModel, k: KeyEvent) -> (SessionModel, bool) {
    match s.mode {
        ModeModel::View => step_view(s, k),
        ModeModel::New => step_new(s, k),
        ModeModel::Edit(n) => step_edit(s, n, k),
    }
}

/// Every transition preserves the session invariant.
pub proof fn lemma_step_preserves_wf(s: SessionModel, k: KeyEvent)
    requires
        s.wf(),
    ensures
        step(s, k).0.wf(),
{
}

/// The terminal cursor a session shows, 1-based `(column, row)`, derived from
/// the mode and the text lengths, never tracked separately: the command column
/// in view mode, one past the draft on the line below the list while composing,
/// and one past the item's text, behind the status prefix, while editing.
pub open spec fn cursor_spec(s: SessionModel) -> (int, int) {
    match s.mode {
        ModeModel::View => (1, s.row),
        ModeModel::New => (1 + s.draft.len() as int, s.items.len() as int + 1),
        ModeModel::Edit(n) => (TEXT_START as int + 1 + s.items[n - 1].text.len() as int, n),
    }
}

/// Whether the derived cursor column and row fit in `usize`; only sessions
/// grown past any real machine's memory fail this.
pub open spec fn cursor_fits(s: SessionModel) -> bool {
    match s.mode {
        ModeModel::View => true,
        ModeModel::New => s.draft.len() + 1 <= usize::MAX && s.items.len() + 1 <= usize::MAX,
        ModeModel::Edit(n) => s.items[n - 1].text.len() + TEXT_START as int + 1 <= usize::MAX,
    }
}

/// The interactive edit session: the store, the mode, the transient draft and
/// the cursor row. `handle_key` keeps `self@.wf()`; so does every constructor.
/// Mutating the fields directly can break that invariant, which `handle_key`
/// then requires again.
pub struct Session {
    pub store: Store,
    pub mode: Mode,
    pub draft: String,
    pub row: usize,
}

impl View for Session {
    type V = SessionModel;

    open spec fn view(&self) -> SessionModel {
        SessionModel {
            items: self.store@,
            mode: match self.mode {
                Mode::View => ModeModel::View,
                Mode::New => ModeModel::New,
                Mode::Edit(n) => ModeModel::Edit(n as int),
            },
            draft: self.draft@,
            row: self.row as int,
        }
    }
}

impl Session {
    /// Starts a session over the given store: view mode, empty draft, cursor
    /// on the first row.
    pub fn new(store: Store) -> (s: Session)
        ensures
            s@ == (SessionModel {
                items: store@,
                mode: ModeModel::View,
                draft: Seq::<char>::empty(),
                row: 1,
            }),
            s@.wf(),
    {
        let s = Session { store, mode: Mode::View, draft: String::new(), row: 1 };
        s
    }

    /// Consumes one key event: mutates the session exactly as [`step`] says,
    /// and reports whether the session ends.
    pub fn handle_key(&mut self, key: KeyEvent) -> (quit: bool)
        requires
            old(self)@.wf(),
        ensures
            final(self)@ == step(old(self)@, key).0,
            quit == step(old(self)@, key).1,
            final(self)@.wf(),
    {
        let ghost pre = self@;
        let mut quit = false;
        match self.mode {
            Mode::View => {
                match key {
                    KeyEvent::Char(c) => {
                        if c == 'q' {
                            quit = true;
                        } else if c == 'd' {
                            let len = self.store.len();
                            if 1 <= self.row && self.row <= len {
                                let _ = self.store.remove(self.row - 1);
                                let len2 = self.store.len();
                                if self.row > len2 {
                                    self.row = len2;
                                }
                            }
                        } else if c == ' ' {
                            let len = self.store.len();
                            if 1 <= self.row && self.row <= len {
                                self.store.toggle(self.row - 1);
                            }
                        } else if c == 'n' {
                            self.mode = Mode::New;
                        } else if c == '\n' {
                            let len = self.store.len();
                            if 1 <= self.row && self.row <= len {
                                self.mode = Mode::Edit(self.row);
                            }
                        } else if c == 'j' {
                            if self.row < self.store.len() {
                                self.row = self.row + 1;
                            }
                        } else if c == 'k' {
                            if self.row > 0 {
                                self.row = self.row - 1;
                            }
                        } else if c == 'o' {
                            self.row = 1;
                            self.store.reorder();
                        }
                    },
                    _ => {},
                }
            },
            Mode::New => {
                match key {
                    KeyEvent::Ctrl(c) => {
                        if c == 'w' {
                            word_delete(&mut self.draft);
                        }
                    },
                    KeyEvent::Char(c) => {
                        if c == '\n' {
                            if !self.draft.as_str().is_empty() {
                                let mut text = String::new();
                                core::mem::swap(&mut text, &mut self.draft);
                                self.store.append(Item::new(text, false));
                            }
                            self.mode = Mode::View;
                            self.row = self.store.len();
                            proof {
                                assert(self.draft@ =~= Seq::<char>::empty());
                            }
                        } else {
                            push_char(&mut self.draft, c);
                        }
                    },
                    KeyEvent::Backspace => {
                        let _ = pop_char(&mut self.draft);
                    },
                    KeyEvent::Other => {},
                }
            },
            Mode::Edit(n) => {
                match key {
                    KeyEvent::Ctrl(c) => {
                        if c == 'w' {
                            self.store.text_word_delete(n - 1);
                            self.row = n;
                        }
                    },
                    KeyEvent::Char(c) => {
                        if c == '\n' {
                            self.mode = Mode::View;
                            self.row = n;
                        } else {
                            self.store.text_push(n - 1, c);
                            self.row = n;
                        }
                    },
                    KeyEvent::Backspace => {
                        self.store.text_backspace(n - 1);
                        self.row = n;
                    },
                    KeyEvent::Other => {},
                }
            },
        }
        proof {
            lemma_step_preserves_wf(pre, key);
        }
        quit
    }

    /// Whether the derived cursor fits in `usize`, so that [`Session::cursor`]
    /// may be called. Callers outside verified code test this first.
    pub fn cursor_ready(&self) -> (r: bool)
        requires
            self@.wf(),
        ensures
            r == cursor_fits(self@),
    {
        match self.mode {
            Mode::View => true,
            Mode::New => {
                let d = self.draft.as_str().unicode_len();
                d <= usize::MAX - 1 && self.store.len() <= usize::MAX - 1
            },
            Mode::Edit(n) => {
                let t = self.store.get(n - 1).text.as_str().unicode_len();
                t <= usize::MAX - TEXT_START - 1
            },
        }
    }

    /// The 1-based `(column, row)` terminal cursor for the current state,
    /// recomputed from the mode and lengths as [`cursor_spec`] says.
    pub fn cursor(&self) -> (c: (usize, usize))
        requires
            self@.wf(),
            cursor_fits(self@),
        ensures
            (c.0 as int, c.1 as int) == cursor_spec(self@),
    {
        match self.mode {
            Mode::View => (1, self.row),
            Mode::New => {
                let d = self.draft.as_str().unicode_len();
                (1 + d, self.store.len() + 1)
            },
            Mode::Edit(n) => {
                let t = self.store.get(n - 1).text.as_str().unicode_len();
                (TEXT_START + 1 + t, n)
            },
        }
    }
}

/// Deleting with the cursor on a valid row shrinks the store by exactly one
/// and clamps the row to the new length when it would exceed it.
pub proof fn lemma_delete_shrinks_and_clamps(s: SessionModel)
    requires
        s.wf(),
        s.mode is View,
        1 <= s.row <= s.items.len(),
    ensures
        step(s, KeyEvent::Char('d')).0.items.len() == s.items.len() - 1,
        step(s, KeyEvent::Char('d')).0.row == if s.row > s.items.len() - 1 {
            s.items.len() - 1
        } else {
            s.row as int
        },
{
}

/// Confirming a new item with an empty draft is a no-op on the store: the
/// session just returns to view mode, cursor on the last row.
pub proof fn lemma_empty_draft_confirm_noop(s: SessionModel)
    requires
        s.wf(),
        s.mode is New,
        s.draft.len() == 0,
    ensures
        step(s, KeyEvent::Char('\n')).0.items == s.items,
        step(s, KeyEvent::Char('\n')).0.mode is View,
        step(s, KeyEvent::Char('\n')).0.row == s.items.len() as int,
{
}

/// Edit-mode backspace cannot erase past the text-start boundary column: the
/// column never sits before it, backspace keeps it there, and at the boundary
/// (empty text) backspace changes nothing, however often it is pressed.
pub proof fn lemma_edit_backspace_boundary(s: SessionModel, n: int)
    requires
        s.wf(),
        s.mode == ModeModel::Edit(n),
    ensures
        cursor_spec(s).0 >= TEXT_START as int + 1,
        cursor_spec(step(s, KeyEvent::Backspace).0).0 >= TEXT_START as int + 1,
        step(s, KeyEvent::Backspace).0.mode == ModeModel::Edit(n),
        s.items[n - 1].text.len() == 0 ==> step(s, KeyEvent::Backspace).0 == s,
{
    let s2 = step(s, KeyEvent::Backspace).0;
    assert(s2.items[n - 1] == ItemModel {
        text: if s.items[n - 1].text.len() > 0 {
            s.items[n - 1].text.drop_last()
        } else {
            s.items[n - 1].text
        },
        complete: s.items[n - 1].complete,
    });
    if s.items[n - 1].text.len() == 0 {
        assert(s2.items =~= s.items);
    }
}

} // verus!
