//! The item store: the ordered collection of all todo items for the session.
//!
//! Indices here are 0-based; the session layer converts from its 1-based rows.
//! Calling `remove`, `toggle` or the text editors with an out-of-range index
//! is a caller bug, ruled out by their preconditions.

use vstd::prelude::*;

use crate::item::{Item, ItemModel};
use crate::text::{pop_char, push_char, word_delete, word_delete_spec};

verus! {

/// The order after `reorder`: a stable partition that places every complete
/// item before every incomplete one. `filter` keeps relative order, so the
/// order inside each completion group is preserved.
pub open spec fn reorder_spec(s: Seq<ItemModel>) -> Seq<ItemModel> {
    s.filter(|m: ItemModel| m.complete) + s.filter(|m: ItemModel| !m.complete)
}

/// The ordered sequence of todo items. Its model is the sequence of item
/// models, in display order.
pub struct Store {
    pub items: Vec<Item>,
}

impl View for Store {
    type V = Seq<ItemModel>;

    open spec fn view(&self) -> Seq<ItemModel> {
        self.items@.map_values(|it: Item| it@)
    }
}

impl Store {
    /// An empty store.
    pub fn new() -> (s: Store)
        ensures
            s@ == Seq::<ItemModel>::empty(),
    {
        let s = Store { items: Vec::new() };
        proof {
            assert(s@ =~= Seq::<ItemModel>::empty());
        }
        s
    }

    /// Number of items.
    pub fn len(&self) -> (n: usize)
        ensures
            n == self@.len(),
    {
        self.items.len()
    }

    /// Read access to the item at `i`.
    pub fn get(&self, i: usize) -> (it: &Item)
        requires
            i < self@.len(),
        ensures
            it@ == self@[i as int],
    {
        &self.items[i]
    }

    /// Appends an item at the end.
    pub fn append(&mut self, it: Item)
        ensures
            final(self)@ == old(self)@.push(it@),
    {
        self.items.push(it);
        proof {
            assert(final(self)@ =~= old(self)@.push(final(self).items@.last()@));
        }
    }

    /// Removes the item at `i`, shifting the later items down by one.
    pub fn remove(&mut self, i: usize) -> (it: Item)
        requires
            i < old(self)@.len(),
        ensures
            final(self)@ == old(self)@.remove(i as int),
            it@ == old(self)@[i as int],
    {
        let it = self.items.remove(i);
        proof {
            assert(final(self)@ =~= old(self)@.remove(i as int));
        }
        it
    }

    /// Flips the completion flag of the item at `i`.
    pub fn toggle(&mut self, i: usize)
        requires
            i < old(self)@.len(),
        ensures
            final(self)@ == old(self)@.update(
                i as int,
                ItemModel {
                    text: old(self)@[i as int].text,
                    complete: !old(self)@[i as int].complete,
                },
            ),
    {
        let mut it = self.items.remove(i);
        it.complete = !it.complete;
        self.items.insert(i, it);
        proof {
            assert(final(self)@ =~= old(self)@.update(
                i as int,
                ItemModel {
                    text: old(self)@[i as int].text,
                    complete: !old(self)@[i as int].complete,
                },
            ));
        }
    }

    /// Appends a character to the text of the item at `i`.
    pub fn text_push(&mut self, i: usize, c: char)
        requires
            i < old(self)@.len(),
        ensures
            final(self)@ == old(self)@.update(
                i as int,
                ItemModel {
                    text: old(self)@[i as int].text.push(c),
                    complete: old(self)@[i as int].complete,
                },
            ),
    {
        let mut it = self.items.remove(i);
        push_char(&mut it.text, c);
        self.items.insert(i, it);
        proof {
            assert(final(self)@ =~= old(self)@.update(
                i as int,
                ItemModel {
                    text: old(self)@[i as int].text.push(c),
                    complete: old(self)@[i as int].complete,
                },
            ));
        }
    }

    /// Drops the last character of the text of the item at `i`; with empty
    /// text the item is left unchanged.
    pub fn text_backspace(&mut self, i: usize)
        requires
            i < old(self)@.len(),
        ensures
            final(self)@ == old(self)@.update(
                i as int,
                ItemModel {
                    text: if old(self)@[i as int].text.len() > 0 {
                        old(self)@[i as int].text.drop_last()
                    } else {
                        old(self)@[i as int].text
                    },
                    complete: old(self)@[i as int].complete,
                },
            ),
    {
        let mut it = self.items.remove(i);
        let _ = pop_char(&mut it.text);
        self.items.insert(i, it);
        proof {
            assert(final(self)@ =~= old(self)@.update(
                i as int,
                ItemModel {
                    text: if old(self)@[i as int].text.len() > 0 {
                        old(self)@[i as int].text.drop_last()
                    } else {
                        old(self)@[i as int].text
                    },
                    complete: old(self)@[i as int].complete,
                },
            ));
        }
    }

    /// Applies the word-delete rule to the text of the item at `i`.
    pub fn text_word_delete(&mut self, i: usize)
        requires
            i < old(self)@.len(),
        ensures
            final(self)@ == old(self)@.update(
                i as int,
                ItemModel {
                    text: word_delete_spec(old(self)@[i as int].text),
                    complete: old(self)@[i as int].complete,
                },
            ),
    {
        let mut it = self.items.remove(i);
        word_delete(&mut it.text);
        self.items.insert(i, it);
        proof {
            assert(final(self)@ =~= old(self)@.update(
                i as int,
                ItemModel {
                    text: word_delete_spec(old(self)@[i as int].text),
                    complete: old(self)@[i as int].complete,
                },
            ));
        }
    }

    /// Stably partitions the items, complete ones first. Relative order is
    /// preserved within each group.
    pub fn reorder(&mut self)
        ensures
            final(self)@ == reorder_spec(old(self)@),
    {
        broadcast use vstd::seq_lib::group_filter_ensures;

        let ghost orig: Seq<ItemModel> = self@;
        let mut rest: Vec<Item> = Vec::new();
        core::mem::swap(&mut rest, &mut self.items);
        let mut front: Vec<Item> = Vec::new();
        let mut back: Vec<Item> = Vec::new();
        proof {
            assert(rest@.map_values(|it: Item| it@) =~= orig.subrange(0, orig.len() as int));
        }
        let ghost k: int = 0;
        while rest.len() > 0
            invariant
                0 <= k <= orig.len(),
                rest@.map_values(|it: Item| it@) == orig.subrange(k, orig.len() as int),
                front@.map_values(|it: Item| it@) == orig.subrange(0, k).filter(
                    |m: ItemModel| m.complete,
                ),
                back@.map_values(|it: Item| it@) == orig.subrange(0, k).filter(
                    |m: ItemModel| !m.complete,
                ),
            decreases rest@.len(),
        {
            proof {
                assert(rest@.map_values(|it: Item| it@).len() == rest@.len());
                assert(k < orig.len());
            }
            let ghost rest_pre = rest@;
            let ghost front_pre = front@;
            let ghost back_pre = back@;
            let it = rest.remove(0);
            proof {
                let cp = |m: ItemModel| m.complete;
                let np = |m: ItemModel| !m.complete;
                let f = |it2: Item| it2@;
                assert(rest_pre.map_values(f)[0] == orig.subrange(k, orig.len() as int)[0]);
                assert(it@ == orig[k]);
                assert forall|i: int| 0 <= i < rest@.len() implies #[trigger] rest@.map_values(f)[i]
                    == orig.subrange(k + 1, orig.len() as int)[i] by {
                    assert(rest@[i] == rest_pre[i + 1]);
                    assert(rest_pre.map_values(f)[i + 1] == orig.subrange(k, orig.len() as int)[i
                        + 1]);
                }
                assert(rest@.map_values(f) =~= orig.subrange(k + 1, orig.len() as int));
                // One more element of the prefix has been classified.
                assert(orig.subrange(0, k + 1) =~= orig.subrange(0, k) + seq![orig[k]]);
                assert((orig.subrange(0, k) + seq![orig[k]]).filter(cp) == orig.subrange(0, k).filter(
                    cp,
                ) + seq![orig[k]].filter(cp));
                assert((orig.subrange(0, k) + seq![orig[k]]).filter(np) == orig.subrange(0, k).filter(
                    np,
                ) + seq![orig[k]].filter(np));
                reveal(Seq::filter);
                assert(seq![orig[k]].drop_last() =~= Seq::<ItemModel>::empty());
                assert(Seq::<ItemModel>::empty().filter(cp) =~= Seq::<ItemModel>::empty());
                assert(Seq::<ItemModel>::empty().filter(np) =~= Seq::<ItemModel>::empty());
                assert(seq![orig[k]].last() == orig[k]);
                if orig[k].complete {
                    assert(seq![orig[k]].filter(cp) =~= seq![orig[k]]);
                    assert(seq![orig[k]].filter(np) =~= Seq::<ItemModel>::empty());
                } else {
                    assert(seq![orig[k]].filter(cp) =~= Seq::<ItemModel>::empty());
                    assert(seq![orig[k]].filter(np) =~= seq![orig[k]]);
                }
            }
            if it.complete {
                front.push(it);
                proof {
                    let f = |it2: Item| it2@;
                    assert forall|i: int| 0 <= i < front@.len() implies #[trigger] front@.map_values(
                        f,
                    )[i] == (front_pre.map_values(f) + seq![orig[k]])[i] by {
                        if i < front_pre.len() {
                            assert(front@[i] == front_pre[i]);
                            assert(front_pre.map_values(f)[i] == f(front_pre[i]));
                        } else {
                            assert(front@[i] == it);
                        }
                    }
                    assert(front@.map_values(f) =~= front_pre.map_values(f) + seq![orig[k]]);
                    assert(front@.map_values(f) =~= orig.subrange(0, k + 1).filter(
                        |m: ItemModel| m.complete,
                    ));
                    assert(back@.map_values(f) =~= orig.subrange(0, k + 1).filter(
                        |m: ItemModel| !m.complete,
                    ));
                }
            } else {
                back.push(it);
                proof {
                    let f = |it2: Item| it2@;
                    assert forall|i: int| 0 <= i < back@.len() implies #[trigger] back@.map_values(
                        f,
                    )[i] == (back_pre.map_values(f) + seq![orig[k]])[i] by {
                        if i < back_pre.len() {
                            assert(back@[i] == back_pre[i]);
                            assert(back_pre.map_values(f)[i] == f(back_pre[i]));
                        } else {
                            assert(back@[i] == it);
                        }
                    }
                    assert(back@.map_values(f) =~= back_pre.map_values(f) + seq![orig[k]]);
                    assert(back@.map_values(f) =~= orig.subrange(0, k + 1).filter(
                        |m: ItemModel| !m.complete,
                    ));
                    assert(front@.map_values(f) =~= orig.subrange(0, k + 1).filter(
                        |m: ItemModel| m.complete,
                    ));
                }
            }
            proof {
                k = k + 1;
            }
        }
        proof {
            assert(orig.subrange(0, k) =~= orig);
        }
        self.items = front;
        self.items.append(&mut back);
        proof {
            assert(final(self)@ =~= orig.filter(|m: ItemModel| m.complete) + orig.filter(
                |m: ItemModel| !m.complete,
            ));
        }
    }
}

/// Every element of a filtered sequence satisfies the predicate, so filtering
/// a second time with the same predicate changes nothing.
proof fn lemma_filter_all(s: Seq<ItemModel>, pred: spec_fn(ItemModel) -> bool)
    requires
        forall|i: int| 0 <= i < s.len() ==> pred(#[trigger] s[i]),
    ensures
        s.filter(pred) == s,
    decreases s.len(),
{
    reveal(Seq::filter);
    if s.len() > 0 {
        lemma_filter_all(s.drop_last(), pred);
        assert(s.drop_last().push(s.last()) =~= s);
    }
}

/// Filtering with a predicate that no element satisfies yields the empty
/// sequence.
proof fn lemma_filter_none(s: Seq<ItemModel>, pred: spec_fn(ItemModel) -> bool)
    requires
        forall|i: int| 0 <= i < s.len() ==> !pred(#[trigger] s[i]),
    ensures
        s.filter(pred) == Seq::<ItemModel>::empty(),
    decreases s.len(),
{
    reveal(Seq::filter);
    if s.len() > 0 {
        lemma_filter_none(s.drop_last(), pred);
    }
}

/// The two completion groups together account for every item.
proof fn lemma_filter_partition_len(s: Seq<ItemModel>)
    ensures
        s.filter(|m: ItemModel| m.complete).len() + s.filter(|m: ItemModel| !m.complete).len()
            == s.len(),
    decreases s.len(),
{
    reveal(Seq::filter);
    if s.len() > 0 {
        lemma_filter_partition_len(s.drop_last());
    }
}

/// Reordering is a stable partition: it keeps every item, the complete items
/// come first in their original relative order, and the incomplete items
/// follow in theirs.
pub proof fn lemma_reorder_stable_partition(s: Seq<ItemModel>)
    ensures
        reorder_spec(s).len() == s.len(),
        reorder_spec(s).subrange(0, s.filter(|m: ItemModel| m.complete).len() as int) == s.filter(
            |m: ItemModel| m.complete,
        ),
        reorder_spec(s).subrange(
            s.filter(|m: ItemModel| m.complete).len() as int,
            reorder_spec(s).len() as int,
        ) == s.filter(|m: ItemModel| !m.complete),
{
    lemma_filter_partition_len(s);
    let a = s.filter(|m: ItemModel| m.complete);
    let b = s.filter(|m: ItemModel| !m.complete);
    assert((a + b).subrange(0, a.len() as int) =~= a);
    assert((a + b).subrange(a.len() as int, (a + b).len() as int) =~= b);
}

/// Reordering is idempotent: applying the stable partition twice yields the
/// same order as applying it once.
pub proof fn lemma_reorder_idempotent(s: Seq<ItemModel>)
    ensures
        reorder_spec(reorder_spec(s)) == reorder_spec(s),
{
    broadcast use vstd::seq_lib::group_filter_ensures;

    let cp = |m: ItemModel| m.complete;
    let np = |m: ItemModel| !m.complete;
    let a = s.filter(cp);
    let b = s.filter(np);
    assert((a + b).filter(cp) == a.filter(cp) + b.filter(cp));
    assert((a + b).filter(np) == a.filter(np) + b.filter(np));
    lemma_filter_all(a, cp);
    lemma_filter_none(b, cp);
    lemma_filter_none(a, np);
    lemma_filter_all(b, np);
    assert(reorder_spec(reorder_spec(s)) =~= reorder_spec(s));
}

} // verus!
