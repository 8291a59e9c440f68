//! A single todo entry: its text and completion flag.

use vstd::prelude::*;

verus! {

/// Mathematical model of an [`Item`]: the text as a sequence of characters
/// together with the completion flag.
pub ghost struct ItemModel {
    pub text: Seq<char>,
    pub complete: bool,
}

/// One todo entry. The text is a single line; the persisted format cannot
/// carry a newline inside it.
#[derive(Debug, Clone, PartialEq, Eq)]
pub struct Item {
    pub text: String,
    pub complete: bool,
}

impl View for Item {
    type V = ItemModel;

    open spec fn view(&self) -> ItemModel {
        ItemModel { text: self.text@, complete: self.complete }
    }
}

impl Item {
    /// Builds an item from its parts.
    pub fn new(text: String, complete: bool) -> (r: Item)
        ensures
            r@ == (ItemModel { text: text@, complete }),
    {
        Item { text, complete }
    }
}

} // verus!
