//! The names of collected items, in the order they were collected.
use vstd::prelude::*;

verus! {

pub struct Inventory {
    pub items: Vec<String>,
    pub is_open: bool,
}

impl Inventory {
    /// The item names as character sequences.
    pub open spec fn names(&self) -> Seq<Seq<char>> {
        self.items@.map_values(|s: String| s@)
    }

    /// An empty, closed inventory.
    pub fn new() -> (inv: Inventory)
        ensures
            inv.items@.len() == 0,
            !inv.is_open,
    {
        Inventory { items: Vec::new(), is_open: false }
    }

    /// Appends `item` at the end.
    pub fn add_item(&mut self, item: String)
        ensures
            final(self).items@ == old(self).items@.push(item),
            final(self).is_open == old(self).is_open,
    {
        self.items.push(item);
    }

    /// Opens a closed inventory view, or closes an open one.
    pub fn toggle_open(&mut self)
        ensures
            final(self).items == old(self).items,
            final(self).is_open == !old(self).is_open,
    {
        self.is_open = !self.is_open;
    }
}

} // verus!
