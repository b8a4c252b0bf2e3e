//! Objects lying in the dream world, waiting to be picked up.
use vstd::prelude::*;

verus! {

#[derive(Clone, Copy, PartialEq, Eq, Structural, Debug)]
pub struct Item {
    pub x: i64,
    pub y: i64,
    pub collected: bool,
}

impl Item {
    /// An item not yet collected, with its corner at `(x, y)`.
    pub fn new(x: i64, y: i64) -> (r: Item)
        ensures
            r == (Item { x, y, collected: false }),
    {
        Item { x, y, collected: false }
    }
}

} // verus!
