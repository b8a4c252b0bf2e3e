//! Figures met in the dream world.
use vstd::prelude::*;

verus! {

#[derive(Clone, Copy, Debug)]
pub struct NPC {
    pub x: i64,
    pub y: i64,
    pub name: &'static str,
}

impl NPC {
    pub fn new(x: i64, y: i64, name: &'static str) -> (r: NPC)
        ensures
            r.x == x,
            r.y == y,
            r.name == name,
    {
        NPC { x, y, name }
    }
}

} // verus!
