//! The themes a dream can take.
use crate::random::draw_below;
use rand::rngs::StdRng;
use vstd::prelude::*;

verus! {

/// Number of dream themes.
pub const WORLD_COUNT: usize = 6;

/// A dream theme: its background colour as red, green and blue, and its name.
#[derive(Clone, Copy, Debug)]
pub struct DreamWorld {
    pub background_color: (u8, u8, u8),
    pub name: &'static str,
}

/// The colour of theme `i`.
pub open spec fn world_color(i: int) -> (u8, u8, u8) {
    if i == 0 {
        (100, 50, 150)
    } else if i == 1 {
        (200, 100, 50)
    } else if i == 2 {
        (50, 150, 200)
    } else if i == 3 {
        (150, 50, 100)
    } else if i == 4 {
        (100, 200, 50)
    } else {
        (200, 150, 100)
    }
}

/// The name of theme `i`.
pub open spec fn world_name(i: int) -> Seq<char> {
    if i == 0 {
        "Purple Forest"@
    } else if i == 1 {
        "Orange Desert"@
    } else if i == 2 {
        "Blue Ocean"@
    } else if i == 3 {
        "Pink Mountains"@
    } else if i == 4 {
        "Green Fields"@
    } else {
        "Golden Plains"@
    }
}

/// `w` is theme `i` of the catalogue.
pub open spec fn is_world(w: DreamWorld, i: int) -> bool {
    0 <= i < WORLD_COUNT && w.background_color == world_color(i) && w.name@ == world_name(i)
}

impl DreamWorld {
    /// Theme `i` of the catalogue.
    pub fn from_index(i: usize) -> (w: DreamWorld)
        requires
            i < WORLD_COUNT,
        ensures
            is_world(w, i as int),
    {
        if i == 0 {
            DreamWorld { background_color: (100, 50, 150), name: "Purple Forest" }
        } else if i == 1 {
            DreamWorld { background_color: (200, 100, 50), name: "Orange Desert" }
        } else if i == 2 {
            DreamWorld { background_color: (50, 150, 200), name: "Blue Ocean" }
        } else if i == 3 {
            DreamWorld { background_color: (150, 50, 100), name: "Pink Mountains" }
        } else if i == 4 {
            DreamWorld { background_color: (100, 200, 50), name: "Green Fields" }
        } else {
            DreamWorld { background_color: (200, 150, 100), name: "Golden Plains" }
        }
    }

    /// A theme of the catalogue drawn with `rng`.
    pub fn random(rng: &mut StdRng) -> (w: DreamWorld)
        ensures
            exists|i: int| is_world(w, i),
    {
        let i = draw_below(rng, WORLD_COUNT);
        let w = DreamWorld::from_index(i);
        assert(is_world(w, i as int));
        w
    }
}

} // verus!
