//! The player's body and its movement on the screen.
use crate::input::FrameInput;
use vstd::prelude::*;

verus! {

/// Width of the visible world, in thousandths of a world unit.
pub const SCREEN_WIDTH: i64 = 800_000;

/// Height of the visible world, in thousandths of a world unit.
pub const SCREEN_HEIGHT: i64 = 600_000;

/// Side of the player's square body.
pub const PLAYER_SIZE: i64 = 80_000;

/// Walking speed, in thousandths of a world unit per millisecond.
pub const PLAYER_SPEED: i64 = 150;

/// Speed with the bicycle: one and a half times the walking speed.
pub const BOOSTED_SPEED: i64 = 225;

/// Largest x of the body's corner that keeps it on screen.
pub const MAX_X: i64 = 720_000;

/// Largest y of the body's corner that keeps it on screen.
pub const MAX_Y: i64 = 520_000;

/// Longest frame whose movement is worked out step by step; any longer frame
/// carries a moving body past the screen edge anyway.
const LONGEST_STEP_MS: u64 = 10_000;

#[derive(Clone, Copy, PartialEq, Eq, Structural, Debug)]
pub struct Player {
    pub x: i64,
    pub y: i64,
}

pub open spec fn clamp(v: int, lo: int, hi: int) -> int {
    if v < lo {
        lo
    } else if v > hi {
        hi
    } else {
        v
    }
}

/// Distance covered in `dt` milliseconds.
pub open spec fn step_len(boost: bool, dt: int) -> int {
    (if boost {
        BOOSTED_SPEED
    } else {
        PLAYER_SPEED
    }) * dt
}

/// A coordinate after moving `step` back if `minus`, forward if `plus`,
/// then kept in `[0, hi]`.
pub open spec fn moved_coord(pos: int, minus: bool, plus: bool, step: int, hi: int) -> int {
    clamp(
        pos - (if minus {
            step
        } else {
            0
        }) + (if plus {
            step
        } else {
            0
        }),
        0,
        hi,
    )
}

/// Where the player stands after one frame of `input`.
pub open spec fn player_moved(p: Player, input: FrameInput, boost: bool) -> Player {
    let step = step_len(boost, input.dt_ms as int);
    Player {
        x: moved_coord(p.x as int, input.left_held, input.right_held, step, MAX_X as int) as i64,
        y: moved_coord(p.y as int, input.up_held, input.down_held, step, MAX_Y as int) as i64,
    }
}

fn move_coord(pos: i64, minus: bool, plus: bool, step: i64, hi: i64) -> (r: i64)
    requires
        0 <= pos <= hi,
        0 <= step <= 3_000_000,
        hi <= 1_000_000,
    ensures
        r == moved_coord(pos as int, minus, plus, step as int, hi as int),
{
    let mut v = pos;
    if minus {
        v = v - step;
    }
    if plus {
        v = v + step;
    }
    if v < 0 {
        0
    } else if v > hi {
        hi
    } else {
        v
    }
}

impl Player {
    /// The body lies on screen.
    pub open spec fn wf(&self) -> bool {
        0 <= self.x <= MAX_X && 0 <= self.y <= MAX_Y
    }

    /// The player at the middle of the screen.
    pub fn new() -> (p: Player)
        ensures
            p == (Player { x: 360_000, y: 260_000 }),
            p.wf(),
    {
        Player { x: SCREEN_WIDTH / 2 - PLAYER_SIZE / 2, y: SCREEN_HEIGHT / 2 - PLAYER_SIZE / 2 }
    }

    /// Moves by the held directions for the frame's duration, faster with
    /// `speed_boost`, and keeps the body on screen.
    pub fn update(&mut self, input: &FrameInput, speed_boost: bool)
        requires
            old(self).wf(),
        ensures
            final(self).wf(),
            *final(self) == player_moved(*old(self), *input, speed_boost),
    {
        let dt: i64 = if input.dt_ms > LONGEST_STEP_MS {
            LONGEST_STEP_MS as i64
        } else {
            input.dt_ms as i64
        };
        let speed: i64 = if speed_boost {
            BOOSTED_SPEED
        } else {
            PLAYER_SPEED
        };
        let step = speed * dt;
        let x = move_coord(self.x, input.left_held, input.right_held, step, MAX_X);
        let y = move_coord(self.y, input.up_held, input.down_held, step, MAX_Y);
        proof {
            let full = step_len(speed_boost, input.dt_ms as int);
            assert(input.dt_ms > LONGEST_STEP_MS ==> full >= 1_500_000 && step >= 1_500_000);
            assert(x == moved_coord(self.x as int, input.left_held, input.right_held, full, MAX_X as int));
            assert(y == moved_coord(self.y as int, input.up_held, input.down_held, full, MAX_Y as int));
        }
        self.x = x;
        self.y = y;
    }
}

} // verus!
