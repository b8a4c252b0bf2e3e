//! Axis-aligned boxes and distance tests in thousandths of a world unit.
use vstd::prelude::*;

verus! {

/// A box with its top-left corner at `(x, y)`, `w` wide and `h` high.
#[derive(Clone, Copy, PartialEq, Eq, Structural, Debug)]
pub struct Rect {
    pub x: i64,
    pub y: i64,
    pub w: i64,
    pub h: i64,
}

/// The two boxes touch or overlap, edges included.
pub open spec fn rects_overlap(a: Rect, b: Rect) -> bool {
    &&& a.x <= b.x + b.w
    &&& a.x + a.w >= b.x
    &&& a.y <= b.y + b.h
    &&& a.y + a.h >= b.y
}

/// The points `(ax, ay)` and `(bx, by)` lie closer than `radius`.
pub open spec fn closer_than(ax: int, ay: int, bx: int, by: int, radius: int) -> bool {
    (ax - bx) * (ax - bx) + (ay - by) * (ay - by) < radius * radius
}

impl Rect {
    pub fn new(x: i64, y: i64, w: i64, h: i64) -> (r: Rect)
        ensures
            r == (Rect { x, y, w, h }),
    {
        Rect { x, y, w, h }
    }

    /// Whether the two boxes touch or overlap.
    pub fn overlaps(&self, other: &Rect) -> (r: bool)
        ensures
            r == rects_overlap(*self, *other),
    {
        (self.x as i128) <= (other.x as i128) + (other.w as i128) && (self.x as i128) + (
        self.w as i128) >= (other.x as i128) && (self.y as i128) <= (other.y as i128) + (
        other.h as i128) && (self.y as i128) + (self.h as i128) >= (other.y as i128)
    }
}

fn distance_along(a: i64, b: i64) -> (r: u128)
    ensures
        r == if a >= b {
            a - b
        } else {
            b - a
        },
{
    if a >= b {
        ((a as i128) - (b as i128)) as u128
    } else {
        ((b as i128) - (a as i128)) as u128
    }
}

/// Whether the Euclidean distance between `(ax, ay)` and `(bx, by)` is below
/// `radius`.
pub fn within_distance(ax: i64, ay: i64, bx: i64, by: i64, radius: i64) -> (r: bool)
    requires
        radius >= 0,
    ensures
        r == closer_than(ax as int, ay as int, bx as int, by as int, radius as int),
{
    let dx = distance_along(ax, bx);
    let dy = distance_along(ay, by);
    let rr = radius as u128;
    proof {
        let ix = ax - bx;
        let iy = ay - by;
        assert(ix * ix == (dx as int) * (dx as int)) by (nonlinear_arith)
            requires
                dx == ix || dx == -ix,
        ;
        assert(iy * iy == (dy as int) * (dy as int)) by (nonlinear_arith)
            requires
                dy == iy || dy == -iy,
        ;
    }
    if dx >= rr || dy >= rr {
        proof {
            assert((dx as int) * (dx as int) + (dy as int) * (dy as int) >= (rr as int) * (
            rr as int)) by (nonlinear_arith)
                requires
                    dx >= rr || dy >= rr,
                    rr >= 0,
            ;
        }
        return false;
    }
    proof {
        assert((dx as int) * (dx as int) < 0x4000_0000_0000_0000_0000_0000_0000_0000)
            by (nonlinear_arith)
            requires
                dx < rr,
                rr < 0x8000_0000_0000_0000,
        ;
        assert((dy as int) * (dy as int) < 0x4000_0000_0000_0000_0000_0000_0000_0000)
            by (nonlinear_arith)
            requires
                dy < rr,
                rr < 0x8000_0000_0000_0000,
        ;
        assert((rr as int) * (rr as int) < 0x4000_0000_0000_0000_0000_0000_0000_0000)
            by (nonlinear_arith)
            requires
                rr < 0x8000_0000_0000_0000,
        ;
    }
    dx * dx + dy * dy < rr * rr
}

} // verus!
