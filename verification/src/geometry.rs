//! Fixed-point coordinates, squared distances and the activity bands.

use vstd::prelude::*;
use crate::point::Point;

verus! {

/// Number of grid cells along each axis of the generation grid.
pub open const GRID_SIZE: u64 = 20;

/// Coordinates are fixed point: one pixel equals `SUBUNITS` coordinate
/// units. Because `SUBUNITS == GRID_SIZE`, a grid cell over a domain of
/// `width` pixels is exactly `width` units wide, so the cell arithmetic
/// is exact.
pub open const SUBUNITS: u64 = 20;

/// Largest coordinate the engine accepts. The squared distance between
/// two coordinates bounded by `MAX_COORD` always fits in a `u128`.
pub open const MAX_COORD: u64 = 0x8000_0000_0000_0000;

/// Squared-distance bands for the activity level, in squared coordinate
/// units: the pixel thresholds 4000, 20000 and 40000 square pixels,
/// scaled by `SUBUNITS * SUBUNITS`.
pub open const NEAR_BAND_SQ: u128 = 1_600_000;
pub open const MID_BAND_SQ: u128 = 8_000_000;
pub open const FAR_BAND_SQ: u128 = 16_000_000;

/// Activity levels, in thousandths: 0.3, 0.1 and 0.02. A point outside
/// every band has activity 0.
pub open const ACTIVE_NEAR: u32 = 300;
pub open const ACTIVE_MID: u32 = 100;
pub open const ACTIVE_FAR: u32 = 20;

/// Squared Euclidean distance between two coordinate pairs.
pub open spec fn dist_sq(x1: int, y1: int, x2: int, y2: int) -> int {
    (x1 - x2) * (x1 - x2) + (y1 - y2) * (y1 - y2)
}

/// Activity level of a point whose squared distance to the target is `d`.
pub open spec fn activity_level(d: int) -> u32 {
    if d < NEAR_BAND_SQ as int {
        ACTIVE_NEAR
    } else if d < MID_BAND_SQ as int {
        ACTIVE_MID
    } else if d < FAR_BAND_SQ as int {
        ACTIVE_FAR
    } else {
        0u32
    }
}

/// Squaring is monotone on the non-negative integers.
proof fn lemma_sq_mono(a: int, b: int)
    requires
        0 <= a <= b,
    ensures
        a * a <= b * b,
{
    assert(a * a <= b * b) by (nonlinear_arith)
        requires
            0 <= a <= b,
    ;
}

/// Squared distance between the coordinate pairs `(x1, y1)` and `(x2, y2)`.
pub fn distance_squared_coords(x1: u64, y1: u64, x2: u64, y2: u64) -> (d: u128)
    requires
        x1 <= MAX_COORD,
        y1 <= MAX_COORD,
        x2 <= MAX_COORD,
        y2 <= MAX_COORD,
    ensures
        d == dist_sq(x1 as int, y1 as int, x2 as int, y2 as int),
{
    let dx: u64 = if x1 >= x2 { x1 - x2 } else { x2 - x1 };
    let dy: u64 = if y1 >= y2 { y1 - y2 } else { y2 - y1 };
    proof {
        assert((dx as int) * (dx as int) == (x1 as int - x2 as int) * (x1 as int - x2 as int))
            by (nonlinear_arith)
            requires
                dx as int == if x1 as int >= x2 as int { x1 as int - x2 as int } else { x2 as int - x1 as int },
        ;
        assert((dy as int) * (dy as int) == (y1 as int - y2 as int) * (y1 as int - y2 as int))
            by (nonlinear_arith)
            requires
                dy as int == if y1 as int >= y2 as int { y1 as int - y2 as int } else { y2 as int - y1 as int },
        ;
        lemma_sq_mono(dx as int, MAX_COORD as int);
        lemma_sq_mono(dy as int, MAX_COORD as int);
    }
    let dx2: u128 = (dx as u128) * (dx as u128);
    let dy2: u128 = (dy as u128) * (dy as u128);
    dx2 + dy2
}

/// Squared Euclidean distance between the current positions of two points.
pub fn distance_squared(a: &Point, b: &Point) -> (d: u128)
    requires
        crate::point::coords_ok(*a),
        crate::point::coords_ok(*b),
    ensures
        d == dist_sq(a.x as int, a.y as int, b.x as int, b.y as int),
{
    distance_squared_coords(a.x, a.y, b.x, b.y)
}

/// Exec counterpart of `activity_level`.
pub fn activity_for(d: u128) -> (a: u32)
    ensures
        a == activity_level(d as int),
{
    if d < NEAR_BAND_SQ {
        ACTIVE_NEAR
    } else if d < MID_BAND_SQ {
        ACTIVE_MID
    } else if d < FAR_BAND_SQ {
        ACTIVE_FAR
    } else {
        0u32
    }
}

} // verus!
