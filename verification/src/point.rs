//! A particle of the field and its frozen neighbor list.

use vstd::prelude::*;
use crate::geometry::MAX_COORD;

verus! {

/// A particle in the field.
///
/// `x` and `y` are the current rendered position; `origin_x` and
/// `origin_y` are the rest position assigned at creation and never
/// change afterwards. `radius` is a fixed visual size. `active` is the
/// proximity-driven activity level in thousandths, recomputed every
/// frame. `closest_indices` holds the indices of the nearest other
/// points at construction time, sorted by ascending squared distance;
/// the list is a frozen rendering-connectivity overlay, never
/// recomputed, even as points move.
///
/// All coordinates are fixed point: one pixel is `SUBUNITS` units.
pub struct Point {
    pub x: u64,
    pub y: u64,
    pub origin_x: u64,
    pub origin_y: u64,
    pub active: u32,
    pub radius: u64,
    pub closest_indices: Vec<usize>,
}

/// All coordinates of `p` are small enough for squared-distance
/// arithmetic in `u128`.
pub open spec fn coords_ok(p: Point) -> bool {
    &&& p.x <= MAX_COORD
    &&& p.y <= MAX_COORD
    &&& p.origin_x <= MAX_COORD
    &&& p.origin_y <= MAX_COORD
}

/// The value returned for an out-of-range access: a zeroed point with
/// an empty neighbor list.
pub open spec fn is_sentinel(p: Point) -> bool {
    &&& p.x == 0
    &&& p.y == 0
    &&& p.origin_x == 0
    &&& p.origin_y == 0
    &&& p.active == 0
    &&& p.radius == 0
    &&& p.closest_indices@.len() == 0
}

/// `q` carries the same state as `p`.
pub open spec fn same_point(p: Point, q: Point) -> bool {
    &&& q.x == p.x
    &&& q.y == p.y
    &&& q.origin_x == p.origin_x
    &&& q.origin_y == p.origin_y
    &&& q.active == p.active
    &&& q.radius == p.radius
    &&& q.closest_indices@ == p.closest_indices@
}

pub(crate) fn copy_indices(v: &Vec<usize>) -> (r: Vec<usize>)
    ensures
        r@ == v@,
{
    let mut r: Vec<usize> = Vec::new();
    let mut k: usize = 0;
    while k < v.len()
        invariant
            k <= v@.len(),
            r@ == v@.take(k as int),
        decreases v@.len() - k,
    {
        r.push(v[k]);
        proof {
            assert(r@ =~= v@.take(k as int + 1));
        }
        k += 1;
    }
    proof {
        assert(r@ =~= v@);
    }
    r
}

pub(crate) fn sentinel_point() -> (p: Point)
    ensures
        is_sentinel(p),
{
    Point {
        x: 0,
        y: 0,
        origin_x: 0,
        origin_y: 0,
        active: 0,
        radius: 0,
        closest_indices: Vec::new(),
    }
}

impl Point {
    /// Current horizontal position, in coordinate units.
    pub fn x(&self) -> (r: u64)
        ensures
            r == self.x,
    {
        self.x
    }

    /// Current vertical position, in coordinate units.
    pub fn y(&self) -> (r: u64)
        ensures
            r == self.y,
    {
        self.y
    }

    /// Current activity level, in thousandths.
    pub fn active(&self) -> (r: u32)
        ensures
            r == self.active,
    {
        self.active
    }

    /// Visual radius, in coordinate units.
    pub fn radius(&self) -> (r: u64)
        ensures
            r == self.radius,
    {
        self.radius
    }

    /// Rest position (horizontal), in coordinate units.
    pub fn origin_x(&self) -> (r: u64)
        ensures
            r == self.origin_x,
    {
        self.origin_x
    }

    /// Rest position (vertical), in coordinate units.
    pub fn origin_y(&self) -> (r: u64)
        ensures
            r == self.origin_y,
    {
        self.origin_y
    }

    /// The frozen list of nearest-neighbor indices, closest first.
    pub fn get_closest_indices(&self) -> (r: Vec<usize>)
        ensures
            r@ == self.closest_indices@,
    {
        copy_indices(&self.closest_indices)
    }
}

impl Clone for Point {
    fn clone(&self) -> (r: Self)
        ensures
            same_point(*self, r),
    {
        Point {
            x: self.x,
            y: self.y,
            origin_x: self.origin_x,
            origin_y: self.origin_y,
            active: self.active,
            radius: self.radius,
            closest_indices: copy_indices(&self.closest_indices),
        }
    }
}

} // verus!
