//! The point-field engine: grid generation, frozen nearest-neighbor
//! topology, and the per-frame activity update.

use vstd::prelude::*;
use crate::geometry::{
    activity_for, activity_level, dist_sq, distance_squared_coords, GRID_SIZE, MAX_COORD,
    SUBUNITS,
};
use crate::point::{coords_ok, copy_indices, is_sentinel, same_point, sentinel_point, Point};
use crate::rng::draw;

verus! {

/// Squared distance between the rest positions of points `i` and `j`.
/// The neighbor topology is computed once, while every point still sits
/// at its origin, and is measured against origins ever after: moving a
/// point never invalidates it.
pub open spec fn odist(ps: Seq<Point>, i: int, j: int) -> int {
    dist_sq(
        ps[i].origin_x as int,
        ps[i].origin_y as int,
        ps[j].origin_x as int,
        ps[j].origin_y as int,
    )
}

/// The strict total order in which candidate neighbors of `i` are
/// ranked: ascending squared distance, ties broken by ascending index.
pub open spec fn nbr_before(ps: Seq<Point>, i: int, j1: int, j2: int) -> bool {
    ||| odist(ps, i, j1) < odist(ps, i, j2)
    ||| (odist(ps, i, j1) == odist(ps, i, j2) && j1 < j2)
}

/// `j` occurs in the index list `ci`.
pub open spec fn in_list(ci: Seq<usize>, j: int) -> bool {
    exists|k: int| 0 <= k < ci.len() && ci[k] == j
}

/// How many neighbors a field of `n` points gives each point: five, or
/// every other point when there are fewer than six.
pub open spec fn neighbor_count(n: int) -> int {
    if n - 1 <= 5 {
        n - 1
    } else {
        5
    }
}

/// Every entry of `ci` is a valid index of another point.
pub open spec fn entries_ok(ps: Seq<Point>, i: int, ci: Seq<usize>) -> bool {
    forall|k: int| 0 <= k < ci.len() ==> 0 <= #[trigger] ci[k] < ps.len() && ci[k] != i
}

/// `ci` is strictly sorted in the neighbor order of `i`.
pub open spec fn sorted_by_dist(ps: Seq<Point>, i: int, ci: Seq<usize>) -> bool {
    forall|k1: int, k2: int|
        0 <= k1 < k2 < ci.len() ==> nbr_before(ps, i, #[trigger] ci[k1] as int, #[trigger] ci[k2] as int)
}

/// Every point outside `ci` ranks after every member of `ci`: the list
/// really holds the nearest points.
pub open spec fn holds_nearest(ps: Seq<Point>, i: int, ci: Seq<usize>) -> bool {
    forall|j: int, k: int|
        0 <= j < ps.len() && j != i && !in_list(ci, j) && 0 <= k < ci.len() ==> nbr_before(
            ps,
            i,
            #[trigger] ci[k] as int,
            #[trigger] in_list_key(ci, j),
        )
}

/// Helper used only as a quantifier trigger in `holds_nearest`.
pub open spec fn in_list_key(ci: Seq<usize>, j: int) -> int {
    j
}

/// The neighbor list of point `i` is well formed: correct length, valid
/// entries, sorted, and holding exactly the nearest other points.
pub open spec fn neighbors_wf(ps: Seq<Point>, i: int) -> bool {
    let ci = ps[i].closest_indices@;
    &&& ci.len() == neighbor_count(ps.len() as int)
    &&& entries_ok(ps, i, ci)
    &&& sorted_by_dist(ps, i, ci)
    &&& holds_nearest(ps, i, ci)
}

/// The point field.
///
/// The point collection is fixed after construction; `resize` changes
/// only the logical dimensions (in pixels) and recenters the target.
/// The target is the single external influence point, in coordinate
/// units.
pub struct AnimationEngine {
    pub points: Vec<Point>,
    pub width: u32,
    pub height: u32,
    pub target_x: u64,
    pub target_y: u64,
}

impl AnimationEngine {
    /// Structural invariant: every coordinate is in range and every
    /// neighbor list is well formed.
    pub open spec fn wf(self) -> bool {
        &&& forall|i: int|
            0 <= i < self.points@.len() ==> coords_ok(#[trigger] self.points@[i])
        &&& forall|i: int| 0 <= i < self.points@.len() ==> neighbors_wf(self.points@, i)
        &&& self.target_x <= MAX_COORD
        &&& self.target_y <= MAX_COORD
    }

    /// Number of points in the field.
    pub fn get_points_count(&self) -> (n: usize)
        ensures
            n == self.points@.len(),
    {
        self.points.len()
    }

    /// Moves the target, the point of external influence.
    pub fn set_target(&mut self, x: u64, y: u64)
        requires
            old(self).wf(),
            x <= MAX_COORD,
            y <= MAX_COORD,
        ensures
            final(self).wf(),
            final(self).target_x == x,
            final(self).target_y == y,
            final(self).points@ == old(self).points@,
            final(self).width == old(self).width,
            final(self).height == old(self).height,
    {
        self.target_x = x;
        self.target_y = y;
    }

    /// Updates the logical dimensions and recenters the target; the
    /// point collection is left exactly as it is.
    pub fn resize(&mut self, width: u32, height: u32)
        requires
            old(self).wf(),
        ensures
            final(self).wf(),
            resize_post(*old(self), width, height, *final(self)),
    {
        proof {
            assert(SUBUNITS / 2 == 10);
        }
        self.width = width;
        self.height = height;
        self.target_x = 10 * (width as u64);
        self.target_y = 10 * (height as u64);
    }

    /// The point at `index`, or the sentinel when `index` is out of
    /// range: a stale index can never fault.
    pub fn get_point(&self, index: usize) -> (p: Point)
        ensures
            index < self.points@.len() ==> same_point(self.points@[index as int], p),
            index >= self.points@.len() ==> is_sentinel(p),
    {
        if index >= self.points.len() {
            return sentinel_point();
        }
        self.points[index].clone()
    }

    /// The full state of the `closest_index`-th nearest neighbor of
    /// point `point_index`, resolving the indirection through the
    /// neighbor list; the sentinel when any index along the way is out
    /// of range.
    pub fn get_point_closest(&self, point_index: usize, closest_index: usize) -> (p: Point)
        ensures
            ({
                let ps = self.points@;
                if point_index < ps.len() && closest_index < ps[point_index as int].closest_indices@.len()
                    && ps[point_index as int].closest_indices@[closest_index as int] < ps.len() {
                    same_point(
                        ps[ps[point_index as int].closest_indices@[closest_index as int] as int],
                        p,
                    )
                } else {
                    is_sentinel(p)
                }
            }),
    {
        if point_index >= self.points.len() {
            return sentinel_point();
        }
        if closest_index >= self.points[point_index].closest_indices.len() {
            return sentinel_point();
        }
        let neighbor: usize = self.points[point_index].closest_indices[closest_index];
        if neighbor >= self.points.len() {
            return sentinel_point();
        }
        self.points[neighbor].clone()
    }

    /// Length of the neighbor list of point `point_index`, or 0 when
    /// the index is out of range.
    pub fn get_closest_count(&self, point_index: usize) -> (n: usize)
        ensures
            point_index < self.points@.len() ==> n == self.points@[point_index as int].closest_indices@.len(),
            point_index >= self.points@.len() ==> n == 0,
    {
        if point_index >= self.points.len() {
            return 0;
        }
        self.points[point_index].closest_indices.len()
    }
}

/// Point `p` was generated for cell `i` of the grid over a domain of
/// `width` by `height` pixels: it rests where it stands, inside its
/// cell (cell origin plus a jitter smaller than one cell step), within
/// the whole domain, with a radius in the fixed band and no activity.
pub open spec fn grid_cell_ok(p: Point, i: int, width: u32, height: u32) -> bool {
    let w = width as int;
    let h = height as int;
    let col = i / (GRID_SIZE as int);
    let row = i % (GRID_SIZE as int);
    &&& p.origin_x == p.x
    &&& p.origin_y == p.y
    &&& col * w <= p.x < (col + 1) * w
    &&& row * h <= p.y < (row + 1) * h
    &&& p.x < (SUBUNITS as int) * w
    &&& p.y < (SUBUNITS as int) * h
    &&& 40 <= p.radius < 80
    &&& p.active == 0
}

/// Bounds for one cell step: products of a cell number and a pixel
/// dimension stay small and behave linearly.
proof fn lemma_cell_arith(c: int, w: int)
    requires
        0 <= c < 20,
        0 <= w <= 0xffff_ffff,
    ensures
        0 <= c * w <= 19 * 0xffff_ffff,
        (c + 1) * w == c * w + w,
        (c + 1) * w <= 20 * w,
{
    assert(0 <= c * w <= 19 * 0xffff_ffff && (c + 1) * w == c * w + w && (c + 1) * w <= 20 * w)
        by (nonlinear_arith)
        requires
            0 <= c < 20,
            0 <= w <= 0xffff_ffff,
    ;
}

/// Recovers column and row from a grid index.
proof fn lemma_grid_index(c: int, r: int)
    requires
        0 <= c,
        0 <= r < 20,
    ensures
        (c * 20 + r) / 20 == c,
        (c * 20 + r) % 20 == r,
{
    assert((c * 20 + r) / 20 == c && (c * 20 + r) % 20 == r) by (nonlinear_arith)
        requires
            0 <= c,
            0 <= r < 20,
    ;
}

/// `c` capped at five, the neighbor-list capacity.
pub open spec fn cap5(c: int) -> int {
    if c <= 5 {
        c
    } else {
        5
    }
}

/// How many candidate neighbors of `i` the first `j` indices hold.
spec fn candidates_before(j: int, i: int) -> int {
    if j <= i {
        j
    } else {
        j - 1
    }
}

/// The neighbor order is total on distinct indices.
proof fn lemma_nbr_total(ps: Seq<Point>, i: int, a: int, b: int)
    requires
        a != b,
    ensures
        nbr_before(ps, i, a, b) || nbr_before(ps, i, b, a),
{
}

/// The neighbor order is transitive.
proof fn lemma_nbr_trans(ps: Seq<Point>, i: int, a: int, b: int, c: int)
    requires
        nbr_before(ps, i, a, b),
        nbr_before(ps, i, b, c),
    ensures
        nbr_before(ps, i, a, c),
{
}

/// Whether `a` ranks before `b` as a neighbor of `i`: nearer to the
/// origin of `i`, or equally near with the smaller index.
fn ranks_before(points: &Vec<Point>, i: usize, a: usize, b: usize) -> (r: bool)
    requires
        i < points@.len(),
        a < points@.len(),
        b < points@.len(),
        forall|t: int| 0 <= t < points@.len() ==> coords_ok(#[trigger] points@[t]),
    ensures
        r == nbr_before(points@, i as int, a as int, b as int),
{
    let da = distance_squared_coords(
        points[i].origin_x,
        points[i].origin_y,
        points[a].origin_x,
        points[a].origin_y,
    );
    let db = distance_squared_coords(
        points[i].origin_x,
        points[i].origin_y,
        points[b].origin_x,
        points[b].origin_y,
    );
    da < db || (da == db && a < b)
}

/// Selects the indices of the (up to) five points nearest to point `i`,
/// sorted by the neighbor order, by a single pass that keeps a sorted
/// bounded buffer of the best candidates seen so far.
#[verifier::rlimit(60)]
fn nearest_neighbors(points: &Vec<Point>, i: usize) -> (ci: Vec<usize>)
    requires
        i < points@.len(),
        forall|t: int| 0 <= t < points@.len() ==> coords_ok(#[trigger] points@[t]),
    ensures
        ci@.len() == neighbor_count(points@.len() as int),
        entries_ok(points@, i as int, ci@),
        sorted_by_dist(points@, i as int, ci@),
        holds_nearest(points@, i as int, ci@),
{
    let ghost ps = points@;
    let ghost gi = i as int;
    let n = points.len();
    let mut buf: Vec<usize> = Vec::new();
    let mut j: usize = 0;
    while j < n
        invariant
            i < n,
            n == ps.len(),
            ps == points@,
            gi == i as int,
            forall|t: int| 0 <= t < ps.len() ==> coords_ok(#[trigger] ps[t]),
            j <= n,
            buf@.len() == cap5(candidates_before(j as int, gi)),
            forall|k: int| 0 <= k < buf@.len() ==> #[trigger] buf@[k] < j && buf@[k] != i,
            sorted_by_dist(ps, gi, buf@),
            buf@.len() < 5 ==> (forall|t: int|
                0 <= t < j && t != gi ==> in_list(buf@, t)),
            forall|t: int|
                0 <= t < j && t != gi && !in_list(buf@, t) ==> buf@.len() > 0 && nbr_before(
                    ps,
                    gi,
                    buf@[buf@.len() - 1] as int,
                    t,
                ),
        decreases n - j,
    {
        if j != i {
            let mut pos: usize = 0;
            while pos < buf.len() && ranks_before(points, i, buf[pos], j)
                invariant
                    i < n,
                    n == ps.len(),
                    ps == points@,
                    gi == i as int,
                    forall|t: int| 0 <= t < ps.len() ==> coords_ok(#[trigger] ps[t]),
                    j < n,
                    j != i,
                    pos <= buf@.len(),
                    buf@.len() <= 5,
                    forall|k: int| 0 <= k < buf@.len() ==> #[trigger] buf@[k] < j && buf@[k] != i,
                    sorted_by_dist(ps, gi, buf@),
                    forall|k: int|
                        0 <= k < pos ==> nbr_before(ps, gi, #[trigger] buf@[k] as int, j as int),
                decreases buf@.len() - pos,
            {
                pos += 1;
            }
            proof {
                // everything at or after `pos` ranks after `j`
                if pos < buf@.len() {
                    lemma_nbr_total(ps, gi, buf@[pos as int] as int, j as int);
                }
                assert forall|k: int|
                    pos <= k < buf@.len() implies nbr_before(
                    ps,
                    gi,
                    j as int,
                    #[trigger] buf@[k] as int,
                ) by {
                    if k > pos {
                        lemma_nbr_trans(
                            ps,
                            gi,
                            j as int,
                            buf@[pos as int] as int,
                            buf@[k] as int,
                        );
                    }
                }
            }
            let ghost pre = buf@;
            buf.insert(pos, j);
            proof {
                pre.insert_ensures(pos as int, j);
                let mid = buf@;
                assert(mid.len() == pre.len() + 1);
                assert(in_list(mid, j as int)) by {
                    assert(mid[pos as int] == j);
                }
                // membership carries over from `pre` to `mid`
                assert forall|t: int| in_list(pre, t) implies in_list(mid, t) by {
                    let k = choose|k: int| 0 <= k < pre.len() && pre[k] == t;
                    if k < pos {
                        assert(mid[k] == t);
                    } else {
                        assert(mid[k + 1] == t);
                    }
                }
                // the enlarged buffer is still sorted
                assert forall|k1: int, k2: int|
                    0 <= k1 < k2 < mid.len() implies nbr_before(
                    ps,
                    gi,
                    #[trigger] mid[k1] as int,
                    #[trigger] mid[k2] as int,
                ) by {
                    if k1 < pos && k2 < pos {
                    } else if k1 < pos && k2 == pos {
                        assert(nbr_before(ps, gi, pre[k1] as int, j as int));
                    } else if k1 < pos && k2 > pos {
                        assert(nbr_before(ps, gi, pre[k1] as int, pre[k2 - 1] as int));
                    } else if k1 == pos {
                        assert(nbr_before(ps, gi, j as int, pre[k2 - 1] as int));
                    } else {
                        assert(nbr_before(ps, gi, pre[k1 - 1] as int, pre[k2 - 1] as int));
                    }
                }
            }
            if buf.len() > 5 {
                let ghost mid = buf@;
                buf.pop();
                proof {
                    let fin = buf@;
                    let e = mid[5];
                    assert(fin =~= mid.subrange(0, 5));
                    assert(mid.len() == 6 && pre.len() == 5);
                    // membership in the trimmed buffer, for everything but `e`
                    assert forall|t: int| in_list(mid, t) && t != e implies in_list(fin, t) by {
                        let k = choose|k: int| 0 <= k < mid.len() && mid[k] == t;
                        assert(fin[k] == t);
                    }
                    // the dropped element ranks after the new last element
                    assert(nbr_before(ps, gi, fin[4] as int, e as int));
                    // old outsiders still rank after the new last element
                    assert forall|t: int|
                        0 <= t < j + 1 && t != gi && !in_list(fin, t) implies nbr_before(
                        ps,
                        gi,
                        fin[4] as int,
                        t,
                    ) by {
                        if t == e {
                        } else if in_list(mid, t) {
                            assert(in_list(fin, t));
                        } else {
                            // t was already an outsider before this step
                            assert(!in_list(pre, t)) by {
                                if in_list(pre, t) {
                                    assert(in_list(mid, t));
                                }
                            }
                            assert(t != j);
                            assert(nbr_before(ps, gi, pre[4] as int, t));
                            if pos <= 4 {
                                assert(mid[5] == pre[4]);
                                lemma_nbr_trans(ps, gi, fin[4] as int, pre[4] as int, t);
                            }
                        }
                    }
                }
            }
            proof {
                // the new buffer still holds only seen candidates
                assert forall|k: int|
                    0 <= k < buf@.len() implies #[trigger] buf@[k] < j + 1 && buf@[k] != i by {}
            }
        }
        j += 1;
    }
    proof {
        assert(buf@.len() == neighbor_count(ps.len() as int));
        // every member ranks before every outsider, via the last member
        assert forall|j2: int, k: int|
            0 <= j2 < ps.len() && j2 != gi && !in_list(buf@, j2) && 0 <= k < buf@.len() implies nbr_before(
            ps,
            gi,
            #[trigger] buf@[k] as int,
            #[trigger] in_list_key(buf@, j2),
        ) by {
            let last = buf@.len() - 1;
            assert(nbr_before(ps, gi, buf@[last] as int, j2));
            if k < last {
                lemma_nbr_trans(ps, gi, buf@[k] as int, buf@[last] as int, j2);
            }
        }
    }
    buf
}

/// Origin distances are equal across two fields with equal origins.
proof fn lemma_odist_eq(ps1: Seq<Point>, ps2: Seq<Point>)
    requires
        ps1.len() == ps2.len(),
        forall|t: int|
            0 <= t < ps1.len() ==> (#[trigger] ps2[t]).origin_x == ps1[t].origin_x
                && ps2[t].origin_y == ps1[t].origin_y,
    ensures
        forall|a: int, b: int|
            0 <= a < ps1.len() && 0 <= b < ps1.len() ==> #[trigger] odist(ps2, a, b) == odist(
                ps1,
                a,
                b,
            ),
{
    assert forall|a: int, b: int|
        0 <= a < ps1.len() && 0 <= b < ps1.len() implies #[trigger] odist(ps2, a, b) == odist(
        ps1,
        a,
        b,
    ) by {
        assert(ps2[a].origin_x == ps1[a].origin_x);
        assert(ps2[b].origin_x == ps1[b].origin_x);
    }
}

/// A neighbor list that is well formed against `ps1` is well formed
/// against `ps2` when the two fields have the same origins: the
/// topology depends only on origins, which are immutable.
proof fn lemma_wf_after_set(ps1: Seq<Point>, ps2: Seq<Point>, i: int, ci: Seq<usize>)
    requires
        ps1.len() == ps2.len(),
        forall|t: int|
            0 <= t < ps1.len() ==> (#[trigger] ps2[t]).origin_x == ps1[t].origin_x
                && ps2[t].origin_y == ps1[t].origin_y,
        0 <= i < ps1.len(),
        ci == ps2[i].closest_indices@,
        ci.len() == neighbor_count(ps1.len() as int),
        entries_ok(ps1, i, ci),
        sorted_by_dist(ps1, i, ci),
        holds_nearest(ps1, i, ci),
    ensures
        neighbors_wf(ps2, i),
{
    lemma_odist_eq(ps1, ps2);
    assert forall|k1: int, k2: int|
        0 <= k1 < k2 < ci.len() implies nbr_before(ps2, i, #[trigger] ci[k1] as int, #[trigger] ci[k2] as int) by {
        assert(nbr_before(ps1, i, ci[k1] as int, ci[k2] as int));
    }
    assert forall|j: int, k: int|
        0 <= j < ps2.len() && j != i && !in_list(ci, j) && 0 <= k < ci.len() implies nbr_before(
        ps2,
        i,
        #[trigger] ci[k] as int,
        #[trigger] in_list_key(ci, j),
    ) by {
        assert(nbr_before(ps1, i, ci[k] as int, in_list_key(ci, j)));
    }
}

/// A well-formed neighbor list stays well formed when points move or
/// change activity.
proof fn lemma_same_topology(ps1: Seq<Point>, ps2: Seq<Point>, i: int)
    requires
        ps1.len() == ps2.len(),
        forall|t: int|
            0 <= t < ps1.len() ==> (#[trigger] ps2[t]).origin_x == ps1[t].origin_x
                && ps2[t].origin_y == ps1[t].origin_y,
        0 <= i < ps1.len(),
        neighbors_wf(ps1, i),
        ps2[i].closest_indices@ == ps1[i].closest_indices@,
    ensures
        neighbors_wf(ps2, i),
{
    lemma_wf_after_set(ps1, ps2, i, ps2[i].closest_indices@);
}

/// Point `p1` is `p0` after one frame of the activity update against
/// the target `(tx, ty)`: position, origin, radius and neighbor list
/// are untouched, and the activity level is recomputed from the
/// squared distance between the current position and the target.
pub open spec fn updated_point(p0: Point, p1: Point, tx: int, ty: int) -> bool {
    &&& p1.x == p0.x
    &&& p1.y == p0.y
    &&& p1.origin_x == p0.origin_x
    &&& p1.origin_y == p0.origin_y
    &&& p1.radius == p0.radius
    &&& p1.closest_indices@ == p0.closest_indices@
    &&& p1.active == activity_level(dist_sq(p0.x as int, p0.y as int, tx, ty))
}

impl AnimationEngine {
    /// Builds the field: one point per cell of a 20 by 20 grid over a
    /// `width` by `height` pixel domain, each jittered inside its cell
    /// by a pseudo-random offset derived from `seed`, with a radius in
    /// the band of two to four pixels; then precomputes every point's
    /// five nearest neighbors, a topology frozen from here on. The
    /// target starts at the center of the domain. A domain with a zero
    /// dimension degrades to an empty field.
    pub fn new(width: u32, height: u32, seed: u64) -> (engine: AnimationEngine)
        ensures
            engine.wf(),
            engine.width == width,
            engine.height == height,
            engine.target_x == 10 * width,
            engine.target_y == 10 * height,
            (width == 0 || height == 0) ==> engine.points@.len() == 0,
            (width > 0 && height > 0) ==> engine.points@.len() == 400,
            forall|i: int|
                0 <= i < engine.points@.len() ==> grid_cell_ok(
                    #[trigger] engine.points@[i],
                    i,
                    width,
                    height,
                ),
    {
        let mut points: Vec<Point> = Vec::new();
        if width > 0 && height > 0 {
            let w64: u64 = width as u64;
            let h64: u64 = height as u64;
            let mut state: u64 = seed;
            let mut col: usize = 0;
            while col < 20
                invariant
                    w64 == width,
                    h64 == height,
                    width > 0,
                    height > 0,
                    col <= 20,
                    points@.len() == col * 20,
                    forall|t: int|
                        0 <= t < points@.len() ==> grid_cell_ok(
                            #[trigger] points@[t],
                            t,
                            width,
                            height,
                        ),
                decreases 20 - col,
            {
                proof {
                    lemma_cell_arith(col as int, w64 as int);
                }
                let colw: u64 = (col as u64) * w64;
                let mut row: usize = 0;
                while row < 20
                    invariant
                        w64 == width,
                        h64 == height,
                        width > 0,
                        height > 0,
                        col < 20,
                        row <= 20,
                        colw == col * w64,
                        colw <= 19 * 0xffff_ffffu64,
                        points@.len() == col * 20 + row,
                        forall|t: int|
                            0 <= t < points@.len() ==> grid_cell_ok(
                                #[trigger] points@[t],
                                t,
                                width,
                                height,
                            ),
                    decreases 20 - row,
                {
                    proof {
                        lemma_cell_arith(row as int, h64 as int);
                        lemma_cell_arith(col as int, w64 as int);
                        lemma_grid_index(col as int, row as int);
                    }
                    let rowh: u64 = (row as u64) * h64;
                    let drawn_x = draw(state, w64);
                    let drawn_y = draw(drawn_x.0, h64);
                    let drawn_r = draw(drawn_y.0, 40);
                    state = drawn_r.0;
                    let px: u64 = colw + drawn_x.1;
                    let py: u64 = rowh + drawn_y.1;
                    points.push(
                        Point {
                            x: px,
                            y: py,
                            origin_x: px,
                            origin_y: py,
                            active: 0,
                            radius: 40 + drawn_r.1,
                            closest_indices: Vec::new(),
                        },
                    );
                    row += 1;
                }
                col += 1;
            }
            // the origins are settled; freeze the neighbor topology
            let n = points.len();
            proof {
                assert forall|t: int| 0 <= t < n implies coords_ok(#[trigger] points@[t]) by {
                    assert(grid_cell_ok(points@[t], t, width, height));
                }
            }
            let mut i: usize = 0;
            while i < n
                invariant
                    n == points@.len(),
                    i <= n,
                    forall|t: int| 0 <= t < n ==> coords_ok(#[trigger] points@[t]),
                    forall|t: int|
                        0 <= t < n ==> grid_cell_ok(#[trigger] points@[t], t, width, height),
                    forall|t: int| 0 <= t < i ==> neighbors_wf(points@, t),
                decreases n - i,
            {
                let ci = nearest_neighbors(&points, i);
                let np = Point {
                    x: points[i].x,
                    y: points[i].y,
                    origin_x: points[i].origin_x,
                    origin_y: points[i].origin_y,
                    active: points[i].active,
                    radius: points[i].radius,
                    closest_indices: ci,
                };
                let ghost before_set = points@;
                points.set(i, np);
                proof {
                    assert forall|t: int| 0 <= t < i + 1 implies neighbors_wf(points@, t) by {
                        if t < i {
                            lemma_same_topology(before_set, points@, t);
                        } else {
                            lemma_wf_after_set(before_set, points@, t, np.closest_indices@);
                        }
                    }
                }
                i += 1;
            }
        }
        AnimationEngine {
            points,
            width,
            height,
            target_x: 10 * (width as u64),
            target_y: 10 * (height as u64),
        }
    }

    /// Advances the field one frame: recomputes every point's activity
    /// level from its squared distance to the target. Positions are
    /// never touched here — an external driver owns tweening — and the
    /// neighbor topology is read-only. An empty field is a no-op.
    pub fn update(&mut self)
        requires
            old(self).wf(),
        ensures
            final(self).wf(),
            final(self).width == old(self).width,
            final(self).height == old(self).height,
            final(self).target_x == old(self).target_x,
            final(self).target_y == old(self).target_y,
            final(self).points@.len() == old(self).points@.len(),
            forall|i: int|
                0 <= i < old(self).points@.len() ==> updated_point(
                    old(self).points@[i],
                    #[trigger] final(self).points@[i],
                    old(self).target_x as int,
                    old(self).target_y as int,
                ),
    {
        if self.points.is_empty() {
            return;
        }
        let n = self.points.len();
        let mut i: usize = 0;
        while i < n
            invariant
                old(self).wf(),
                n == self.points@.len(),
                n == old(self).points@.len(),
                self.width == old(self).width,
                self.height == old(self).height,
                self.target_x == old(self).target_x,
                self.target_y == old(self).target_y,
                i <= n,
                forall|t: int|
                    0 <= t < i ==> updated_point(
                        old(self).points@[t],
                        #[trigger] self.points@[t],
                        old(self).target_x as int,
                        old(self).target_y as int,
                    ),
                forall|t: int|
                    i <= t < n ==> same_point(old(self).points@[t], #[trigger] self.points@[t]),
            decreases n - i,
        {
            proof {
                assert(coords_ok(old(self).points@[i as int]));
            }
            let px = self.points[i].x;
            let py = self.points[i].y;
            let d = distance_squared_coords(px, py, self.target_x, self.target_y);
            let a = activity_for(d);
            let np = Point {
                x: px,
                y: py,
                origin_x: self.points[i].origin_x,
                origin_y: self.points[i].origin_y,
                active: a,
                radius: self.points[i].radius,
                closest_indices: copy_indices(&self.points[i].closest_indices),
            };
            self.points.set(i, np);
            i += 1;
        }
        proof {
            assert forall|t: int| 0 <= t < n implies neighbors_wf(self.points@, t) by {
                lemma_same_topology(old(self).points@, self.points@, t);
            }
        }
    }

    /// Sets the rendered position of one point, leaving its identity
    /// (origin, radius, neighbor list) and every other point alone. An
    /// out-of-range index changes nothing.
    pub fn update_point_position(&mut self, index: usize, x: u64, y: u64)
        requires
            old(self).wf(),
            x <= MAX_COORD,
            y <= MAX_COORD,
        ensures
            final(self).wf(),
            final(self).width == old(self).width,
            final(self).height == old(self).height,
            final(self).target_x == old(self).target_x,
            final(self).target_y == old(self).target_y,
            final(self).points@.len() == old(self).points@.len(),
            index < old(self).points@.len() ==> ({
                let p0 = old(self).points@[index as int];
                let p1 = final(self).points@[index as int];
                &&& p1.x == x
                &&& p1.y == y
                &&& p1.origin_x == p0.origin_x
                &&& p1.origin_y == p0.origin_y
                &&& p1.active == p0.active
                &&& p1.radius == p0.radius
                &&& p1.closest_indices@ == p0.closest_indices@
            }),
            forall|t: int|
                0 <= t < old(self).points@.len() && t != index ==> same_point(
                    old(self).points@[t],
                    #[trigger] final(self).points@[t],
                ),
    {
        if index < self.points.len() {
            let np = Point {
                x,
                y,
                origin_x: self.points[index].origin_x,
                origin_y: self.points[index].origin_y,
                active: self.points[index].active,
                radius: self.points[index].radius,
                closest_indices: copy_indices(&self.points[index].closest_indices),
            };
            self.points.set(index, np);
            proof {
                assert forall|t: int| 0 <= t < self.points@.len() implies neighbors_wf(
                    self.points@,
                    t,
                ) by {
                    lemma_same_topology(old(self).points@, self.points@, t);
                }
            }
        }
    }
}

/// The flat record one active point contributes to the bulk export:
/// position, activity, radius, then the neighbor list prefixed by its
/// own length, so the stream is self-describing.
pub open spec fn point_record(p: Point) -> Seq<u64> {
    seq![p.x, p.y, p.active as u64, p.radius, p.closest_indices@.len() as u64]
        + p.closest_indices@.map_values(|v: usize| v as u64)
}

/// The bulk export of the first `n` points: the concatenated records
/// of those with nonzero activity, in field order.
pub open spec fn active_export(ps: Seq<Point>, n: int) -> Seq<u64>
    decreases n,
{
    if n <= 0 {
        Seq::<u64>::empty()
    } else {
        active_export(ps, n - 1) + if ps[n - 1].active > 0 {
            point_record(ps[n - 1])
        } else {
            Seq::<u64>::empty()
        }
    }
}

impl AnimationEngine {
    /// Serializes every point with nonzero activity into one flat
    /// numeric sequence (x, y, activity, radius, neighbor count, then
    /// the neighbor indices), so an external renderer can read the
    /// whole active set in a single call.
    pub fn get_active_points_data(&self) -> (data: Vec<u64>)
        ensures
            data@ == active_export(self.points@, self.points@.len() as int),
    {
        let mut data: Vec<u64> = Vec::new();
        let n = self.points.len();
        let mut i: usize = 0;
        while i < n
            invariant
                n == self.points@.len(),
                i <= n,
                data@ == active_export(self.points@, i as int),
            decreases n - i,
        {
            let p = &self.points[i];
            if p.active > 0 {
                data.push(p.x);
                data.push(p.y);
                data.push(p.active as u64);
                data.push(p.radius);
                let m = p.closest_indices.len();
                data.push(m as u64);
                let mut k: usize = 0;
                while k < m
                    invariant
                        n == self.points@.len(),
                        i < n,
                        *p == self.points@[i as int],
                        p.active > 0,
                        m == p.closest_indices@.len(),
                        k <= m,
                        data@ == active_export(self.points@, i as int) + seq![
                            p.x,
                            p.y,
                            p.active as u64,
                            p.radius,
                            m as u64,
                        ] + p.closest_indices@.map_values(|v: usize| v as u64).take(k as int),
                    decreases m - k,
                {
                    data.push(p.closest_indices[k] as u64);
                    proof {
                        assert(data@ =~= active_export(self.points@, i as int) + seq![
                            p.x,
                            p.y,
                            p.active as u64,
                            p.radius,
                            m as u64,
                        ] + p.closest_indices@.map_values(|v: usize| v as u64).take(k as int + 1));
                    }
                    k += 1;
                }
                proof {
                    assert(data@ =~= active_export(self.points@, i as int + 1));
                }
            } else {
                proof {
                    assert(data@ =~= active_export(self.points@, i as int + 1));
                }
            }
            i += 1;
        }
        data
    }
}

/// Relation between an engine and its state after `resize(width, height)`.
pub open spec fn resize_post(
    pre: AnimationEngine,
    width: u32,
    height: u32,
    post: AnimationEngine,
) -> bool {
    &&& post.points@ == pre.points@
    &&& post.width == width
    &&& post.height == height
    &&& post.target_x == width * (SUBUNITS / 2)
    &&& post.target_y == height * (SUBUNITS / 2)
}

/// Law: in a well-formed field, every point's neighbor list has
/// length `min(5, point_count - 1)`, contains no self-reference and
/// only valid indices, and is sorted by non-decreasing squared
/// distance between rest positions, ties broken by ascending index.
pub proof fn lemma_neighbor_list_shape(e: AnimationEngine, i: int)
    requires
        e.wf(),
        0 <= i < e.points@.len(),
    ensures
        e.points@[i].closest_indices@.len() == neighbor_count(e.points@.len() as int),
        entries_ok(e.points@, i, e.points@[i].closest_indices@),
        sorted_by_dist(e.points@, i, e.points@[i].closest_indices@),
        holds_nearest(e.points@, i, e.points@[i].closest_indices@),
{
    assert(neighbors_wf(e.points@, i));
}

/// Law: resizing to the field's current dimensions changes no point
/// state; it only recenters the target, and when the target already
/// sits at the center, the whole engine state is unchanged.
pub proof fn lemma_resize_idempotent(pre: AnimationEngine, post: AnimationEngine)
    requires
        resize_post(pre, pre.width, pre.height, post),
        pre.target_x == pre.width * (SUBUNITS / 2),
        pre.target_y == pre.height * (SUBUNITS / 2),
    ensures
        post.points@ == pre.points@,
        post.width == pre.width,
        post.height == pre.height,
        post.target_x == pre.target_x,
        post.target_y == pre.target_y,
{
}

} // verus!
