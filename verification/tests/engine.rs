// Tests for the point-field engine.
//
// Coordinates are fixed point: one pixel is 20 units. The activity
// bands, at 4000 / 20000 / 40000 square pixels, are therefore at
// 1_600_000 / 8_000_000 / 16_000_000 square units, and the activity
// levels 0.3 / 0.1 / 0.02 are reported in thousandths: 300 / 100 / 20.

use point_field::AnimationEngine;

fn origin_dist_sq(a: (u64, u64), b: (u64, u64)) -> u128 {
    let dx: u128 = if a.0 >= b.0 { (a.0 - b.0) as u128 } else { (b.0 - a.0) as u128 };
    let dy: u128 = if a.1 >= b.1 { (a.1 - b.1) as u128 } else { (b.1 - a.1) as u128 };
    dx * dx + dy * dy
}

#[test]
fn field_size_matches_grid() {
    let e = AnimationEngine::new(100, 100, 7);
    assert_eq!(e.get_points_count(), 400);

    let empty = AnimationEngine::new(0, 0, 1);
    assert_eq!(empty.get_points_count(), 0);
    let flat = AnimationEngine::new(5, 0, 2);
    assert_eq!(flat.get_points_count(), 0);
    let thin = AnimationEngine::new(0, 9, 3);
    assert_eq!(thin.get_points_count(), 0);
}

#[test]
fn empty_field_operations_are_safe() {
    let mut e = AnimationEngine::new(0, 0, 4);
    e.update();
    e.resize(10, 10);
    e.set_target(50, 50);
    e.update_point_position(0, 1, 1);
    e.update();
    assert_eq!(e.get_points_count(), 0);
    let p = e.get_point(0);
    assert_eq!(p.x(), 0);
    assert_eq!(p.y(), 0);
    assert_eq!(p.radius(), 0);
    assert_eq!(p.get_closest_indices().len(), 0);
    let q = e.get_point_closest(0, 0);
    assert_eq!(q.radius(), 0);
    assert_eq!(e.get_closest_count(0), 0);
    assert_eq!(e.get_active_points_data().len(), 0);
}

#[test]
fn points_lie_in_their_cells() {
    // 100 pixels wide: each of the 20 cells is 100 units wide, and the
    // whole domain is 2000 units on each axis.
    let e = AnimationEngine::new(100, 100, 42);
    let mut i: usize = 0;
    while i < 400 {
        let p = e.get_point(i);
        let col: u64 = (i / 20) as u64;
        let row: u64 = (i % 20) as u64;
        assert!(col * 100 <= p.x() && p.x() < (col + 1) * 100);
        assert!(row * 100 <= p.y() && p.y() < (row + 1) * 100);
        assert!(p.x() < 2000 && p.y() < 2000);
        assert_eq!(p.origin_x(), p.x());
        assert_eq!(p.origin_y(), p.y());
        assert!(40 <= p.radius() && p.radius() < 80);
        assert_eq!(p.active(), 0);
        i += 1;
    }
}

#[test]
fn neighbor_lists_hold_the_five_nearest() {
    let e = AnimationEngine::new(60, 40, 9);
    let n: usize = e.get_points_count();
    assert_eq!(n, 400);

    let mut origins: Vec<(u64, u64)> = Vec::new();
    let mut i: usize = 0;
    while i < n {
        let p = e.get_point(i);
        origins.push((p.origin_x(), p.origin_y()));
        i += 1;
    }

    i = 0;
    while i < n {
        let ci = e.get_point(i).get_closest_indices();
        assert_eq!(ci.len(), 5);
        assert_eq!(e.get_closest_count(i), 5);

        // valid, no self-reference, sorted by ascending squared
        // distance with ties broken by ascending index
        let mut k: usize = 0;
        while k < ci.len() {
            assert!(ci[k] < n && ci[k] != i);
            if k > 0 {
                let da = origin_dist_sq(origins[i], origins[ci[k - 1]]);
                let db = origin_dist_sq(origins[i], origins[ci[k]]);
                assert!(da < db || (da == db && ci[k - 1] < ci[k]));
                // right after construction every point still rests at
                // its origin, so the position distance agrees
                let pa = e.get_point(i);
                let pb = e.get_point(ci[k]);
                assert_eq!(
                    point_field::geometry::distance_squared(&pa, &pb),
                    origin_dist_sq(origins[i], origins[ci[k]])
                );
            }
            k += 1;
        }

        // a full brute-force check on a sample of points
        if i % 79 == 0 {
            let mut ranked: Vec<(u128, usize)> = Vec::new();
            let mut j: usize = 0;
            while j < n {
                if j != i {
                    ranked.push((origin_dist_sq(origins[i], origins[j]), j));
                }
                j += 1;
            }
            ranked.sort();
            let mut k: usize = 0;
            while k < 5 {
                assert_eq!(ci[k], ranked[k].1);
                k += 1;
            }
        }
        i += 1;
    }
}

#[test]
fn neighbor_resolution_returns_full_point_state() {
    let e = AnimationEngine::new(30, 30, 17);
    let ci = e.get_point(3).get_closest_indices();
    let mut k: usize = 0;
    while k < ci.len() {
        let direct = e.get_point(ci[k]);
        let via = e.get_point_closest(3, k);
        assert_eq!(via.x(), direct.x());
        assert_eq!(via.y(), direct.y());
        assert_eq!(via.origin_x(), direct.origin_x());
        assert_eq!(via.origin_y(), direct.origin_y());
        assert_eq!(via.radius(), direct.radius());
        assert_eq!(via.active(), direct.active());
        assert_eq!(via.get_closest_indices(), direct.get_closest_indices());
        k += 1;
    }
}

// A 1-by-1-pixel domain: the cell step is one unit, so the jitter is
// always zero and point i rests exactly at (i / 20, i % 20) units.
fn tiny_field(seed: u64) -> AnimationEngine {
    let e = AnimationEngine::new(1, 1, seed);
    assert_eq!(e.get_points_count(), 400);
    assert_eq!(e.get_point(0).x(), 0);
    assert_eq!(e.get_point(0).y(), 0);
    e
}

#[test]
fn activity_bands_classify_squared_distance() {
    let mut e = tiny_field(3);
    let tx: u64 = 100_000;
    let ty: u64 = 100_000;
    e.set_target(tx, ty);

    // (offset, expected activity): squared distances sit inside each
    // band and exactly on each boundary, which belongs to the band
    // above it. In square pixels: 2900, 4000, 10000, 20000, 25000,
    // 40000 and 50000 against the thresholds 4000 / 20000 / 40000.
    let cases: [(u64, u64, u32); 7] = [
        (1000, 400, 300),   // 1_160_000 units^2
        (1200, 400, 100),   // 1_600_000 units^2: exactly 4000 px^2
        (2000, 0, 100),     // 4_000_000 units^2
        (2000, 2000, 20),   // 8_000_000 units^2: exactly 20000 px^2
        (3000, 1000, 20),   // 10_000_000 units^2
        (4000, 0, 0),       // 16_000_000 units^2: exactly 40000 px^2
        (4000, 2000, 0),    // 20_000_000 units^2
    ];

    let mut c: usize = 0;
    while c < cases.len() {
        let dx: u64 = cases[c].0;
        let dy: u64 = cases[c].1;
        let want: u32 = cases[c].2;
        e.update_point_position(0, tx - dx, ty - dy);
        e.update();
        let p = e.get_point(0);
        assert_eq!(p.active(), want);
        // the update never moves a point
        assert_eq!(p.x(), tx - dx);
        assert_eq!(p.y(), ty - dy);
        // a point far from the target is flat
        assert_eq!(e.get_point(399).active(), 0);
        c += 1;
    }
}

#[test]
fn target_starts_at_the_center() {
    // the initial target is the domain midpoint: a point moved there
    // is in the nearest band after one update
    let mut e = tiny_field(5);
    e.update_point_position(0, 10, 10);
    e.update();
    assert_eq!(e.get_point(0).active(), 300);
}

#[test]
fn resize_with_current_dimensions_changes_nothing() {
    let mut e = tiny_field(5);
    e.update_point_position(0, 10, 10);
    e.update();

    let mut before: Vec<(u64, u64, u64, u64, u32, u64, Vec<usize>)> = Vec::new();
    let mut i: usize = 0;
    while i < 400 {
        let p = e.get_point(i);
        before.push((
            p.x(),
            p.y(),
            p.origin_x(),
            p.origin_y(),
            p.active(),
            p.radius(),
            p.get_closest_indices(),
        ));
        i += 1;
    }

    e.resize(1, 1);

    i = 0;
    while i < 400 {
        let p = e.get_point(i);
        let b = &before[i];
        assert_eq!(p.x(), b.0);
        assert_eq!(p.y(), b.1);
        assert_eq!(p.origin_x(), b.2);
        assert_eq!(p.origin_y(), b.3);
        assert_eq!(p.active(), b.4);
        assert_eq!(p.radius(), b.5);
        assert_eq!(p.get_closest_indices(), b.6);
        i += 1;
    }

    // the target is recentered onto the same midpoint
    e.update();
    assert_eq!(e.get_point(0).active(), 300);
}

#[test]
fn resize_recenters_the_target() {
    let mut e = tiny_field(8);
    e.resize(200, 300);
    // the new midpoint, in units: (200 * 20 / 2, 300 * 20 / 2)
    e.update_point_position(7, 2000, 3000);
    e.update();
    assert_eq!(e.get_point(7).active(), 300);
    // points are neither regenerated nor repositioned
    assert_eq!(e.get_points_count(), 400);
    assert_eq!(e.get_point(0).x(), 0);
    assert_eq!(e.get_point(0).y(), 0);
}

#[test]
fn out_of_range_access_returns_the_sentinel() {
    let e = AnimationEngine::new(100, 100, 11);

    let p = e.get_point(400);
    assert_eq!(p.x(), 0);
    assert_eq!(p.y(), 0);
    assert_eq!(p.origin_x(), 0);
    assert_eq!(p.origin_y(), 0);
    assert_eq!(p.active(), 0);
    assert_eq!(p.radius(), 0);
    assert_eq!(p.get_closest_indices().len(), 0);

    // real points have a nonzero radius, so the sentinel is distinguishable
    assert!(e.get_point(399).radius() >= 40);

    let q = e.get_point_closest(400, 0);
    assert_eq!(q.radius(), 0);
    let r = e.get_point_closest(0, 5);
    assert_eq!(r.radius(), 0);
    assert_eq!(r.get_closest_indices().len(), 0);
    assert_eq!(e.get_closest_count(400), 0);
}

#[test]
fn bulk_export_lists_only_active_points() {
    let mut e = tiny_field(13);

    // target far away: nothing is active, the export is empty
    e.set_target(100_000, 100_000);
    e.update();
    assert_eq!(e.get_active_points_data().len(), 0);

    // target at the center of the tiny field: every point is within
    // the nearest band, so all 400 records appear, in field order
    e.set_target(10, 10);
    e.update();
    let data = e.get_active_points_data();
    assert_eq!(data.len(), 400 * 10);

    let mut i: usize = 0;
    while i < 400 {
        let p = e.get_point(i);
        let rec = &data[i * 10..(i + 1) * 10];
        assert_eq!(rec[0], p.x());
        assert_eq!(rec[1], p.y());
        assert_eq!(rec[2], 300);
        assert_eq!(rec[3], p.radius());
        assert_eq!(rec[4], 5);
        let ci = p.get_closest_indices();
        let mut k: usize = 0;
        while k < 5 {
            assert_eq!(rec[5 + k], ci[k] as u64);
            k += 1;
        }
        i += 1;
    }
}

#[test]
fn construction_is_deterministic_in_the_seed() {
    let a = AnimationEngine::new(100, 100, 21);
    let b = AnimationEngine::new(100, 100, 21);
    let mut i: usize = 0;
    while i < 400 {
        let pa = a.get_point(i);
        let pb = b.get_point(i);
        assert_eq!(pa.x(), pb.x());
        assert_eq!(pa.y(), pb.y());
        assert_eq!(pa.radius(), pb.radius());
        assert_eq!(pa.get_closest_indices(), pb.get_closest_indices());
        i += 1;
    }
}
