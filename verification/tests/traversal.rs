//! The grid traversal: contiguity, distance monotonicity, axis-aligned
//! stepping and the default cast.

use raycaster::fx::Fx;
use raycaster::raycast::{RayWalker, Raycast};

fn walk(cast: Raycast) -> Vec<(i64, i64, i64)> {
    let mut w = RayWalker::new(cast);
    let mut out = Vec::new();
    while let Some(s) = w.next() {
        out.push((s.ix, s.iy, s.total.raw));
    }
    out
}

#[test]
fn default_cast_reaches_thirty_tiles() {
    let d = Raycast::default();
    assert_eq!(d.x.raw, 0);
    assert_eq!(d.y.raw, 0);
    assert_eq!(d.dx.raw, 0);
    assert_eq!(d.dy.raw, 0);
    assert_eq!(d.max_distance.raw, 30 * 65536);
}

#[test]
fn axis_aligned_ray_unit_steps() {
    let cast = Raycast {
        x: Fx::from_raw(32768),
        y: Fx::from_raw(32768),
        dx: Fx::from_int(1),
        dy: Fx::from_raw(0),
        max_distance: Fx::from_int(5),
    };
    let steps = walk(cast);
    // Crossings at 0.5, 1.5, ... ; the cast stops once the distance
    // travelled reaches five tiles, after its sixth crossing.
    assert_eq!(steps.len(), 6);
    for (k, s) in steps.iter().enumerate() {
        assert_eq!(s.0, 1 + k as i64);
        assert_eq!(s.1, 0);
    }
    // First crossing is half a tile out, then one tile per step.
    assert_eq!(steps[0].2, 32768);
    assert_eq!(steps[1].2, 32768 + 65536);
}

#[test]
fn any_ray_is_contiguous_with_nondecreasing_distance() {
    let casts = vec![
        (3, 2),
        (-3, 2),
        (1, 1),
        (2, -5),
        (-1, -1),
        (7, 3),
    ];
    for (dx, dy) in casts {
        let cast = Raycast {
            x: Fx::from_raw(17000),
            y: Fx::from_raw(120000),
            dx: Fx::from_int(dx),
            dy: Fx::from_int(dy),
            max_distance: Fx::from_int(10),
        };
        let steps = walk(cast);
        assert!(steps.len() > 0);
        let mut prev = (
            cast.x.floor_int(),
            cast.y.floor_int(),
            0i64,
        );
        for s in steps {
            let dxs = (s.0 - prev.0).abs();
            let dys = (s.1 - prev.1).abs();
            assert_eq!(dxs + dys, 1, "a step must enter an edge-adjacent tile");
            assert!(s.2 >= prev.2, "distance must not decrease");
            prev = s;
        }
    }
}

#[test]
fn crossing_offsets_sit_on_the_gridline() {
    let cast = Raycast {
        x: Fx::from_raw(32768),
        y: Fx::from_raw(32768),
        dx: Fx::from_int(2),
        dy: Fx::from_int(1),
        max_distance: Fx::from_int(4),
    };
    let mut w = RayWalker::new(cast);
    while let Some(s) = w.next() {
        // The crossed axis lands exactly on its gridline: one fractional
        // offset is always zero, the other stays within a tile.
        assert!(s.frac_x.raw == 0 || s.frac_y.raw == 0);
        assert!(0 <= s.frac_x.raw && s.frac_x.raw < 65536);
        assert!(0 <= s.frac_y.raw && s.frac_y.raw < 65536);
    }
}
