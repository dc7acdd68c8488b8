//! Quadtree behavior: geometry, mass conservation, and the Barnes-Hut
//! walk against the brute-force direct sum.

use gravitas::fx::SCALE;
use gravitas::vec2::V2;
use gravitas::quadtree::{Node, Quad, QuadTree};

fn fx(units: i64) -> i64 {
    units * SCALE
}

fn aligned_quad(half_units: i64) -> Quad {
    // a root half-size divisible by 2^12 keeps subdivision exact
    let raw = half_units * SCALE;
    let aligned = ((raw + 4095) / 4096) * 4096;
    Quad::new(V2 { x: 0, y: 0 }, aligned)
}

fn isqrt_u128(n: u128) -> u128 {
    let mut lo: u128 = 0;
    let mut hi: u128 = 1 << 64;
    while lo + 1 < hi {
        let mid = lo + (hi - lo) / 2;
        if mid * mid <= n {
            lo = mid;
        } else {
            hi = mid;
        }
    }
    lo
}

/// The softened pairwise acceleration, reproduced in plain integer math.
fn pair_acc(px: i64, py: i64, qx: i64, qy: i64, m: i64, g: i64, soft2: i64) -> (i128, i128) {
    let rx = qx as i128 - px as i128;
    let ry = qy as i128 - py as i128;
    let d2 = rx * rx + ry * ry + soft2 as i128;
    if d2 == 0 {
        return (0, 0);
    }
    let d = isqrt_u128(d2 as u128) as i128;
    let denom = d2 * d;
    (
        g as i128 * m as i128 * rx * SCALE as i128 / denom,
        g as i128 * m as i128 * ry * SCALE as i128 / denom,
    )
}

#[test]
fn quad_contains_is_inclusive() {
    let q = Quad::new(V2 { x: 0, y: 0 }, fx(10));
    assert!(q.contains(V2 { x: fx(10), y: fx(10) }));
    assert!(q.contains(V2 { x: -fx(10), y: -fx(10) }));
    assert!(q.contains(V2 { x: 0, y: 0 }));
    assert!(!q.contains(V2 { x: fx(10) + 1, y: 0 }));
    assert!(!q.contains(V2 { x: 0, y: -fx(10) - 1 }));
}

#[test]
fn subdivide_gives_four_half_quads() {
    let q = Quad::new(V2 { x: fx(8), y: -fx(8) }, fx(8));
    let kids = q.subdivide();
    // NW, NE, SW, SE in that order
    assert_eq!(kids[0].center, V2 { x: fx(4), y: -fx(4) });
    assert_eq!(kids[1].center, V2 { x: fx(12), y: -fx(4) });
    assert_eq!(kids[2].center, V2 { x: fx(4), y: -fx(12) });
    assert_eq!(kids[3].center, V2 { x: fx(12), y: -fx(12) });
    for k in 0..4 {
        assert_eq!(kids[k].half_size, fx(4));
    }
    assert_eq!(q.size(), fx(16));
}

#[test]
fn root_mass_equals_sum_of_inserted_masses() {
    let mut t = QuadTree::new(aligned_quad(4000));
    let masses = [fx(10), fx(25), fx(7), fx(100), fx(58)];
    let pts = [
        (fx(100), fx(200)),
        (-fx(300), fx(50)),
        (fx(70), -fx(900)),
        (-fx(5), -fx(5)),
        (fx(2000), fx(1500)),
    ];
    let mut total = 0i64;
    for i in 0..masses.len() {
        let dropped = t.insert(V2 { x: pts[i].0, y: pts[i].1 }, masses[i]);
        assert!(!dropped);
        total += masses[i];
    }
    t.build_mass_centers();
    assert_eq!(t.root_mass(), total);
}

#[test]
fn out_of_bounds_point_is_dropped() {
    let mut t = QuadTree::new(aligned_quad(100));
    let dropped = t.insert(V2 { x: fx(500), y: 0 }, fx(10));
    assert!(dropped);
    let kept = t.insert(V2 { x: fx(50), y: 0 }, fx(10));
    assert!(!kept);
    t.build_mass_centers();
    assert_eq!(t.root_mass(), fx(10));
}

#[test]
fn coincident_points_merge_at_depth_cap() {
    let mut t = QuadTree::new(aligned_quad(4000));
    // same position: subdivision stops at the depth cap and merges
    for _ in 0..4 {
        let dropped = t.insert(V2 { x: fx(123), y: fx(321) }, fx(5));
        assert!(!dropped);
    }
    t.build_mass_centers();
    assert_eq!(t.root_mass(), fx(20));
}

#[test]
fn theta_zero_walk_matches_direct_sum() {
    let g = 120 * SCALE;
    let soft2 = SCALE * SCALE; // softening of 1 unit, squared scale
    let bodies = [
        (fx(100), fx(250), fx(4000)),
        (-fx(700), fx(90), fx(12000)),
        (fx(40), -fx(330), fx(900)),
        (-fx(25), -fx(25), fx(66)),
    ];
    let mut t = QuadTree::new(aligned_quad(4000));
    for &(x, y, m) in bodies.iter() {
        assert!(!t.insert(V2 { x, y }, m));
    }
    t.build_mass_centers();

    let probe = V2 { x: fx(10), y: fx(20) };
    let got = t.approx_acc(probe, g, 0, soft2);

    let mut ax: i128 = 0;
    let mut ay: i128 = 0;
    for &(x, y, m) in bodies.iter() {
        let (px, py) = pair_acc(probe.x, probe.y, x, y, m, g, soft2);
        ax += px;
        ay += py;
    }
    assert_eq!(got.x as i128, ax);
    assert_eq!(got.y as i128, ay);
}

#[test]
fn wide_theta_takes_the_monopole_shortcut() {
    // a distant two-body cluster seen under a huge opening angle collapses
    // to one point mass at its center of mass, so the walk equals the
    // single monopole contribution, not the two-body direct sum
    let g = 120 * SCALE;
    let soft2 = 0;
    let mut t = QuadTree::new(aligned_quad(4000));
    assert!(!t.insert(V2 { x: fx(2100), y: fx(2000) }, fx(500)));
    assert!(!t.insert(V2 { x: fx(2000), y: fx(2100) }, fx(500)));
    t.build_mass_centers();

    let probe = V2 { x: -fx(2000), y: -fx(2000) };
    let wide = t.approx_acc(probe, g, 16 * SCALE, soft2);
    let exact = t.approx_acc(probe, g, 0, soft2);
    // the monopole stands at the center of mass (2050, 2050); by symmetry
    // its pull at the probe has equal components
    assert_eq!(wide.x, wide.y);
    // both agree in direction and closely in magnitude
    assert!(wide.x > 0 && exact.x > 0 && exact.y > 0);
    let diff = (wide.x - exact.x).abs();
    assert!(diff <= exact.x / 100);
}

#[test]
fn density_factor_zero_for_sparse_tree() {
    let mut t = QuadTree::new(aligned_quad(4000));
    assert!(!t.insert(V2 { x: fx(10), y: fx(10) }, fx(5)));
    t.build_mass_centers();
    // a single leaf at the root: no internal descent at all
    assert_eq!(t.get_density_factor(V2 { x: fx(10), y: fx(10) }), 0);
}

#[test]
fn density_factor_grows_in_crowded_regions() {
    let mut t = QuadTree::new(aligned_quad(4000));
    assert!(!t.insert(V2 { x: fx(10), y: fx(10) }, fx(5)));
    assert!(!t.insert(V2 { x: fx(11), y: fx(10) }, fx(5)));
    t.build_mass_centers();
    let d = t.get_density_factor(V2 { x: fx(10), y: fx(10) });
    assert!(d > 0);
    assert!(d <= SCALE);
}

#[test]
fn insert_into_empty_root_makes_a_leaf() {
    let mut t = QuadTree::new(aligned_quad(100));
    assert!(!t.insert(V2 { x: fx(10), y: fx(20) }, fx(5)));
    match *t.root {
        Node::Leaf { pos, mass, .. } => {
            assert_eq!(pos, V2 { x: fx(10), y: fx(20) });
            assert_eq!(mass, fx(5));
        }
        _ => panic!("one inserted body must make the root a leaf"),
    }
}

#[test]
fn dropped_point_leaves_the_tree_unchanged() {
    let mut t = QuadTree::new(aligned_quad(100));
    assert!(!t.insert(V2 { x: fx(10), y: fx(20) }, fx(5)));
    // far outside the bounds: the silent-loss path by design
    assert!(t.insert(V2 { x: fx(5000), y: 0 }, fx(7)));
    match *t.root {
        Node::Leaf { pos, mass, .. } => {
            assert_eq!(pos, V2 { x: fx(10), y: fx(20) });
            assert_eq!(mass, fx(5));
        }
        _ => panic!("a dropped insert must not change the tree"),
    }
}

#[test]
fn build_mass_centers_is_idempotent() {
    let mut t = QuadTree::new(aligned_quad(4000));
    assert!(!t.insert(V2 { x: fx(100), y: fx(200) }, fx(30)));
    assert!(!t.insert(V2 { x: -fx(500), y: fx(50) }, fx(70)));
    t.build_mass_centers();
    let (m1, com1) = match *t.root {
        Node::Internal { mass, com, .. } => (mass, com),
        _ => panic!("two separated bodies must subdivide the root"),
    };
    t.build_mass_centers();
    let (m2, com2) = match *t.root {
        Node::Internal { mass, com, .. } => (mass, com),
        _ => panic!("rebuilding aggregates must not change node kinds"),
    };
    assert_eq!(m1, m2);
    assert_eq!(com1, com2);
    assert_eq!(m1, fx(100));
}
