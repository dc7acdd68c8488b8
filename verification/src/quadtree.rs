//! The Barnes-Hut quadtree.
//!
//! A `Node` is Empty, a Leaf holding one body, or Internal with four
//! children; an Internal node caches its subtree's aggregate mass and
//! center of mass once `build_mass_centers` has run. The tree is rebuilt
//! from scratch every step from a snapshot of body positions and masses.
//!
//! Child order follows `child_index`: position bit 0 is "right of center"
//! and bit 1 is "above center", so slot 0 is the bottom-left (SW-like)
//! quadrant, slot 1 bottom-right, slot 2 top-left, slot 3 top-right.
//! Points exactly on a center line route to the left/bottom side.
//! `insert` always routes a point to the unique child quadrant that
//! contains it, so the only silent-loss path is a point outside the root
//! bounds, which the caller avoids by recomputing the bounds from the live
//! body extents before every rebuild.
//!
//! Two points that collide at the maximum subdivision depth merge into a
//! single leaf (summing their masses, keeping the resident position), so
//! numerically coincident bodies cannot trigger unbounded subdivision.

use vstd::prelude::*;
use vstd::multiset::Multiset;
use vstd::assert_multisets_equal;
use vstd::arithmetic::div_mod::lemma_fundamental_div_mod;
use crate::fx::{tdiv, sqrt_floor, SCALE};
use crate::vec2::V2;
use crate::body::lemma_root_small;

verus! {

/// Maximum subdivision depth of the tree.
pub const MAX_DEPTH: usize = 12;

/// Half the side of the largest root quad the engine accepts (2^40 in
/// fixed point); keeps every 128-bit intermediate of the force walk exact.
pub const TREE_SPAN: i64 = 1099511627776;

/// Cap on the total mass inserted into one tree (2^40 in fixed point);
/// keeps the force accumulator within 128 bits.
pub const MASS_LIMIT: i64 = 1099511627776;

/// An axis-aligned square region: center plus half side length.
#[derive(Clone, Copy, PartialEq, Eq, Structural, Debug)]
pub struct Quad {
    pub center: V2,
    pub half_size: i64,
}

/// Membership in a quad, inclusive on all four edges.
pub open spec fn quad_contains(q: Quad, px: int, py: int) -> bool {
    &&& q.center.x - q.half_size <= px <= q.center.x + q.half_size
    &&& q.center.y - q.half_size <= py <= q.center.y + q.half_size
}

/// `child` is the quadrant of `parent` at `child_index` slot `i`:
/// half the half-size, offset diagonally; slot bit 0 picks right over
/// left, bit 1 top over bottom.
pub open spec fn is_child_quad(parent: Quad, i: int, child: Quad) -> bool {
    let h2 = parent.half_size as int / 2;
    &&& child.half_size == h2
    &&& child.center.x == parent.center.x + (if i % 2 == 1 { h2 } else { -h2 })
    &&& child.center.y == parent.center.y + (if i / 2 == 1 { h2 } else { -h2 })
}

/// The slot a point routes to: bit 0 set iff strictly right of center,
/// bit 1 set iff strictly above; boundary points go left/bottom.
pub open spec fn child_index_spec(q: Quad, px: int, py: int) -> int {
    (if py > q.center.y { 2int } else { 0int }) + (if px > q.center.x { 1int } else { 0int })
}

/// Powers of two (spec helper for quad alignment).
pub open spec fn pw2(k: nat) -> int
    decreases k,
{
    if k == 0 {
        1
    } else {
        2 * pw2((k - 1) as nat)
    }
}

pub proof fn lemma_pw2_pos(k: nat)
    ensures
        pw2(k) >= 1,
    decreases k,
{
    if k > 0 {
        lemma_pw2_pos((k - 1) as nat);
    }
}

/// A quad is well formed at tree depth `depth`: nonnegative half-size,
/// bounded extent, and half-size divisible by 2^(MAX_DEPTH - depth) so
/// that subdivision stays exact down to the depth cap.
pub open spec fn wf_quad(q: Quad, depth: nat) -> bool {
    &&& 0 <= q.half_size
    &&& depth <= MAX_DEPTH
    &&& -TREE_SPAN <= q.center.x - q.half_size
    &&& q.center.x + q.half_size <= TREE_SPAN
    &&& -TREE_SPAN <= q.center.y - q.half_size
    &&& q.center.y + q.half_size <= TREE_SPAN
    &&& (q.half_size as int) % pw2((MAX_DEPTH - depth) as nat) == 0
}

/// A well-formed quad above the depth cap has an even half-size, and its
/// quadrants are well formed one level down.
pub proof fn lemma_child_quad_wf(parent: Quad, i: int, child: Quad, depth: nat)
    requires
        wf_quad(parent, depth),
        depth < MAX_DEPTH,
        0 <= i < 4,
        is_child_quad(parent, i, child),
    ensures
        wf_quad(child, depth + 1),
        parent.half_size % 2 == 0,
        child.half_size == parent.half_size as int / 2,
{
    let k = (MAX_DEPTH - depth) as nat;
    let h = parent.half_size as int;
    lemma_pw2_pos((k - 1) as nat);
    assert(pw2(k) == 2 * pw2((k - 1) as nat));
    let p = pw2((k - 1) as nat);
    assert(h % (2 * p) == 0);
    lemma_fundamental_div_mod(h, 2 * p);
    let q = h / (2 * p);
    assert(h == 2 * p * q);
    assert(h / 2 == p * q && h % 2 == 0) by (nonlinear_arith)
        requires h == 2 * p * q, p >= 1;
    assert((p * q) % p == 0) by {
        vstd::arithmetic::div_mod::lemma_mod_multiples_basic(q, p);
    }
}

/// Routing is containment-correct: a point inside an (even-half) quad lies
/// inside the quadrant `child_index_spec` picks for it.
pub proof fn lemma_route_contains(q: Quad, px: int, py: int, child: Quad)
    requires
        quad_contains(q, px, py),
        q.half_size % 2 == 0,
        q.half_size >= 0,
        is_child_quad(q, child_index_spec(q, px, py), child),
    ensures
        quad_contains(child, px, py),
{
    lemma_fundamental_div_mod(q.half_size as int, 2);
}

/// Quadrants stay inside the parent: a point outside the parent is outside
/// every child.
pub proof fn lemma_child_within(q: Quad, i: int, child: Quad, px: int, py: int)
    requires
        !quad_contains(q, px, py),
        q.half_size % 2 == 0,
        q.half_size >= 0,
        0 <= i < 4,
        is_child_quad(q, i, child),
    ensures
        !quad_contains(child, px, py),
{
    lemma_fundamental_div_mod(q.half_size as int, 2);
}

impl Quad {
    pub fn new(center: V2, half_size: i64) -> (r: Quad)
        ensures
            r.center == center && r.half_size == half_size,
    {
        Quad { center, half_size }
    }

    /// Inclusive containment test.
    pub fn contains(&self, p: V2) -> (r: bool)
        ensures
            r == quad_contains(*self, p.x as int, p.y as int),
    {
        let cx = self.center.x as i128;
        let cy = self.center.y as i128;
        let h = self.half_size as i128;
        let px = p.x as i128;
        let py = p.y as i128;
        px >= cx - h && px <= cx + h && py >= cy - h && py <= cy + h
    }

    /// The four quadrants in NW, NE, SW, SE order (`child_index` slots
    /// 2, 3, 0, 1).
    pub fn subdivide(&self) -> (r: [Quad; 4])
        requires
            self.half_size >= 0,
            -TREE_SPAN <= self.center.x - self.half_size,
            self.center.x + self.half_size <= TREE_SPAN,
            -TREE_SPAN <= self.center.y - self.half_size,
            self.center.y + self.half_size <= TREE_SPAN,
        ensures
            is_child_quad(*self, 2, r[0]),
            is_child_quad(*self, 3, r[1]),
            is_child_quad(*self, 0, r[2]),
            is_child_quad(*self, 1, r[3]),
    {
        let hs: i64 = self.half_size / 2;
        let cx = self.center.x;
        let cy = self.center.y;
        [
            Quad { center: V2 { x: cx - hs, y: cy + hs }, half_size: hs },
            Quad { center: V2 { x: cx + hs, y: cy + hs }, half_size: hs },
            Quad { center: V2 { x: cx - hs, y: cy - hs }, half_size: hs },
            Quad { center: V2 { x: cx + hs, y: cy - hs }, half_size: hs },
        ]
    }

    /// Full side length.
    pub fn size(&self) -> (r: i64)
        requires
            0 <= self.half_size <= TREE_SPAN,
        ensures
            r == 2 * self.half_size,
    {
        self.half_size * 2
    }
}

/// A quadtree node.
pub enum Node {
    /// No body in this region.
    Empty { quad: Quad },
    /// Exactly one body (or a stack of depth-cap-merged coincident bodies).
    Leaf { quad: Quad, pos: V2, mass: i64 },
    /// Four children plus cached aggregate mass / center of mass (the
    /// caches are stale until `build_mass_centers` runs).
    Internal {
        quad: Quad,
        mass: i64,
        com: V2,
        c0: Box<Node>,
        c1: Box<Node>,
        c2: Box<Node>,
        c3: Box<Node>,
    },
}

/// The bounds of a node.
pub open spec fn node_quad(n: Node) -> Quad {
    match n {
        Node::Empty { quad } => quad,
        Node::Leaf { quad, .. } => quad,
        Node::Internal { quad, .. } => quad,
    }
}

/// Total mass actually stored in a subtree (sum over its leaves).
pub open spec fn mass_sum(n: Node) -> int
    decreases n,
{
    match n {
        Node::Empty { .. } => 0,
        Node::Leaf { mass, .. } => mass as int,
        Node::Internal { c0, c1, c2, c3, .. } =>
            mass_sum(*c0) + mass_sum(*c1) + mass_sum(*c2) + mass_sum(*c3),
    }
}


/// The bag of `(position, mass)` pairs stored in a subtree's leaves.
pub open spec fn leaves(n: Node) -> Multiset<(V2, i64)>
    decreases n,
{
    match n {
        Node::Empty { .. } => Multiset::empty(),
        Node::Leaf { pos, mass, .. } => Multiset::empty().insert((pos, mass)),
        Node::Internal { c0, c1, c2, c3, .. } =>
            leaves(*c0).add(leaves(*c1)).add(leaves(*c2)).add(leaves(*c3)),
    }
}

/// One depth-cap merge: the incoming mass `m` was absorbed into a
/// resident leaf `(q, m0)` of `fine`, giving `coarse`.
pub open spec fn cap_merged(
    fine: Multiset<(V2, i64)>, coarse: Multiset<(V2, i64)>, m: int,
) -> bool {
    exists|q: V2, m0: i64|
        #![trigger fine.count((q, m0))]
        fine.count((q, m0)) > 0
            && coarse == fine.remove((q, m0)).insert((q, (m0 + m) as i64))
}


/// `coarse` arises from `fine` by at most `steps` pairwise merges, each
/// folding one element's mass into another element (which keeps its
/// position) -- the closure of the depth-cap merge policy.
pub open spec fn coarsens_in(
    fine: Multiset<(V2, i64)>, coarse: Multiset<(V2, i64)>, steps: nat,
) -> bool
    decreases steps,
{
    if steps == 0 {
        fine == coarse
    } else {
        coarsens_in(fine, coarse, (steps - 1) as nat)
            || exists|q: V2, m0: i64, p: V2, m1: i64|
                #![trigger fine.remove((q, m0)).count((p, m1))]
                fine.count((q, m0)) > 0
                    && fine.remove((q, m0)).count((p, m1)) > 0
                    && coarsens_in(fine.remove((q, m0)).remove((p, m1)).insert(
                        (q, (m0 + m1) as i64)), coarse, (steps - 1) as nat)
    }
}

/// `coarse` arises from `fine` by finitely many pairwise mass merges.
pub open spec fn coarsens(fine: Multiset<(V2, i64)>, coarse: Multiset<(V2, i64)>) -> bool {
    exists|k: nat| #[trigger] coarsens_in(fine, coarse, k)
}

/// Coarsening is preserved by adding the same element on both sides.
pub proof fn lemma_coarsens_insert(
    a: Multiset<(V2, i64)>, b: Multiset<(V2, i64)>, k: nat, e: (V2, i64),
)
    requires
        coarsens_in(a, b, k),
    ensures
        coarsens_in(a.insert(e), b.insert(e), k),
    decreases k,
{
    broadcast use vstd::multiset::group_multiset_axioms;

    if k == 0 {
    } else if coarsens_in(a, b, (k - 1) as nat) {
        lemma_coarsens_insert(a, b, (k - 1) as nat, e);
    } else {
        let (q, m0, p, m1): (V2, i64, V2, i64) = choose|q: V2, m0: i64, p: V2, m1: i64|
            #![trigger a.remove((q, m0)).count((p, m1))]
            a.count((q, m0)) > 0 && a.remove((q, m0)).count((p, m1)) > 0
                && coarsens_in(a.remove((q, m0)).remove((p, m1)).insert(
                    (q, (m0 + m1) as i64)), b, (k - 1) as nat);
        let mid = a.remove((q, m0)).remove((p, m1)).insert((q, (m0 + m1) as i64));
        lemma_coarsens_insert(mid, b, (k - 1) as nat, e);
        assert(a.insert(e).count((q, m0)) > 0);
        assert(a.insert(e).remove((q, m0)).count((p, m1)) > 0);
        assert_multisets_equal!(
            a.insert(e).remove((q, m0)).remove((p, m1)).insert((q, (m0 + m1) as i64)),
            mid.insert(e));
    }
}

/// Coarsening absorbs one more merge applied at the coarse end.
pub proof fn lemma_coarsens_step(
    a: Multiset<(V2, i64)>, b: Multiset<(V2, i64)>, k: nat, q: V2, m0: i64, p: V2,
    m1: i64,
)
    requires
        coarsens_in(a, b, k),
        b.count((q, m0)) > 0,
        b.remove((q, m0)).count((p, m1)) > 0,
    ensures
        coarsens_in(a, b.remove((q, m0)).remove((p, m1)).insert((q, (m0 + m1) as i64)),
            k + 1),
    decreases k,
{
    broadcast use vstd::multiset::group_multiset_axioms;

    let b2 = b.remove((q, m0)).remove((p, m1)).insert((q, (m0 + m1) as i64));
    if k == 0 {
        assert(a.count((q, m0)) > 0);
        assert(a.remove((q, m0)).count((p, m1)) > 0);
        assert(coarsens_in(a.remove((q, m0)).remove((p, m1)).insert(
            (q, (m0 + m1) as i64)), b2, 0));
    } else if coarsens_in(a, b, (k - 1) as nat) {
        lemma_coarsens_step(a, b, (k - 1) as nat, q, m0, p, m1);
    } else {
        let (q2, m02, p2, m12): (V2, i64, V2, i64) = choose|q2: V2, m02: i64, p2: V2,
            m12: i64|
            #![trigger a.remove((q2, m02)).count((p2, m12))]
            a.count((q2, m02)) > 0 && a.remove((q2, m02)).count((p2, m12)) > 0
                && coarsens_in(a.remove((q2, m02)).remove((p2, m12)).insert(
                    (q2, (m02 + m12) as i64)), b, (k - 1) as nat);
        let mid = a.remove((q2, m02)).remove((p2, m12)).insert((q2, (m02 + m12) as i64));
        lemma_coarsens_step(mid, b, (k - 1) as nat, q, m0, p, m1);
        assert(coarsens_in(mid, b2, k));
    }
}

/// Structural well-formedness at a given depth: quads are well formed and
/// nested by `child_index` slot, leaves hold a positive mass inside their
/// bounds, and Internal nodes only exist above the depth cap.
pub open spec fn wf_node(n: Node, depth: nat) -> bool
    decreases n,
{
    match n {
        Node::Empty { quad } => wf_quad(quad, depth),
        Node::Leaf { quad, pos, mass } => {
            &&& wf_quad(quad, depth)
            &&& quad_contains(quad, pos.x as int, pos.y as int)
            &&& mass > 0
        },
        Node::Internal { quad, mass, com, c0, c1, c2, c3 } => {
            &&& wf_quad(quad, depth)
            &&& depth < MAX_DEPTH
            &&& wf_node(*c0, depth + 1) && is_child_quad(quad, 0, node_quad(*c0))
            &&& wf_node(*c1, depth + 1) && is_child_quad(quad, 1, node_quad(*c1))
            &&& wf_node(*c2, depth + 1) && is_child_quad(quad, 2, node_quad(*c2))
            &&& wf_node(*c3, depth + 1) && is_child_quad(quad, 3, node_quad(*c3))
        },
    }
}

/// Leaf masses are positive, so subtree masses are nonnegative.
pub proof fn lemma_mass_sum_nonneg(n: Node, depth: nat)
    requires
        wf_node(n, depth),
    ensures
        mass_sum(n) >= 0,
    decreases n,
{
    match n {
        Node::Empty { .. } => {},
        Node::Leaf { .. } => {},
        Node::Internal { c0, c1, c2, c3, .. } => {
            lemma_mass_sum_nonneg(*c0, depth + 1);
            lemma_mass_sum_nonneg(*c1, depth + 1);
            lemma_mass_sum_nonneg(*c2, depth + 1);
            lemma_mass_sum_nonneg(*c3, depth + 1);
        },
    }
}


/// A cap merge needs a resident leaf, so it cannot happen in an empty bag.
proof fn lemma_cap_merged_nonempty(
    fine: Multiset<(V2, i64)>, coarse: Multiset<(V2, i64)>, m: int,
)
    requires
        cap_merged(fine, coarse, m),
    ensures
        fine.len() > 0,
{
    broadcast use vstd::multiset::group_multiset_axioms;

    let (q, mq): (V2, i64) = choose|q: V2, mq: i64|
        #![trigger fine.count((q, mq))]
        fine.count((q, mq)) > 0
            && coarse == fine.remove((q, mq)).insert((q, (mq + m) as i64));
    assert(fine.count((q, mq)) <= fine.len());
}

/// Lift the one-insert bag law from a changed part to the whole bag.
proof fn lemma_bag_lift(
    rest: Multiset<(V2, i64)>, dsel: Multiset<(V2, i64)>, e: Multiset<(V2, i64)>,
    p: V2, m: i64, whole: Multiset<(V2, i64)>, wnew: Multiset<(V2, i64)>,
)
    requires
        whole == rest.add(dsel),
        wnew == rest.add(e),
        e == dsel.insert((p, m)) || cap_merged(dsel, e, m as int),
    ensures
        wnew == whole.insert((p, m)) || cap_merged(whole, wnew, m as int),
{
    broadcast use vstd::multiset::group_multiset_axioms;

    if e == dsel.insert((p, m)) {
        assert_multisets_equal!(wnew, whole.insert((p, m)));
    } else {
        let (q, mq): (V2, i64) = choose|q: V2, mq: i64|
            #![trigger dsel.count((q, mq))]
            dsel.count((q, mq)) > 0
                && e == dsel.remove((q, mq)).insert((q, (mq + m as int) as i64));
        assert(whole.count((q, mq)) > 0);
        assert_multisets_equal!(wnew,
            whole.remove((q, mq)).insert((q, (mq + m as int) as i64)));
        assert(cap_merged(whole, wnew, m as int));
    }
}

/// The slot a point routes to (executable twin of `child_index_spec`).
fn child_index_exec(q: &Quad, p: V2) -> (r: usize)
    ensures
        r == child_index_spec(*q, p.x as int, p.y as int),
        r < 4,
{
    let right: usize = if p.x > q.center.x { 1 } else { 0 };
    let top: usize = if p.y > q.center.y { 1 } else { 0 };
    top * 2 + right
}

/// Insert one body into a subtree rooted at depth `depth`. Points outside
/// the node's bounds are dropped; at the depth cap a leaf absorbs further
/// coincident points by summing masses.
fn insert_node(node: Box<Node>, p: V2, m: i64, depth: usize) -> (r: Box<Node>)
    requires
        wf_node(*node, depth as nat),
        depth <= MAX_DEPTH,
        0 < m,
        mass_sum(*node) + m <= MASS_LIMIT,
    ensures
        wf_node(*r, depth as nat),
        node_quad(*r) == node_quad(*node),
        quad_contains(node_quad(*node), p.x as int, p.y as int)
            ==> mass_sum(*r) == mass_sum(*node) + m,
        !quad_contains(node_quad(*node), p.x as int, p.y as int)
            ==> *r == *node,
        (*node is Empty) && quad_contains(node_quad(*node), p.x as int, p.y as int)
            ==> *r == (Node::Leaf { quad: node_quad(*node), pos: p, mass: m }),
        quad_contains(node_quad(*node), p.x as int, p.y as int)
            ==> leaves(*r) == leaves(*node).insert((p, m))
                || cap_merged(leaves(*node), leaves(*r), m as int),
    decreases MAX_DEPTH - depth,
{
    broadcast use vstd::multiset::group_multiset_axioms;

    let n: Node = *node;
    match n {
        Node::Empty { quad } => {
            if quad.contains(p) {
                let leaf = Box::new(Node::Leaf { quad, pos: p, mass: m });
                proof {
                    assert_multisets_equal!(leaves(*leaf), leaves(*node).insert((p, m)));
                }
                leaf
            } else {
                Box::new(Node::Empty { quad })
            }
        },
        Node::Leaf { quad, pos, mass } => {
            if !quad.contains(p) {
                Box::new(Node::Leaf { quad, pos, mass })
            } else if depth == MAX_DEPTH {
                // Depth cap: merge the (numerically coincident) bodies
                // into one leaf instead of subdividing without bound.
                let merged = Box::new(Node::Leaf { quad, pos, mass: mass + m });
                proof {
                    let f = leaves(*node);
                    assert(f.count((pos, mass)) > 0);
                    assert_multisets_equal!(leaves(*merged),
                        f.remove((pos, mass)).insert((pos, (mass as int + m) as i64)));
                    assert(cap_merged(f, leaves(*merged), m as int));
                }
                merged
            } else {
                let quads = quad.subdivide();
                let mut c0 = Box::new(Node::Empty { quad: quads[2] });
                let mut c1 = Box::new(Node::Empty { quad: quads[3] });
                let mut c2 = Box::new(Node::Empty { quad: quads[0] });
                let mut c3 = Box::new(Node::Empty { quad: quads[1] });
                proof {
                    lemma_child_quad_wf(quad, 0, node_quad(*c0), depth as nat);
                    lemma_child_quad_wf(quad, 1, node_quad(*c1), depth as nat);
                    lemma_child_quad_wf(quad, 2, node_quad(*c2), depth as nat);
                    lemma_child_quad_wf(quad, 3, node_quad(*c3), depth as nat);
                    lemma_route_contains(quad, pos.x as int, pos.y as int,
                        node_quad(if child_index_spec(quad, pos.x as int, pos.y as int) == 0 { *c0 }
                            else if child_index_spec(quad, pos.x as int, pos.y as int) == 1 { *c1 }
                            else if child_index_spec(quad, pos.x as int, pos.y as int) == 2 { *c2 }
                            else { *c3 }));
                    lemma_route_contains(quad, p.x as int, p.y as int,
                        node_quad(if child_index_spec(quad, p.x as int, p.y as int) == 0 { *c0 }
                            else if child_index_spec(quad, p.x as int, p.y as int) == 1 { *c1 }
                            else if child_index_spec(quad, p.x as int, p.y as int) == 2 { *c2 }
                            else { *c3 }));
                }
                let slot_old = child_index_exec(&quad, pos);
                if slot_old == 0 {
                    c0 = insert_node(c0, pos, mass, depth + 1);
                } else if slot_old == 1 {
                    c1 = insert_node(c1, pos, mass, depth + 1);
                } else if slot_old == 2 {
                    c2 = insert_node(c2, pos, mass, depth + 1);
                } else {
                    c3 = insert_node(c3, pos, mass, depth + 1);
                }
                let ghost d0 = leaves(*c0);
                let ghost d1 = leaves(*c1);
                let ghost d2 = leaves(*c2);
                let ghost d3 = leaves(*c3);
                proof {
                    // After reinserting the resident body the four fresh
                    // children hold exactly its mass (and exactly its leaf).
                    assert(wf_node(*c0, depth as nat + 1));
                    assert(wf_node(*c1, depth as nat + 1));
                    assert(wf_node(*c2, depth as nat + 1));
                    assert(wf_node(*c3, depth as nat + 1));
                    assert(mass_sum(*c0) + mass_sum(*c1) + mass_sum(*c2) + mass_sum(*c3)
                        == mass);
                    if cap_merged(Multiset::<(V2, i64)>::empty(),
                        leaves(if slot_old == 0 { *c0 } else if slot_old == 1 { *c1 }
                            else if slot_old == 2 { *c2 } else { *c3 }), mass as int) {
                        lemma_cap_merged_nonempty(Multiset::<(V2, i64)>::empty(),
                            leaves(if slot_old == 0 { *c0 } else if slot_old == 1 { *c1 }
                                else if slot_old == 2 { *c2 } else { *c3 }), mass as int);
                        broadcast use vstd::multiset::group_multiset_axioms;

                        assert(false);
                    }
                    assert_multisets_equal!(d0.add(d1).add(d2).add(d3), leaves(*node));
                }
                let slot_new = child_index_exec(&quad, p);
                if slot_new == 0 {
                    c0 = insert_node(c0, p, m, depth + 1);
                } else if slot_new == 1 {
                    c1 = insert_node(c1, p, m, depth + 1);
                } else if slot_new == 2 {
                    c2 = insert_node(c2, p, m, depth + 1);
                } else {
                    c3 = insert_node(c3, p, m, depth + 1);
                }
                let result = Box::new(Node::Internal {
                    quad,
                    mass: 0,
                    com: V2 { x: 0, y: 0 },
                    c0,
                    c1,
                    c2,
                    c3,
                });
                proof {
                    broadcast use vstd::multiset::group_multiset_axioms;

                    let whole = d0.add(d1).add(d2).add(d3);
                    if slot_new == 0 {
                        let rest = d1.add(d2).add(d3);
                        assert_multisets_equal!(whole, rest.add(d0));
                        assert_multisets_equal!(leaves(*result), rest.add(leaves(*c0)));
                        lemma_bag_lift(rest, d0, leaves(*c0), p, m, whole,
                            leaves(*result));
                    } else if slot_new == 1 {
                        let rest = d0.add(d2).add(d3);
                        assert_multisets_equal!(whole, rest.add(d1));
                        assert_multisets_equal!(leaves(*result), rest.add(leaves(*c1)));
                        lemma_bag_lift(rest, d1, leaves(*c1), p, m, whole,
                            leaves(*result));
                    } else if slot_new == 2 {
                        let rest = d0.add(d1).add(d3);
                        assert_multisets_equal!(whole, rest.add(d2));
                        assert_multisets_equal!(leaves(*result), rest.add(leaves(*c2)));
                        lemma_bag_lift(rest, d2, leaves(*c2), p, m, whole,
                            leaves(*result));
                    } else {
                        let rest = d0.add(d1).add(d2);
                        assert_multisets_equal!(whole, rest.add(d3));
                        assert_multisets_equal!(leaves(*result), rest.add(leaves(*c3)));
                        lemma_bag_lift(rest, d3, leaves(*c3), p, m, whole,
                            leaves(*result));
                    }
                }
                result
            }
        },
        Node::Internal { quad, mass, com, mut c0, mut c1, mut c2, mut c3 } => {
            proof {
                lemma_child_quad_wf(quad, 0, node_quad(*c0), depth as nat);
                lemma_mass_sum_nonneg(*c0, depth as nat + 1);
                lemma_mass_sum_nonneg(*c1, depth as nat + 1);
                lemma_mass_sum_nonneg(*c2, depth as nat + 1);
                lemma_mass_sum_nonneg(*c3, depth as nat + 1);
                if quad_contains(quad, p.x as int, p.y as int) {
                    lemma_route_contains(quad, p.x as int, p.y as int,
                        node_quad(if child_index_spec(quad, p.x as int, p.y as int) == 0 { *c0 }
                            else if child_index_spec(quad, p.x as int, p.y as int) == 1 { *c1 }
                            else if child_index_spec(quad, p.x as int, p.y as int) == 2 { *c2 }
                            else { *c3 }));
                } else {
                    lemma_child_within(quad, 0, node_quad(*c0), p.x as int, p.y as int);
                    lemma_child_within(quad, 1, node_quad(*c1), p.x as int, p.y as int);
                    lemma_child_within(quad, 2, node_quad(*c2), p.x as int, p.y as int);
                    lemma_child_within(quad, 3, node_quad(*c3), p.x as int, p.y as int);
                }
            }
            let ghost d0 = leaves(*c0);
            let ghost d1 = leaves(*c1);
            let ghost d2 = leaves(*c2);
            let ghost d3 = leaves(*c3);
            let slot = child_index_exec(&quad, p);
            if slot == 0 {
                c0 = insert_node(c0, p, m, depth + 1);
            } else if slot == 1 {
                c1 = insert_node(c1, p, m, depth + 1);
            } else if slot == 2 {
                c2 = insert_node(c2, p, m, depth + 1);
            } else {
                c3 = insert_node(c3, p, m, depth + 1);
            }
            let result = Box::new(Node::Internal { quad, mass, com, c0, c1, c2, c3 });
            proof {
                broadcast use vstd::multiset::group_multiset_axioms;

                if quad_contains(quad, p.x as int, p.y as int) {
                    let whole = d0.add(d1).add(d2).add(d3);
                    assert(whole == leaves(*node));
                    if slot == 0 {
                        let rest = d1.add(d2).add(d3);
                        assert_multisets_equal!(whole, rest.add(d0));
                        assert_multisets_equal!(leaves(*result), rest.add(leaves(*c0)));
                        lemma_bag_lift(rest, d0, leaves(*c0), p, m, whole,
                            leaves(*result));
                    } else if slot == 1 {
                        let rest = d0.add(d2).add(d3);
                        assert_multisets_equal!(whole, rest.add(d1));
                        assert_multisets_equal!(leaves(*result), rest.add(leaves(*c1)));
                        lemma_bag_lift(rest, d1, leaves(*c1), p, m, whole,
                            leaves(*result));
                    } else if slot == 2 {
                        let rest = d0.add(d1).add(d3);
                        assert_multisets_equal!(whole, rest.add(d2));
                        assert_multisets_equal!(leaves(*result), rest.add(leaves(*c2)));
                        lemma_bag_lift(rest, d2, leaves(*c2), p, m, whole,
                            leaves(*result));
                    } else {
                        let rest = d0.add(d1).add(d2);
                        assert_multisets_equal!(whole, rest.add(d3));
                        assert_multisets_equal!(leaves(*result), rest.add(leaves(*c3)));
                        lemma_bag_lift(rest, d3, leaves(*c3), p, m, whole,
                            leaves(*result));
                    }
                }
            }
            result
        },
    }
}


/// Cached aggregate mass at the top of a node (leaf mass for a Leaf,
/// the cached field for an Internal).
pub open spec fn cached_mass(n: Node) -> int {
    match n {
        Node::Empty { .. } => 0,
        Node::Leaf { mass, .. } => mass as int,
        Node::Internal { mass, .. } => mass as int,
    }
}

/// The x center of mass a bottom-up pass computes: a leaf's position; for
/// an Internal node the mass-weighted average of the children's centers,
/// truncated once per level, and zero by convention for a massless subtree.
pub open spec fn node_com_x(n: Node) -> int
    decreases n,
{
    match n {
        Node::Empty { .. } => 0,
        Node::Leaf { pos, .. } => pos.x as int,
        Node::Internal { c0, c1, c2, c3, .. } => {
            if mass_sum(n) == 0 {
                0
            } else {
                tdiv(
                    mass_sum(*c0) * node_com_x(*c0) + mass_sum(*c1) * node_com_x(*c1)
                        + mass_sum(*c2) * node_com_x(*c2) + mass_sum(*c3) * node_com_x(*c3),
                    mass_sum(n),
                )
            }
        },
    }
}

/// The y center of mass (see `node_com_x`).
pub open spec fn node_com_y(n: Node) -> int
    decreases n,
{
    match n {
        Node::Empty { .. } => 0,
        Node::Leaf { pos, .. } => pos.y as int,
        Node::Internal { c0, c1, c2, c3, .. } => {
            if mass_sum(n) == 0 {
                0
            } else {
                tdiv(
                    mass_sum(*c0) * node_com_y(*c0) + mass_sum(*c1) * node_com_y(*c1)
                        + mass_sum(*c2) * node_com_y(*c2) + mass_sum(*c3) * node_com_y(*c3),
                    mass_sum(n),
                )
            }
        },
    }
}

/// Every cached aggregate in the subtree is correct: each Internal node
/// stores its subtree's mass sum and truncated center of mass.
pub open spec fn aggregates_ok(n: Node) -> bool
    decreases n,
{
    match n {
        Node::Empty { .. } => true,
        Node::Leaf { .. } => true,
        Node::Internal { mass, com, c0, c1, c2, c3, .. } => {
            &&& mass == mass_sum(n)
            &&& com.x == node_com_x(n)
            &&& com.y == node_com_y(n)
            &&& aggregates_ok(*c0)
            &&& aggregates_ok(*c1)
            &&& aggregates_ok(*c2)
            &&& aggregates_ok(*c3)
        },
    }
}

/// Centers of mass stay inside the tree's span.
pub proof fn lemma_com_in_span(n: Node, depth: nat)
    requires
        wf_node(n, depth),
    ensures
        -TREE_SPAN <= node_com_x(n) <= TREE_SPAN,
        -TREE_SPAN <= node_com_y(n) <= TREE_SPAN,
    decreases n,
{
    match n {
        Node::Empty { .. } => {},
        Node::Leaf { .. } => {},
        Node::Internal { c0, c1, c2, c3, .. } => {
            lemma_com_in_span(*c0, depth + 1);
            lemma_com_in_span(*c1, depth + 1);
            lemma_com_in_span(*c2, depth + 1);
            lemma_com_in_span(*c3, depth + 1);
            lemma_mass_sum_nonneg(*c0, depth + 1);
            lemma_mass_sum_nonneg(*c1, depth + 1);
            lemma_mass_sum_nonneg(*c2, depth + 1);
            lemma_mass_sum_nonneg(*c3, depth + 1);
            if mass_sum(n) != 0 {
                lemma_weighted_terms(mass_sum(*c0), node_com_x(*c0));
                lemma_weighted_terms(mass_sum(*c1), node_com_x(*c1));
                lemma_weighted_terms(mass_sum(*c2), node_com_x(*c2));
                lemma_weighted_terms(mass_sum(*c3), node_com_x(*c3));
                lemma_weighted_terms(mass_sum(*c0), node_com_y(*c0));
                lemma_weighted_terms(mass_sum(*c1), node_com_y(*c1));
                lemma_weighted_terms(mass_sum(*c2), node_com_y(*c2));
                lemma_weighted_terms(mass_sum(*c3), node_com_y(*c3));
                crate::fx::lemma_tdiv_bound(
                    mass_sum(*c0) * node_com_x(*c0) + mass_sum(*c1) * node_com_x(*c1)
                        + mass_sum(*c2) * node_com_x(*c2) + mass_sum(*c3) * node_com_x(*c3),
                    mass_sum(n),
                    TREE_SPAN as int,
                );
                crate::fx::lemma_tdiv_bound(
                    mass_sum(*c0) * node_com_y(*c0) + mass_sum(*c1) * node_com_y(*c1)
                        + mass_sum(*c2) * node_com_y(*c2) + mass_sum(*c3) * node_com_y(*c3),
                    mass_sum(n),
                    TREE_SPAN as int,
                );
            }
        },
    }
}

/// A mass-weighted coordinate respects the span `m`-fold.
pub proof fn lemma_weighted_terms(m: int, x: int)
    requires
        m >= 0,
        -TREE_SPAN <= x <= TREE_SPAN,
    ensures
        -(m * TREE_SPAN) <= m * x <= m * TREE_SPAN,
{
    assert(-(m * TREE_SPAN) <= m * x <= m * TREE_SPAN) by (nonlinear_arith)
        requires m >= 0, -TREE_SPAN <= x <= TREE_SPAN;
}

/// Post-order pass computing each Internal node's aggregate mass and
/// center of mass; returns the rebuilt node with its subtree mass and com.
fn build_node(node: Box<Node>, depth: usize) -> (r: (Box<Node>, i64, V2))
    requires
        wf_node(*node, depth as nat),
        mass_sum(*node) <= MASS_LIMIT,
    ensures
        wf_node(*r.0, depth as nat),
        node_quad(*r.0) == node_quad(*node),
        aggregates_ok(*r.0),
        mass_sum(*r.0) == mass_sum(*node),
        r.1 == mass_sum(*node),
        r.2.x == node_com_x(*r.0),
        r.2.y == node_com_y(*r.0),
        node_com_x(*r.0) == node_com_x(*node),
        node_com_y(*r.0) == node_com_y(*node),
        leaves(*r.0) == leaves(*node),
        aggregates_ok(*node) ==> *r.0 == *node,
    decreases *node,
{
    proof {
        lemma_mass_sum_nonneg(*node, depth as nat);
        lemma_com_in_span(*node, depth as nat);
    }
    let n: Node = *node;
    match n {
        Node::Empty { quad } => {
            (Box::new(Node::Empty { quad }), 0, V2 { x: 0, y: 0 })
        },
        Node::Leaf { quad, pos, mass } => {
            (Box::new(Node::Leaf { quad, pos, mass }), mass, pos)
        },
        Node::Internal { quad, mass: _, com: _, c0, c1, c2, c3 } => {
            proof {
                lemma_mass_sum_nonneg(*c0, depth as nat + 1);
                lemma_mass_sum_nonneg(*c1, depth as nat + 1);
                lemma_mass_sum_nonneg(*c2, depth as nat + 1);
                lemma_mass_sum_nonneg(*c3, depth as nat + 1);
            }
            let (b0, m0, p0) = build_node(c0, depth + 1);
            let (b1, m1, p1) = build_node(c1, depth + 1);
            let (b2, m2, p2) = build_node(c2, depth + 1);
            let (b3, m3, p3) = build_node(c3, depth + 1);
            let total: i64 = m0 + m1 + m2 + m3;
            proof {
                lemma_com_in_span(*b0, depth as nat + 1);
                lemma_com_in_span(*b1, depth as nat + 1);
                lemma_com_in_span(*b2, depth as nat + 1);
                lemma_com_in_span(*b3, depth as nat + 1);
                lemma_weighted_terms(m0 as int, p0.x as int);
                lemma_weighted_terms(m1 as int, p1.x as int);
                lemma_weighted_terms(m2 as int, p2.x as int);
                lemma_weighted_terms(m3 as int, p3.x as int);
                lemma_weighted_terms(m0 as int, p0.y as int);
                lemma_weighted_terms(m1 as int, p1.y as int);
                lemma_weighted_terms(m2 as int, p2.y as int);
                lemma_weighted_terms(m3 as int, p3.y as int);
            }
            let com: V2 = if total > 0 {
                let wx: i128 = m0 as i128 * p0.x as i128 + m1 as i128 * p1.x as i128
                    + m2 as i128 * p2.x as i128 + m3 as i128 * p3.x as i128;
                let wy: i128 = m0 as i128 * p0.y as i128 + m1 as i128 * p1.y as i128
                    + m2 as i128 * p2.y as i128 + m3 as i128 * p3.y as i128;
                proof {
                    crate::fx::lemma_tdiv_bound(wx as int, total as int, TREE_SPAN as int);
                    crate::fx::lemma_tdiv_bound(wy as int, total as int, TREE_SPAN as int);
                }
                let cx: i64 = crate::fx::div_wide(wx, total as i128);
                let cy: i64 = crate::fx::div_wide(wy, total as i128);
                V2 { x: cx, y: cy }
            } else {
                V2 { x: 0, y: 0 }
            };
            let result = Box::new(Node::Internal {
                quad,
                mass: total,
                com,
                c0: b0,
                c1: b1,
                c2: b2,
                c3: b3,
            });
            proof {
                assert(mass_sum(*result) == mass_sum(*node));
                assert(aggregates_ok(*result));
            }
            (result, total, com)
        },
    }
}


/// Cap on the gravitational constant (1024 in fixed point, 2^26 raw).
pub const G_LIMIT: i64 = 67108864;

/// Cap on the opening angle theta (16 in fixed point, 2^20 raw).
pub const THETA_LIMIT: i64 = 1048576;

/// Softened pairwise gravitational acceleration, x component, exerted on
/// `(px, py)` by mass `m` at `(qx, qy)` (all fixed point):
/// `g * m * rx * SCALE / (d2 * sqrt(d2))` with `rx = qx - px` and
/// `d2 = rx^2 + ry^2 + soft2`, and zero when `d2` is zero. This is the
/// Plummer-softened inverse-square law; `d2 * sqrt(d2)` is `d2^(3/2)`
/// rounded down to the integer-sqrt grid.
pub open spec fn pair_acc_x(px: int, py: int, qx: int, qy: int, m: int, g: int, soft2: int) -> int {
    let rx = qx - px;
    let ry = qy - py;
    let d2 = rx * rx + ry * ry + soft2;
    if d2 == 0 {
        0
    } else {
        tdiv(g * m * rx * SCALE, d2 * sqrt_floor(d2))
    }
}

/// The y component (see `pair_acc_x`).
pub open spec fn pair_acc_y(px: int, py: int, qx: int, qy: int, m: int, g: int, soft2: int) -> int {
    let rx = qx - px;
    let ry = qy - py;
    let d2 = rx * rx + ry * ry + soft2;
    if d2 == 0 {
        0
    } else {
        tdiv(g * m * ry * SCALE, d2 * sqrt_floor(d2))
    }
}

/// The Barnes-Hut opening test: the subtree whose bounds have side `s` may
/// stand in as one point mass seen from squared distance `d2r` when
/// `(s/d)^2 < theta^2`, written cross-multiplied so it is exact in integers.
pub open spec fn opens_as_point(s: int, d2r: int, theta: int) -> bool {
    d2r != 0 && s * s * SCALE * SCALE < theta * theta * d2r
}

/// The acceleration the Barnes-Hut walk computes, x component. An Internal
/// node is approximated by its cached aggregate when the opening test
/// passes; otherwise (including the degenerate zero-distance case) the walk
/// descends into all four children. A massless subtree contributes nothing.
pub open spec fn bh_acc_x(n: Node, px: int, py: int, g: int, theta: int, soft2: int) -> int
    decreases n,
{
    match n {
        Node::Empty { .. } => 0,
        Node::Leaf { pos, mass, .. } =>
            pair_acc_x(px, py, pos.x as int, pos.y as int, mass as int, g, soft2),
        Node::Internal { quad, mass, com, c0, c1, c2, c3 } => {
            if mass == 0 {
                0
            } else {
                let rx = com.x - px;
                let ry = com.y - py;
                let d2r = rx * rx + ry * ry;
                if opens_as_point(2 * quad.half_size, d2r, theta) {
                    pair_acc_x(px, py, com.x as int, com.y as int, mass as int, g, soft2)
                } else {
                    bh_acc_x(*c0, px, py, g, theta, soft2)
                        + bh_acc_x(*c1, px, py, g, theta, soft2)
                        + bh_acc_x(*c2, px, py, g, theta, soft2)
                        + bh_acc_x(*c3, px, py, g, theta, soft2)
                }
            }
        },
    }
}

/// The y component (see `bh_acc_x`).
pub open spec fn bh_acc_y(n: Node, px: int, py: int, g: int, theta: int, soft2: int) -> int
    decreases n,
{
    match n {
        Node::Empty { .. } => 0,
        Node::Leaf { pos, mass, .. } =>
            pair_acc_y(px, py, pos.x as int, pos.y as int, mass as int, g, soft2),
        Node::Internal { quad, mass, com, c0, c1, c2, c3 } => {
            if mass == 0 {
                0
            } else {
                let rx = com.x - px;
                let ry = com.y - py;
                let d2r = rx * rx + ry * ry;
                if opens_as_point(2 * quad.half_size, d2r, theta) {
                    pair_acc_y(px, py, com.x as int, com.y as int, mass as int, g, soft2)
                } else {
                    bh_acc_y(*c0, px, py, g, theta, soft2)
                        + bh_acc_y(*c1, px, py, g, theta, soft2)
                        + bh_acc_y(*c2, px, py, g, theta, soft2)
                        + bh_acc_y(*c3, px, py, g, theta, soft2)
                }
            }
        },
    }
}

/// The brute-force direct sum, x component: pairwise softened gravity from
/// every leaf, no approximation at any node.
pub open spec fn direct_acc_x(n: Node, px: int, py: int, g: int, soft2: int) -> int
    decreases n,
{
    match n {
        Node::Empty { .. } => 0,
        Node::Leaf { pos, mass, .. } =>
            pair_acc_x(px, py, pos.x as int, pos.y as int, mass as int, g, soft2),
        Node::Internal { c0, c1, c2, c3, .. } => {
            direct_acc_x(*c0, px, py, g, soft2) + direct_acc_x(*c1, px, py, g, soft2)
                + direct_acc_x(*c2, px, py, g, soft2) + direct_acc_x(*c3, px, py, g, soft2)
        },
    }
}

/// The y component (see `direct_acc_x`).
pub open spec fn direct_acc_y(n: Node, px: int, py: int, g: int, soft2: int) -> int
    decreases n,
{
    match n {
        Node::Empty { .. } => 0,
        Node::Leaf { pos, mass, .. } =>
            pair_acc_y(px, py, pos.x as int, pos.y as int, mass as int, g, soft2),
        Node::Internal { c0, c1, c2, c3, .. } => {
            direct_acc_y(*c0, px, py, g, soft2) + direct_acc_y(*c1, px, py, g, soft2)
                + direct_acc_y(*c2, px, py, g, soft2) + direct_acc_y(*c3, px, py, g, soft2)
        },
    }
}

/// One pair contribution is bounded by `g * m * SCALE` in magnitude.
pub proof fn lemma_pair_acc_bound(px: int, py: int, qx: int, qy: int, m: int, g: int, soft2: int)
    requires
        m >= 0,
        g >= 0,
        soft2 >= 0,
    ensures
        -(g * m * SCALE) <= pair_acc_x(px, py, qx, qy, m, g, soft2) <= g * m * SCALE,
        -(g * m * SCALE) <= pair_acc_y(px, py, qx, qy, m, g, soft2) <= g * m * SCALE,
{
    let rx = qx - px;
    let ry = qy - py;
    let d2 = rx * rx + ry * ry + soft2;
    assert(rx * rx >= 0 && ry * ry >= 0) by (nonlinear_arith);
    if d2 != 0 {
        let d = sqrt_floor(d2);
        crate::fx::lemma_sqrt_ge(d2, 1);
        crate::fx::lemma_sqrt_exists(d2 as nat);
        assert(d * d <= d2 && 0 <= d);
        assert((if rx >= 0 { rx } else { -rx }) * (if rx >= 0 { rx } else { -rx }) <= d2)
            by (nonlinear_arith)
            requires rx * rx + ry * ry + soft2 == d2, ry * ry >= 0, soft2 >= 0;
        assert((if ry >= 0 { ry } else { -ry }) * (if ry >= 0 { ry } else { -ry }) <= d2)
            by (nonlinear_arith)
            requires rx * rx + ry * ry + soft2 == d2, rx * rx >= 0, soft2 >= 0;
        crate::fx::lemma_sqrt_ge(d2, if rx >= 0 { rx } else { -rx });
        crate::fx::lemma_sqrt_ge(d2, if ry >= 0 { ry } else { -ry });
        assert(-(d2 * d * (g * m * SCALE)) <= g * m * rx * SCALE <= d2 * d * (g * m * SCALE))
            by (nonlinear_arith)
            requires
                -d <= rx <= d,
                d >= 1,
                d * d <= d2,
                g >= 0,
                m >= 0;
        assert(-(d2 * d * (g * m * SCALE)) <= g * m * ry * SCALE <= d2 * d * (g * m * SCALE))
            by (nonlinear_arith)
            requires
                -d <= ry <= d,
                d >= 1,
                d * d <= d2,
                g >= 0,
                m >= 0;
        assert(d2 * d >= 1) by (nonlinear_arith)
            requires d2 >= 1, d >= 1;
        assert(g * m * SCALE >= 0) by (nonlinear_arith)
            requires g >= 0, m >= 0;
        crate::fx::lemma_tdiv_bound(g * m * rx * SCALE, d2 * d, g * m * SCALE);
        crate::fx::lemma_tdiv_bound(g * m * ry * SCALE, d2 * d, g * m * SCALE);
    } else {
        assert(g * m * SCALE >= 0) by (nonlinear_arith)
            requires g >= 0, m >= 0;
    }
}

/// The walk's result is bounded by `g * SCALE` times the subtree mass.
pub proof fn lemma_bh_acc_bound(
    n: Node, px: int, py: int, g: int, theta: int, soft2: int, depth: nat,
)
    requires
        wf_node(n, depth),
        aggregates_ok(n),
        g >= 0,
        soft2 >= 0,
    ensures
        -(g * mass_sum(n) * SCALE) <= bh_acc_x(n, px, py, g, theta, soft2)
            <= g * mass_sum(n) * SCALE,
        -(g * mass_sum(n) * SCALE) <= bh_acc_y(n, px, py, g, theta, soft2)
            <= g * mass_sum(n) * SCALE,
    decreases n,
{
    lemma_mass_sum_nonneg(n, depth);
    match n {
        Node::Empty { .. } => {
            assert(g * 0 * SCALE == 0) by (nonlinear_arith);
        },
        Node::Leaf { pos, mass, .. } => {
            lemma_pair_acc_bound(px, py, pos.x as int, pos.y as int, mass as int, g, soft2);
        },
        Node::Internal { quad, mass, com, c0, c1, c2, c3 } => {
            lemma_bh_acc_bound(*c0, px, py, g, theta, soft2, depth + 1);
            lemma_bh_acc_bound(*c1, px, py, g, theta, soft2, depth + 1);
            lemma_bh_acc_bound(*c2, px, py, g, theta, soft2, depth + 1);
            lemma_bh_acc_bound(*c3, px, py, g, theta, soft2, depth + 1);
            lemma_pair_acc_bound(px, py, com.x as int, com.y as int, mass as int, g, soft2);
            assert(g * mass_sum(*c0) * SCALE + g * mass_sum(*c1) * SCALE
                + g * mass_sum(*c2) * SCALE + g * mass_sum(*c3) * SCALE
                == g * mass_sum(n) * SCALE) by (nonlinear_arith)
                requires mass_sum(n) == mass_sum(*c0) + mass_sum(*c1) + mass_sum(*c2)
                    + mass_sum(*c3);
            assert(g * 0 * SCALE == 0) by (nonlinear_arith);
        },
    }
}



/// Range facts for the pair-acceleration intermediates under the engine caps.
pub proof fn lemma_walk_products(g: int, m: int, rx: int, ry: int, d2: int, d: int)
    requires
        0 <= g <= G_LIMIT,
        0 <= m <= MASS_LIMIT,
        -0x400_00000000 <= rx <= 0x400_00000000,
        -0x400_00000000 <= ry <= 0x400_00000000,
        1 <= d2 <= 0x100000_00000000_00000000,
        1 <= d <= 0x400_00000000,
    ensures
        1 <= d2 * d <= 0x40000000_00000000_00000000_00000000int,
        0 <= g * m <= 0x4_00000000_00000000int,
        -0x10000000_00000000_00000000_00000000int <= g * m * rx * SCALE
            <= 0x10000000_00000000_00000000_00000000int,
        -0x10000000_00000000_00000000_00000000int <= g * m * ry * SCALE
            <= 0x10000000_00000000_00000000_00000000int,
        -0x1000_00000000_00000000_00000000int <= g * m * rx
            <= 0x1000_00000000_00000000_00000000int,
        -0x1000_00000000_00000000_00000000int <= g * m * ry
            <= 0x1000_00000000_00000000_00000000int,
{
    assert(1 <= d2 * d <= 0x40000000_00000000_00000000_00000000int) by (nonlinear_arith)
        requires 1 <= d2 <= 0x100000_00000000_00000000, 1 <= d <= 0x400_00000000;
    assert(0 <= g * m <= 0x4_00000000_00000000int) by (nonlinear_arith)
        requires 0 <= g <= G_LIMIT, 0 <= m <= MASS_LIMIT, G_LIMIT == 67108864,
            MASS_LIMIT == 1099511627776;
    assert(-0x1000_00000000_00000000_00000000int <= g * m * rx
        <= 0x1000_00000000_00000000_00000000int
        && -0x1000_00000000_00000000_00000000int <= g * m * ry
        <= 0x1000_00000000_00000000_00000000int) by (nonlinear_arith)
        requires
            0 <= g * m <= 0x4_00000000_00000000int,
            -0x400_00000000 <= rx <= 0x400_00000000,
            -0x400_00000000 <= ry <= 0x400_00000000;
    assert(-0x10000000_00000000_00000000_00000000int <= g * m * rx * SCALE
        <= 0x10000000_00000000_00000000_00000000int
        && -0x10000000_00000000_00000000_00000000int <= g * m * ry * SCALE
        <= 0x10000000_00000000_00000000_00000000int) by (nonlinear_arith)
        requires
            -0x1000_00000000_00000000_00000000int <= g * m * rx
                <= 0x1000_00000000_00000000_00000000int,
            -0x1000_00000000_00000000_00000000int <= g * m * ry
                <= 0x1000_00000000_00000000_00000000int,
            SCALE == 65536;
}

/// Range facts for the opening-test intermediates under the engine caps.
pub proof fn lemma_open_products(s: int, theta: int, d2r: int)
    requires
        0 <= s <= 0x400_00000000,
        0 <= theta <= THETA_LIMIT,
        0 <= d2r <= 0x100000_00000000_00000000,
    ensures
        0 <= s * s <= 0x100000_00000000_00000000int,
        0 <= s * s * SCALE <= 0x1000000000_00000000_00000000int,
        0 <= s * s * SCALE * SCALE <= 0x10000000000000_00000000_00000000int,
        0 <= theta * theta <= 0x100_00000000int,
        0 <= theta * theta * d2r <= 0x10000000_00000000_00000000_00000000int,
{
    assert(0 <= s * s <= 0x100000_00000000_00000000int) by (nonlinear_arith)
        requires 0 <= s <= 0x400_00000000;
    assert(0 <= s * s * SCALE <= 0x1000000000_00000000_00000000int
        && 0 <= s * s * SCALE * SCALE <= 0x10000000000000_00000000_00000000int)
        by (nonlinear_arith)
        requires 0 <= s * s <= 0x100000_00000000_00000000int, SCALE == 65536;
    assert(0 <= theta * theta <= 0x100_00000000int) by (nonlinear_arith)
        requires 0 <= theta <= THETA_LIMIT, THETA_LIMIT == 1048576;
    assert(0 <= theta * theta * d2r <= 0x10000000_00000000_00000000_00000000int)
        by (nonlinear_arith)
        requires
            0 <= theta * theta <= 0x100_00000000int,
            0 <= d2r <= 0x100000_00000000_00000000;
}

/// Executable softened pair acceleration (both components), exact in
/// 128-bit arithmetic; see `pair_acc_x`.
fn pair_acc_exec(px: i64, py: i64, qx: i64, qy: i64, m: i64, g: i64, soft2: i64)
    -> (r: (i128, i128))
    requires
        -TREE_SPAN <= px <= TREE_SPAN,
        -TREE_SPAN <= py <= TREE_SPAN,
        -TREE_SPAN <= qx <= TREE_SPAN,
        -TREE_SPAN <= qy <= TREE_SPAN,
        0 <= m <= MASS_LIMIT,
        0 <= g <= G_LIMIT,
        soft2 >= 0,
    ensures
        r.0 == pair_acc_x(px as int, py as int, qx as int, qy as int, m as int, g as int,
            soft2 as int),
        r.1 == pair_acc_y(px as int, py as int, qx as int, qy as int, m as int, g as int,
            soft2 as int),
{
    let rx: i128 = qx as i128 - px as i128;
    let ry: i128 = qy as i128 - py as i128;
    proof {
        assert(rx as int * rx as int <= 0x40000_00000000_00000000int
            && ry as int * ry as int <= 0x40000_00000000_00000000int
            && rx as int * rx as int >= 0 && ry as int * ry as int >= 0) by (nonlinear_arith)
            requires
                -0x200_00000000 <= rx as int <= 0x200_00000000,
                -0x200_00000000 <= ry as int <= 0x200_00000000;
    }
    let d2: i128 = rx * rx + ry * ry + soft2 as i128;
    if d2 == 0 {
        (0, 0)
    } else {
        let dq: u128 = crate::fx::isqrt(d2 as u128);
        proof {
            crate::fx::lemma_sqrt_ge(d2 as int, 1);
            lemma_root_small(dq as int, d2 as int, 0x400_00000000);
        }
        let d: i128 = dq as i128;
        proof {
            lemma_walk_products(g as int, m as int, rx as int, ry as int, d2 as int, d as int);
        }
        let denom: i128 = d2 * d;
        let numx: i128 = g as i128 * m as i128 * rx * SCALE as i128;
        let numy: i128 = g as i128 * m as i128 * ry * SCALE as i128;
        let ax: i128 = crate::fx::div_keep_wide(numx, denom);
        let ay: i128 = crate::fx::div_keep_wide(numy, denom);
        (ax, ay)
    }
}

/// The recursive Barnes-Hut walk over a built tree; exact twin of
/// `bh_acc_x` / `bh_acc_y`.
fn walk_acc(n: &Node, px: i64, py: i64, g: i64, theta: i64, soft2: i64, Ghost(depth): Ghost<nat>)
    -> (r: (i128, i128))
    requires
        wf_node(*n, depth),
        aggregates_ok(*n),
        mass_sum(*n) <= MASS_LIMIT,
        -TREE_SPAN <= px <= TREE_SPAN,
        -TREE_SPAN <= py <= TREE_SPAN,
        0 <= g <= G_LIMIT,
        0 <= theta <= THETA_LIMIT,
        soft2 >= 0,
    ensures
        r.0 == bh_acc_x(*n, px as int, py as int, g as int, theta as int, soft2 as int),
        r.1 == bh_acc_y(*n, px as int, py as int, g as int, theta as int, soft2 as int),
    decreases *n,
{
    match n {
        Node::Empty { .. } => (0, 0),
        Node::Leaf { pos, mass, .. } => {
            proof {
                lemma_mass_sum_nonneg(*n, depth);
            }
            pair_acc_exec(px, py, pos.x, pos.y, *mass, g, soft2)
        },
        Node::Internal { quad, mass, com, c0, c1, c2, c3 } => {
            if *mass == 0 {
                (0, 0)
            } else {
                proof {
                    lemma_com_in_span(*n, depth);
                    lemma_mass_sum_nonneg(**c0, depth + 1);
                    lemma_mass_sum_nonneg(**c1, depth + 1);
                    lemma_mass_sum_nonneg(**c2, depth + 1);
                    lemma_mass_sum_nonneg(**c3, depth + 1);
                }
                let rx: i128 = com.x as i128 - px as i128;
                let ry: i128 = com.y as i128 - py as i128;
                proof {
                    assert(rx as int * rx as int <= 0x40000_00000000_00000000int
                        && ry as int * ry as int <= 0x40000_00000000_00000000int
                        && rx as int * rx as int >= 0 && ry as int * ry as int >= 0)
                        by (nonlinear_arith)
                        requires
                            -0x200_00000000 <= rx as int <= 0x200_00000000,
                            -0x200_00000000 <= ry as int <= 0x200_00000000;
                }
                let d2r: i128 = rx * rx + ry * ry;
                let s: i128 = 2 * quad.half_size as i128;
                proof {
                    lemma_open_products(s as int, theta as int, d2r as int);
                }
                let opened: bool = d2r != 0
                    && (s * s * (SCALE as i128) * (SCALE as i128))
                        < (theta as i128) * (theta as i128) * d2r;
                if opened {
                    pair_acc_exec(px, py, com.x, com.y, *mass, g, soft2)
                } else {
                    let (a0x, a0y) = walk_acc(&**c0, px, py, g, theta, soft2, Ghost(depth + 1));
                    let (a1x, a1y) = walk_acc(&**c1, px, py, g, theta, soft2, Ghost(depth + 1));
                    let (a2x, a2y) = walk_acc(&**c2, px, py, g, theta, soft2, Ghost(depth + 1));
                    let (a3x, a3y) = walk_acc(&**c3, px, py, g, theta, soft2, Ghost(depth + 1));
                    proof {
                        lemma_bh_acc_bound(**c0, px as int, py as int, g as int, theta as int,
                            soft2 as int, depth + 1);
                        lemma_bh_acc_bound(**c1, px as int, py as int, g as int, theta as int,
                            soft2 as int, depth + 1);
                        lemma_bh_acc_bound(**c2, px as int, py as int, g as int, theta as int,
                            soft2 as int, depth + 1);
                        lemma_bh_acc_bound(**c3, px as int, py as int, g as int, theta as int,
                            soft2 as int, depth + 1);
                        lemma_sum_bound_terms(g as int, mass_sum(**c0));
                        lemma_sum_bound_terms(g as int, mass_sum(**c1));
                        lemma_sum_bound_terms(g as int, mass_sum(**c2));
                        lemma_sum_bound_terms(g as int, mass_sum(**c3));
                    }
                    (a0x + a1x + a2x + a3x, a0y + a1y + a2y + a3y)
                }
            }
        },
    }
}

/// `g * m * SCALE` stays within 2^83 under the engine's caps.
pub proof fn lemma_sum_bound_terms(g: int, m: int)
    requires
        0 <= g <= G_LIMIT,
        0 <= m <= MASS_LIMIT,
    ensures
        0 <= g * m * SCALE <= 0x80000_00000000_00000000int,
{
    assert(0 <= g * m * SCALE <= 0x80000_00000000_00000000int) by (nonlinear_arith)
        requires 0 <= g <= G_LIMIT, 0 <= m <= MASS_LIMIT;
}

/// A massless subtree exerts no direct-sum force at all.
pub proof fn lemma_direct_zero_mass(n: Node, px: int, py: int, g: int, soft2: int, depth: nat)
    requires
        wf_node(n, depth),
        mass_sum(n) == 0,
    ensures
        direct_acc_x(n, px, py, g, soft2) == 0,
        direct_acc_y(n, px, py, g, soft2) == 0,
    decreases n,
{
    match n {
        Node::Empty { .. } => {},
        Node::Leaf { .. } => {},
        Node::Internal { c0, c1, c2, c3, .. } => {
            lemma_mass_sum_nonneg(*c0, depth + 1);
            lemma_mass_sum_nonneg(*c1, depth + 1);
            lemma_mass_sum_nonneg(*c2, depth + 1);
            lemma_mass_sum_nonneg(*c3, depth + 1);
            lemma_direct_zero_mass(*c0, px, py, g, soft2, depth + 1);
            lemma_direct_zero_mass(*c1, px, py, g, soft2, depth + 1);
            lemma_direct_zero_mass(*c2, px, py, g, soft2, depth + 1);
            lemma_direct_zero_mass(*c3, px, py, g, soft2, depth + 1);
        },
    }
}

/// Barnes-Hut at `theta == 0` is the brute-force direct sum, exactly: with
/// a zero opening angle the walk never takes the monopole shortcut, so the
/// O(N^2) pairwise result and the tree walk coincide on every built tree.
pub proof fn lemma_theta_zero_exact(n: Node, px: int, py: int, g: int, soft2: int, depth: nat)
    requires
        wf_node(n, depth),
        aggregates_ok(n),
    ensures
        bh_acc_x(n, px, py, g, 0, soft2) == direct_acc_x(n, px, py, g, soft2),
        bh_acc_y(n, px, py, g, 0, soft2) == direct_acc_y(n, px, py, g, soft2),
    decreases n,
{
    match n {
        Node::Empty { .. } => {},
        Node::Leaf { .. } => {},
        Node::Internal { quad, mass, com, c0, c1, c2, c3 } => {
            if mass == 0 {
                lemma_direct_zero_mass(n, px, py, g, soft2, depth);
            } else {
                let rx = com.x - px;
                let ry = com.y - py;
                let d2r = rx * rx + ry * ry;
                let s = 2 * quad.half_size as int;
                assert(s * s * SCALE * SCALE >= 0 && 0 * 0 * d2r == 0) by (nonlinear_arith);
                assert(!opens_as_point(s, d2r, 0));
                lemma_theta_zero_exact(*c0, px, py, g, soft2, depth + 1);
                lemma_theta_zero_exact(*c1, px, py, g, soft2, depth + 1);
                lemma_theta_zero_exact(*c2, px, py, g, soft2, depth + 1);
                lemma_theta_zero_exact(*c3, px, py, g, soft2, depth + 1);
            }
        },
    }
}


/// The depth `get_density_factor` reaches from a node at depth `depth`:
/// descend through Internal nodes containing the point until the cap.
pub open spec fn descend_depth(n: Node, px: int, py: int, depth: int) -> int
    decreases n,
{
    match n {
        Node::Internal { quad, c0, c1, c2, c3, .. } => {
            if quad_contains(quad, px, py) && depth < MAX_DEPTH {
                let i = child_index_spec(quad, px, py);
                if i == 0 {
                    descend_depth(*c0, px, py, depth + 1)
                } else if i == 1 {
                    descend_depth(*c1, px, py, depth + 1)
                } else if i == 2 {
                    descend_depth(*c2, px, py, depth + 1)
                } else {
                    descend_depth(*c3, px, py, depth + 1)
                }
            } else {
                depth
            }
        },
        _ => depth,
    }
}

/// Saturating narrowing of a 128-bit accumulator into `i64`.
fn narrow_sat(v: i128) -> (r: i64)
    ensures
        r == crate::fx::sat64(v as int),
{
    if v > i64::MAX as i128 {
        i64::MAX
    } else if v < i64::MIN as i128 {
        i64::MIN
    } else {
        v as i64
    }
}

/// The quadtree: a root node covering the caller-chosen bounds.
pub struct QuadTree {
    pub root: Box<Node>,
}

impl QuadTree {
    /// An empty tree over the given (well-formed, root-aligned) bounds.
    pub fn new(bounds: Quad) -> (r: QuadTree)
        requires
            wf_quad(bounds, 0),
        ensures
            wf_node(*r.root, 0),
            node_quad(*r.root) == bounds,
            mass_sum(*r.root) == 0,
            *r.root == (Node::Empty { quad: bounds }),
    {
        QuadTree { root: Box::new(Node::Empty { quad: bounds }) }
    }

    /// Insert one body. A point inside the root bounds adds its mass to
    /// the tree; a point outside is silently dropped (the caller sizes the
    /// bounds to cover every live body before each rebuild).
    pub fn insert(&mut self, p: V2, mass: i64) -> (dropped: bool)
        requires
            wf_node(*old(self).root, 0),
            0 < mass,
            mass_sum(*old(self).root) + mass <= MASS_LIMIT,
        ensures
            wf_node(*final(self).root, 0),
            node_quad(*final(self).root) == node_quad(*old(self).root),
            !dropped == quad_contains(node_quad(*old(self).root), p.x as int, p.y as int),
            !dropped ==> mass_sum(*final(self).root) == mass_sum(*old(self).root) + mass,
            dropped ==> *final(self).root == *old(self).root,
            !dropped ==> leaves(*final(self).root)
                == leaves(*old(self).root).insert((p, mass))
                || cap_merged(leaves(*old(self).root), leaves(*final(self).root),
                    mass as int),
            !dropped && (*old(self).root is Empty)
                ==> *final(self).root == (Node::Leaf {
                    quad: node_quad(*old(self).root),
                    pos: p,
                    mass,
                }),
    {
        let mut tmp: Box<Node> = Box::new(Node::Empty {
            quad: Quad { center: V2 { x: 0, y: 0 }, half_size: 0 },
        });
        core::mem::swap(&mut self.root, &mut tmp);
        let in_bounds = node_bounds(&tmp).contains(p);
        tmp = insert_node(tmp, p, mass, 0);
        core::mem::swap(&mut self.root, &mut tmp);
        !in_bounds
    }

    /// Recompute every cached aggregate (mass and center of mass) bottom-up.
    /// Afterwards the root's cached mass equals the exact sum of all masses
    /// that were inserted inside the bounds: mass conservation.
    pub fn build_mass_centers(&mut self)
        requires
            wf_node(*old(self).root, 0),
            mass_sum(*old(self).root) <= MASS_LIMIT,
        ensures
            wf_node(*final(self).root, 0),
            node_quad(*final(self).root) == node_quad(*old(self).root),
            aggregates_ok(*final(self).root),
            mass_sum(*final(self).root) == mass_sum(*old(self).root),
            cached_mass(*final(self).root) == mass_sum(*old(self).root),
            leaves(*final(self).root) == leaves(*old(self).root),
            aggregates_ok(*old(self).root) ==> *final(self).root == *old(self).root,
    {
        let mut tmp: Box<Node> = Box::new(Node::Empty {
            quad: Quad { center: V2 { x: 0, y: 0 }, half_size: 0 },
        });
        core::mem::swap(&mut self.root, &mut tmp);
        let (built, total, _com) = build_node(tmp, 0);
        tmp = built;
        core::mem::swap(&mut self.root, &mut tmp);
        proof {
            lemma_cached_mass_exact(*self.root);
        }
    }

    /// Barnes-Hut approximate gravitational acceleration at `p`, with
    /// gravitational constant `g`, opening angle `theta` and squared
    /// softening `soft2` (scale `SCALE * SCALE`), all fixed point. Requires
    /// a tree whose aggregates were built. Components saturate at the
    /// `i64` range (never reached under sane settings).
    pub fn approx_acc(&self, p: V2, g: i64, theta: i64, soft2: i64) -> (a: V2)
        requires
            wf_node(*self.root, 0),
            aggregates_ok(*self.root),
            mass_sum(*self.root) <= MASS_LIMIT,
            -TREE_SPAN <= p.x <= TREE_SPAN,
            -TREE_SPAN <= p.y <= TREE_SPAN,
            0 <= g <= G_LIMIT,
            0 <= theta <= THETA_LIMIT,
            soft2 >= 0,
        ensures
            a.x == crate::fx::sat64(bh_acc_x(*self.root, p.x as int, p.y as int, g as int,
                theta as int, soft2 as int)),
            a.y == crate::fx::sat64(bh_acc_y(*self.root, p.x as int, p.y as int, g as int,
                theta as int, soft2 as int)),
    {
        let (ax, ay) = walk_acc(&*self.root, p.x, p.y, g, theta, soft2, Ghost(0));
        V2 { x: narrow_sat(ax), y: narrow_sat(ay) }
    }

    /// A locality signal in `[0, SCALE]`: how deep the tree is refined
    /// around `p`, as `depth / MAX_DEPTH` in fixed point. Used only to
    /// adapt accuracy parameters, never for force computation.
    pub fn get_density_factor(&self, p: V2) -> (r: i64)
        requires
            wf_node(*self.root, 0),
        ensures
            r == tdiv(descend_depth(*self.root, p.x as int, p.y as int, 0) * SCALE, 12),
            0 <= r <= SCALE,
    {
        let ghost root0: Node = *self.root;
        let mut cur: &Node = &*self.root;
        let mut d: usize = 0;
        loop
            invariant_except_break
                d <= MAX_DEPTH,
                wf_node(*cur, d as nat),
                descend_depth(root0, p.x as int, p.y as int, 0)
                    == descend_depth(*cur, p.x as int, p.y as int, d as int),
            ensures
                d <= MAX_DEPTH,
                descend_depth(root0, p.x as int, p.y as int, 0) == d as int,
            decreases MAX_DEPTH - d,
        {
            match cur {
                Node::Internal { quad, c0, c1, c2, c3, .. } => {
                    if d < MAX_DEPTH && quad.contains(p) {
                        let idx = child_index_exec(quad, p);
                        cur = if idx == 0 {
                            &**c0
                        } else if idx == 1 {
                            &**c1
                        } else if idx == 2 {
                            &**c2
                        } else {
                            &**c3
                        };
                        d = d + 1;
                    } else {
                        proof {
                            assert(descend_depth(*cur, p.x as int, p.y as int, d as int)
                                == d as int);
                        }
                        break;
                    }
                },
                _ => {
                    proof {
                        assert(descend_depth(*cur, p.x as int, p.y as int, d as int)
                            == d as int);
                    }
                    break;
                },
            }
        }
        proof {
            crate::fx::lemma_tdiv_bound(d as int * SCALE, 12, SCALE as int);
        }
        (d as i64 * SCALE) / 12
    }

    /// The root's cached aggregate mass (zero for an empty tree).
    pub fn root_mass(&self) -> (r: i64)
        ensures
            r == cached_mass(*self.root),
    {
        match &*self.root {
            Node::Empty { .. } => 0,
            Node::Leaf { mass, .. } => *mass,
            Node::Internal { mass, .. } => *mass,
        }
    }
}

/// Mass conservation: once the aggregates are built, the cached mass at
/// the top of a node is exactly the sum of the masses stored in its leaves.
pub proof fn lemma_cached_mass_exact(n: Node)
    requires
        aggregates_ok(n),
    ensures
        cached_mass(n) == mass_sum(n),
{
}

/// The bounds of a node (executable twin of `node_quad`).
pub fn node_bounds(n: &Node) -> (r: Quad)
    ensures
        r == node_quad(*n),
{
    match n {
        Node::Empty { quad } => *quad,
        Node::Leaf { quad, .. } => *quad,
        Node::Internal { quad, .. } => *quad,
    }
}

} // verus!
