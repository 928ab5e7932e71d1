//! What holds of every quadtree: the mass of a tree is the mass of the
//! particles it took, every particle goes to exactly one quadrant, and the
//! force of the tree at the smallest opening angles.
use vstd::prelude::*;
use crate::fixed::{div_toward_zero, floor_sqrt, magnitude, LIMIT, SCALE};
use crate::forces::{gravity, MASS_CAPACITY};
use crate::pairwise::net_force;
use crate::particle::{all_valid, Particle};
use crate::quadtree::{
    covers, empty_quadrants, empty_tree, leaf, lemma_finalized_is_closed, lemma_inserted_totals,
    lemma_moment_bounded, lemma_quadrant_covers, lemma_quadrant_shrinks, pair_tree,
    quadrant_boundary, quadrant_of, same_place, split_x, split_y, valid_boundary, QuadTree,
};
use crate::simulation::{step_force, tree_of, world, Algorithm};

verus! {

/// Number of particles that a tree holds.
pub open spec fn count(t: QuadTree) -> nat
    decreases t,
{
    match t.children {
        Some(c) => count(c.south_west) + count(c.south_east) + count(c.north_west) + count(
            c.north_east,
        ),
        None => match t.particle {
            Some(_) => 1,
            None => 0,
        },
    }
}

/// Sum of the masses of the particles that a tree holds.
pub open spec fn held_mass(t: QuadTree) -> int
    decreases t,
{
    match t.children {
        Some(c) => held_mass(c.south_west) + held_mass(c.south_east) + held_mass(c.north_west)
            + held_mass(c.north_east),
        None => match t.particle {
            Some(q) => q.mass as int,
            None => 0,
        },
    }
}

/// Sum of the masses of those among the first `n` particles that the tree
/// over the world rectangle took when they were offered in order.
pub open spec fn accepted_mass(ps: Seq<Particle>, n: int) -> int
    decreases n,
{
    if n <= 0 {
        0
    } else {
        accepted_mass(ps, n - 1) + if tree_of(ps, n - 1).accepts(ps[n - 1]) {
            ps[n - 1].mass as int
        } else {
            0
        }
    }
}

/// The tree of two particles is a well-formed open tree that holds two
/// particles, with the mass of both.
pub proof fn lemma_pair_tree(b: [i64; 4], q: Particle, p: Particle)
    requires
        valid_boundary(b),
        q.valid(),
        p.valid(),
        covers(b, q.position),
        covers(b, p.position),
        !same_place(q.position, p.position),
        q.mass + p.mass <= MASS_CAPACITY,
    ensures
        pair_tree(b, q, p).is_open(),
        pair_tree(b, q, p).boundary == b,
        count(pair_tree(b, q, p)) == 2,
        held_mass(pair_tree(b, q, p)) == q.mass + p.mass,
    decreases crate::quadtree::extent(b),
{
    reveal_with_fuel(count, 2);
    reveal_with_fuel(held_mass, 2);
    let kq = quadrant_of(b, q.position);
    let kp = quadrant_of(b, p.position);
    lemma_quadrant_covers(b, q.position);
    lemma_quadrant_covers(b, p.position);
    lemma_moment_bounded(q, 0);
    lemma_moment_bounded(q, 1);
    lemma_moment_bounded(p, 0);
    lemma_moment_bounded(p, 1);
    let m = q.mass + p.mass;
    assert(m * LIMIT == q.mass * LIMIT + p.mass * LIMIT) by (nonlinear_arith)
        requires
            m == q.mass + p.mass,
    ;
    assert(m * LIMIT <= MASS_CAPACITY * LIMIT) by (nonlinear_arith)
        requires
            0 <= m <= MASS_CAPACITY,
    ;
    assert(0 * LIMIT == 0);
    let e = empty_quadrants(b);
    assert(e.child(0).is_open() && e.child(1).is_open() && e.child(2).is_open() && e.child(
        3,
    ).is_open());
    if kq == kp {
        lemma_quadrant_shrinks(b, q.position, p.position);
        lemma_pair_tree(quadrant_boundary(b, kq), q, p);
    } else {
        assert(leaf(quadrant_boundary(b, kq), q).is_open());
        assert(leaf(quadrant_boundary(b, kp), p).is_open());
    }
}

/// Adding a particle that an open tree accepts gives an open tree with one
/// particle more, whose mass has grown by the mass of the particle.
pub proof fn lemma_inserted(t: QuadTree, p: Particle)
    requires
        t.is_open(),
        p.valid(),
        t.accepts(p),
    ensures
        t.inserted(p).is_open(),
        t.inserted(p).boundary == t.boundary,
        t.inserted(p).mass == t.mass + p.mass,
        count(t.inserted(p)) == count(t) + 1,
        held_mass(t.inserted(p)) == held_mass(t) + p.mass,
    decreases t,
{
    reveal_with_fuel(QuadTree::is_open, 2);
    lemma_inserted_totals(t, p);
    lemma_moment_bounded(p, 0);
    lemma_moment_bounded(p, 1);
    let m = t.mass + p.mass;
    assert(m * LIMIT == t.mass * LIMIT + p.mass * LIMIT) by (nonlinear_arith)
        requires
            m == t.mass + p.mass,
    ;
    assert(m * LIMIT <= MASS_CAPACITY * LIMIT) by (nonlinear_arith)
        requires
            0 <= m <= MASS_CAPACITY,
    ;
    match t.children {
        Some(c) => {
            let k = quadrant_of(t.boundary, p.position);
            lemma_quadrant_covers(t.boundary, p.position);
            lemma_inserted(c.child(k), p);
            lemma_inserted_totals(c.child(k), p);
        },
        None => match t.particle {
            Some(q) => {
                lemma_pair_tree(t.boundary, q, p);
            },
            None => {},
        },
    }
}

/// The mass of an open tree is the sum of the masses of its particles.
pub proof fn lemma_mass_is_held_mass(t: QuadTree)
    requires
        t.is_open(),
    ensures
        t.mass == held_mass(t),
        t.finalized().mass == held_mass(t),
    decreases t,
{
    match t.children {
        Some(c) => {
            lemma_mass_is_held_mass(c.south_west);
            lemma_mass_is_held_mass(c.south_east);
            lemma_mass_is_held_mass(c.north_west);
            lemma_mass_is_held_mass(c.north_east);
        },
        None => {},
    }
}

/// The tree over the world rectangle stays open while particles are offered
/// to it.
pub proof fn lemma_tree_of_open(ps: Seq<Particle>, n: int)
    requires
        all_valid(ps),
        0 <= n <= ps.len(),
    ensures
        tree_of(ps, n).is_open(),
    decreases n,
{
    if n > 0 {
        lemma_tree_of_open(ps, n - 1);
        if tree_of(ps, n - 1).accepts(ps[n - 1]) {
            lemma_inserted(tree_of(ps, n - 1), ps[n - 1]);
        }
    } else {
        assert(valid_boundary(world()));
        assert(0 * LIMIT == 0);
        assert(empty_tree(world()).is_open());
    }
}

/// Mass is conserved by the tree: after the tree has been closed, the mass
/// of its root is the sum of the masses of the particles that it took, in
/// whatever order they were offered.
pub proof fn lemma_tree_mass_conserved(ps: Seq<Particle>, n: int)
    requires
        all_valid(ps),
        0 <= n <= ps.len(),
    ensures
        tree_of(ps, n).finalized().mass == accepted_mass(ps, n),
        tree_of(ps, n).finalized().mass == held_mass(tree_of(ps, n)),
    decreases n,
{
    lemma_tree_of_open(ps, n);
    lemma_mass_is_held_mass(tree_of(ps, n));
    if n > 0 {
        lemma_tree_mass_conserved(ps, n - 1);
        lemma_tree_of_open(ps, n - 1);
        if tree_of(ps, n - 1).accepts(ps[n - 1]) {
            lemma_inserted(tree_of(ps, n - 1), ps[n - 1]);
        }
    }
}

/// Every position inside a rectangle is assigned to one quadrant, which
/// covers it.  A position on the line that divides west from east belongs
/// to the east, and one on the line that divides south from north to the
/// north, although the quadrants on both sides of the line cover it.
pub proof fn lemma_one_quadrant(b: [i64; 4], pos: [i64; 2])
    requires
        valid_boundary(b),
        covers(b, pos),
    ensures
        0 <= quadrant_of(b, pos) < 4,
        covers(quadrant_boundary(b, quadrant_of(b, pos)), pos),
        pos[0] == split_x(b) ==> quadrant_of(b, pos) == 1 || quadrant_of(b, pos) == 3,
        pos[1] == split_y(b) ==> quadrant_of(b, pos) == 2 || quadrant_of(b, pos) == 3,
        pos[0] == split_x(b) ==> covers(quadrant_boundary(b, quadrant_of(b, pos) - 1), pos),
        pos[1] == split_y(b) ==> covers(quadrant_boundary(b, quadrant_of(b, pos) - 2), pos),
{
}

/// A particle that a tree with children takes goes into exactly one child:
/// the child of its quadrant holds one particle more, and the other three
/// children are as they were.
pub proof fn lemma_insert_reaches_one_child(t: QuadTree, p: Particle, j: int)
    requires
        t.is_open(),
        t.children.is_some(),
        p.valid(),
        t.accepts(p),
        0 <= j < 4,
    ensures
        t.inserted(p).children.is_some(),
        j == quadrant_of(t.boundary, p.position) ==> count(
            t.inserted(p).children.unwrap().child(j),
        ) == count(t.children.unwrap().child(j)) + 1,
        j != quadrant_of(t.boundary, p.position) ==> t.inserted(p).children.unwrap().child(j)
            == t.children.unwrap().child(j),
{
    reveal_with_fuel(QuadTree::is_open, 2);
    let k = quadrant_of(t.boundary, p.position);
    lemma_quadrant_covers(t.boundary, p.position);
    lemma_inserted(t.children.unwrap().child(k), p);
}

/// When a second particle arrives in a cell that holds one, the two end up
/// in the quadrants that their positions are assigned to, each in exactly
/// one: the children of the cell hold two particles between them.
pub proof fn lemma_split_keeps_both(t: QuadTree, p: Particle)
    requires
        t.is_open(),
        t.children.is_none(),
        t.particle.is_some(),
        p.valid(),
        t.accepts(p),
    ensures
        t.inserted(p).children.is_some(),
        t.inserted(p).particle.is_none(),
        count(t.inserted(p)) == 2,
{
    lemma_inserted(t, p);
}

/// Some particle of the tree, in whatever cell, sits at `pos`.
pub open spec fn holds_at(t: QuadTree, pos: [i64; 2]) -> bool
    decreases t,
{
    match t.children {
        Some(c) => holds_at(c.south_west, pos) || holds_at(c.south_east, pos) || holds_at(
            c.north_west,
            pos,
        ) || holds_at(c.north_east, pos),
        None => match t.particle {
            Some(q) => same_place(q.position, pos),
            None => false,
        },
    }
}

/// Every particle of the tree lies, at every level, in the child of the
/// quadrant that its position is assigned to.
pub open spec fn is_sorted(t: QuadTree) -> bool
    decreases t,
{
    match t.children {
        Some(c) => {
            &&& is_sorted(c.south_west)
            &&& is_sorted(c.south_east)
            &&& is_sorted(c.north_west)
            &&& is_sorted(c.north_east)
            &&& forall|pos: [i64; 2]| #[trigger]
                holds_at(c.south_west, pos) ==> quadrant_of(t.boundary, pos) == 0
            &&& forall|pos: [i64; 2]| #[trigger]
                holds_at(c.south_east, pos) ==> quadrant_of(t.boundary, pos) == 1
            &&& forall|pos: [i64; 2]| #[trigger]
                holds_at(c.north_west, pos) ==> quadrant_of(t.boundary, pos) == 2
            &&& forall|pos: [i64; 2]| #[trigger]
                holds_at(c.north_east, pos) ==> quadrant_of(t.boundary, pos) == 3
        },
        None => true,
    }
}

/// In a sorted tree, following the quadrants that a position is assigned
/// to finds a particle exactly when some particle of the tree sits there.
pub proof fn lemma_occupied_is_held(t: QuadTree, pos: [i64; 2])
    requires
        is_sorted(t),
    ensures
        t.occupied(pos) == holds_at(t, pos),
    decreases t,
{
    match t.children {
        Some(c) => {
            lemma_occupied_is_held(c.south_west, pos);
            lemma_occupied_is_held(c.south_east, pos);
            lemma_occupied_is_held(c.north_west, pos);
            lemma_occupied_is_held(c.north_east, pos);
        },
        None => {},
    }
}

/// The tree of two particles is sorted and holds those two and no other.
pub proof fn lemma_pair_tree_sorted(b: [i64; 4], q: Particle, p: Particle)
    requires
        valid_boundary(b),
        covers(b, q.position),
        covers(b, p.position),
        !same_place(q.position, p.position),
    ensures
        is_sorted(pair_tree(b, q, p)),
        forall|pos: [i64; 2]| #[trigger]
            holds_at(pair_tree(b, q, p), pos) == (same_place(q.position, pos) || same_place(
                p.position,
                pos,
            )),
    decreases crate::quadtree::extent(b),
{
    reveal_with_fuel(holds_at, 2);
    reveal_with_fuel(is_sorted, 2);
    let kq = quadrant_of(b, q.position);
    let kp = quadrant_of(b, p.position);
    lemma_quadrant_covers(b, q.position);
    lemma_quadrant_covers(b, p.position);
    let t = pair_tree(b, q, p);
    let c = t.children.unwrap();
    if kq == kp {
        lemma_quadrant_shrinks(b, q.position, p.position);
        lemma_pair_tree_sorted(quadrant_boundary(b, kq), q, p);
        let below = pair_tree(quadrant_boundary(b, kq), q, p);
        assert(c == empty_quadrants(b).with_child(kq, below));
        assert forall|pos: [i64; 2]| #[trigger]
            holds_at(t, pos) == (same_place(q.position, pos) || same_place(
                p.position,
                pos,
            )) by {
            assert(holds_at(below, pos) == (same_place(q.position, pos) || same_place(
                p.position,
                pos,
            )));
            lemma_children_hold(t, pos);
        }
        assert forall|pos: [i64; 2], k: int| 0 <= k < 4 && #[trigger] holds_at(
            c.child(k),
            pos,
        ) implies quadrant_of(b, pos) == k by {
            assert(k == kq);
            assert(holds_at(below, pos) == (same_place(q.position, pos) || same_place(
                p.position,
                pos,
            )));
        }
    } else {
        assert(c == empty_quadrants(b).with_child(kq, leaf(quadrant_boundary(b, kq), q)).with_child(
            kp,
            leaf(quadrant_boundary(b, kp), p),
        ));
        assert forall|pos: [i64; 2]| #[trigger]
            holds_at(t, pos) == (same_place(q.position, pos) || same_place(
                p.position,
                pos,
            )) by {
            lemma_children_hold(t, pos);
        }
        assert forall|pos: [i64; 2], k: int| 0 <= k < 4 && #[trigger] holds_at(
            c.child(k),
            pos,
        ) implies quadrant_of(b, pos) == k by {
            assert(k == kq || k == kp);
        }
    }
    assert(is_sorted(c.child(0)) && is_sorted(c.child(1)) && is_sorted(c.child(2)) && is_sorted(
        c.child(3),
    ));
    lemma_sorted_by_children(t);
}

/// A tree with children holds a place exactly when one of the children
/// does.
proof fn lemma_children_hold(t: QuadTree, pos: [i64; 2])
    requires
        t.children.is_some(),
    ensures
        holds_at(t, pos) == (holds_at(t.children.unwrap().child(0), pos) || holds_at(
            t.children.unwrap().child(1),
            pos,
        ) || holds_at(t.children.unwrap().child(2), pos) || holds_at(
            t.children.unwrap().child(3),
            pos,
        )),
{
}

/// A tree is sorted when its children are and each of them holds only
/// places of its own quadrant.
proof fn lemma_sorted_by_children(t: QuadTree)
    requires
        t.children.is_some(),
        forall|k: int| 0 <= k < 4 ==> is_sorted(#[trigger] t.children.unwrap().child(k)),
        forall|pos: [i64; 2], k: int|
            0 <= k < 4 && #[trigger] holds_at(t.children.unwrap().child(k), pos) ==> quadrant_of(
                t.boundary,
                pos,
            ) == k,
    ensures
        is_sorted(t),
{
    let c = t.children.unwrap();
    assert(is_sorted(c.child(0)) && is_sorted(c.child(1)) && is_sorted(c.child(2)) && is_sorted(
        c.child(3),
    ));
    assert forall|pos: [i64; 2]| #[trigger] holds_at(c.south_west, pos) implies quadrant_of(
        t.boundary,
        pos,
    ) == 0 by {
        assert(holds_at(c.child(0), pos));
    }
    assert forall|pos: [i64; 2]| #[trigger] holds_at(c.south_east, pos) implies quadrant_of(
        t.boundary,
        pos,
    ) == 1 by {
        assert(holds_at(c.child(1), pos));
    }
    assert forall|pos: [i64; 2]| #[trigger] holds_at(c.north_west, pos) implies quadrant_of(
        t.boundary,
        pos,
    ) == 2 by {
        assert(holds_at(c.child(2), pos));
    }
    assert forall|pos: [i64; 2]| #[trigger] holds_at(c.north_east, pos) implies quadrant_of(
        t.boundary,
        pos,
    ) == 3 by {
        assert(holds_at(c.child(3), pos));
    }
}

/// The children of a sorted tree are sorted and hold only places of their
/// own quadrants.
proof fn lemma_children_of_sorted(t: QuadTree)
    requires
        t.children.is_some(),
        is_sorted(t),
    ensures
        forall|k: int| 0 <= k < 4 ==> is_sorted(#[trigger] t.children.unwrap().child(k)),
        forall|pos: [i64; 2], k: int|
            0 <= k < 4 && #[trigger] holds_at(t.children.unwrap().child(k), pos) ==> quadrant_of(
                t.boundary,
                pos,
            ) == k,
{
}

/// Adding a particle keeps a tree sorted, and makes it hold the place of
/// the particle besides the places it held.
pub proof fn lemma_inserted_sorted(t: QuadTree, p: Particle)
    requires
        t.is_open(),
        is_sorted(t),
        p.valid(),
        t.accepts(p),
    ensures
        is_sorted(t.inserted(p)),
        forall|pos: [i64; 2]| #[trigger]
            holds_at(t.inserted(p), pos) == (holds_at(t, pos) || same_place(p.position, pos)),
    decreases t,
{
    reveal_with_fuel(QuadTree::is_open, 2);
    let after = t.inserted(p);
    match t.children {
        Some(c) => {
            let k = quadrant_of(t.boundary, p.position);
            lemma_quadrant_covers(t.boundary, p.position);
            lemma_children_of_sorted(t);
            lemma_inserted_sorted(c.child(k), p);
            let d = after.children.unwrap();
            assert(d == c.with_child(k, c.child(k).inserted(p)));
            assert forall|pos: [i64; 2]| #[trigger]
                holds_at(after, pos) == (holds_at(t, pos) || same_place(p.position, pos)) by {
                lemma_children_hold(after, pos);
                lemma_children_hold(t, pos);
                assert(holds_at(c.child(k).inserted(p), pos) == (holds_at(c.child(k), pos)
                    || same_place(p.position, pos)));
            }
            assert forall|pos: [i64; 2], j: int| 0 <= j < 4 && #[trigger] holds_at(
                d.child(j),
                pos,
            ) implies quadrant_of(after.boundary, pos) == j by {
                if j == k {
                    assert(holds_at(c.child(k).inserted(p), pos) == (holds_at(c.child(k), pos)
                        || same_place(p.position, pos)));
                } else {
                    assert(d.child(j) == c.child(j));
                }
            }
            assert forall|j: int| 0 <= j < 4 implies is_sorted(#[trigger] d.child(j)) by {
                if j != k {
                    assert(d.child(j) == c.child(j));
                }
            }
            lemma_sorted_by_children(after);
        },
        None => match t.particle {
            Some(q) => {
                lemma_pair_tree_sorted(t.boundary, q, p);
            },
            None => {},
        },
    }
}

/// The tree over the world rectangle is sorted, whatever particles were
/// offered to it: every particle was put in exactly one child at every
/// level, the child of its quadrant.
pub proof fn lemma_tree_of_sorted(ps: Seq<Particle>, n: int)
    requires
        all_valid(ps),
        0 <= n <= ps.len(),
    ensures
        is_sorted(tree_of(ps, n)),
    decreases n,
{
    if n > 0 {
        lemma_tree_of_sorted(ps, n - 1);
        lemma_tree_of_open(ps, n - 1);
        if tree_of(ps, n - 1).accepts(ps[n - 1]) {
            lemma_inserted_sorted(tree_of(ps, n - 1), ps[n - 1]);
        }
    }
}

/// With an opening angle of zero or less no cell is ever far enough, and a
/// cell without children that is not far enough exerts nothing: the tree
/// exerts no force at all.  The force of the tree therefore does not tend
/// to the pairwise force as the angle goes to zero.
pub proof fn lemma_no_force_at_zero_angle(t: QuadTree, p: Particle, theta: int, axis: int)
    requires
        t.is_closed(),
        theta <= 0,
    ensures
        t.force_on(p, theta, axis) == 0,
    decreases t,
{
    let dx = t.center_of_mass[0] - p.position[0];
    let dy = t.center_of_mass[1] - p.position[1];
    let dist = floor_sqrt(dx * dx + dy * dy);
    let width = t.boundary[2] - t.boundary[0];
    if dist > 0 {
        assert(theta * dist <= 0) by (nonlinear_arith)
            requires
                theta <= 0,
                dist > 0,
        ;
        assert(width * SCALE >= 0) by (nonlinear_arith)
            requires
                width >= 0,
                SCALE > 0,
        ;
    }
    assert(!t.far_enough(p.position, theta));
    match t.children {
        Some(c) => {
            lemma_no_force_at_zero_angle(c.south_west, p, theta, axis);
            lemma_no_force_at_zero_angle(c.south_east, p, theta, axis);
            lemma_no_force_at_zero_angle(c.north_west, p, theta, axis);
            lemma_no_force_at_zero_angle(c.north_east, p, theta, axis);
        },
        None => {},
    }
}

/// Where the pairwise forces on a particle cancel, the force of the tree at
/// an opening angle of zero is the pairwise force.
pub proof fn lemma_zero_angle_agrees_where_forces_cancel(ps: Seq<Particle>, k: int, axis: int)
    requires
        all_valid(ps),
        0 <= k < ps.len(),
        net_force(ps, k, axis) == 0,
    ensures
        step_force(ps, Algorithm::BarnesHut, Some(0i64), k, axis) == step_force(
            ps,
            Algorithm::DirectSum,
            None,
            k,
            axis,
        ),
{
    let n = ps.len() as int;
    lemma_tree_of_open(ps, n);
    lemma_finalized_is_closed(tree_of(ps, n));
    lemma_no_force_at_zero_angle(tree_of(ps, n).finalized(), ps[k], 0, axis);
}

/// A closed cell that holds a single particle and is far enough exerts
/// exactly the pairwise force of that particle.
pub proof fn lemma_leaf_force_is_pairwise(
    b: [i64; 4],
    q: Particle,
    p: Particle,
    theta: int,
    axis: int,
)
    requires
        q.valid(),
        axis == 0 || axis == 1,
        leaf(b, q).finalized().far_enough(p.position, theta),
    ensures
        leaf(b, q).finalized().force_on(p, theta, axis) == gravity(p, q, axis),
{
    let t = leaf(b, q).finalized();
    let m = q.mass as int;
    let x = q.position[0] as int;
    let y = q.position[1] as int;
    lemma_moment_bounded(q, 0);
    lemma_moment_bounded(q, 1);
    assert(leaf(b, q).center_of_mass[0] == m * x);
    assert(leaf(b, q).center_of_mass[1] == m * y);
    lemma_exact_quotient(m, x);
    lemma_exact_quotient(m, y);
    assert(t.center() =~= q.position);
}

/// Mass times a coordinate, divided by the mass, is the coordinate.
proof fn lemma_exact_quotient(m: int, x: int)
    requires
        m > 0,
    ensures
        div_toward_zero(m * x, m) == x,
{
    let a = magnitude(m * x);
    let ax = magnitude(x);
    assert(a == m * ax) by (nonlinear_arith)
        requires
            a == magnitude(m * x),
            ax == magnitude(x),
            m > 0,
    ;
    assert((m * ax) / m == ax) by (nonlinear_arith)
        requires
            m > 0,
            ax >= 0,
    ;
    if x < 0 {
        assert(m * x < 0) by (nonlinear_arith)
            requires
                m > 0,
                x < 0,
        ;
    } else {
        assert(m * x >= 0) by (nonlinear_arith)
            requires
                m > 0,
                x >= 0,
        ;
    }
}

} // verus!
