//! The pairwise gravitational force law with a softening floor.
use vstd::prelude::*;
use crate::fixed::{
    div_toward_zero, divide_toward_zero, floor_sqrt, integer_sqrt, is_floor_sqrt,
    lemma_div_toward_zero_odd, lemma_floor_sqrt_below, lemma_floor_sqrt_exists, magnitude,
    LIMIT, SCALE,
};
use crate::particle::Particle;

verus! {

/// The gravitational constant, four times pi squared, for distances in
/// astronomical units, times in years and masses in solar masses.
pub const GRAVIT_CONST: i64 = 40426;

/// Largest mass that a body which attracts a particle may have: a single
/// particle never weighs more than `LIMIT`, a cell of a quadtree never more
/// than this.
pub const MASS_CAPACITY: i64 = 140737488355328;

/// Largest magnitude of one component of the force between two valid
/// particles.
pub const PAIR_FORCE_LIMIT: i128 = 177795428257890304;

/// Coordinate `axis` of the displacement from `from` to `to`.
pub open spec fn displacement(from: [i64; 2], to: [i64; 2], axis: int) -> int {
    to[axis] - from[axis]
}

/// Squared distance between two positions, never below the softening floor
/// of one squared unit of length.
pub open spec fn softened_square(from: [i64; 2], to: [i64; 2]) -> int {
    let dx = displacement(from, to, 0);
    let dy = displacement(from, to, 1);
    let sq = dx * dx + dy * dy;
    if sq < SCALE * SCALE {
        SCALE * SCALE
    } else {
        sq
    }
}

/// Component `axis` of the pull that a point of mass `source_mass` at
/// `to` exerts on a point of mass `mass` at `from`.
pub open spec fn attraction(
    from: [i64; 2],
    mass: int,
    to: [i64; 2],
    source_mass: int,
    axis: int,
) -> int {
    let soft = softened_square(from, to);
    div_toward_zero(
        GRAVIT_CONST * mass * source_mass * displacement(from, to, axis),
        soft * floor_sqrt(soft),
    )
}

/// Component `axis` of the gravitational force that `p2` exerts on `p1`.
pub open spec fn gravity(p1: Particle, p2: Particle, axis: int) -> int {
    attraction(p1.position, p1.mass as int, p2.position, p2.mass as int, axis)
}

/// The softened squared distance is at least one squared unit; its square
/// root is at least one unit and at least as large as the displacement
/// along either axis; and it is the same in both directions.
pub proof fn lemma_softened_square_facts(from: [i64; 2], to: [i64; 2], axis: int)
    requires
        axis == 0 || axis == 1,
    ensures
        SCALE * SCALE <= softened_square(from, to),
        is_floor_sqrt(softened_square(from, to), floor_sqrt(softened_square(from, to))),
        SCALE <= floor_sqrt(softened_square(from, to)),
        magnitude(displacement(from, to, axis)) <= floor_sqrt(softened_square(from, to)),
        softened_square(from, to) == softened_square(to, from),
{
    let soft = softened_square(from, to);
    let dx = displacement(from, to, 0);
    let dy = displacement(from, to, 1);
    let d = magnitude(displacement(from, to, axis));
    let r = floor_sqrt(soft);
    assert(dx * dx >= 0 && dy * dy >= 0) by (nonlinear_arith);
    assert(dx * dx == (-dx) * (-dx) && dy * dy == (-dy) * (-dy)) by (nonlinear_arith);
    lemma_floor_sqrt_exists(soft);
    assert(d * d <= soft) by (nonlinear_arith)
        requires
            d * d == dx * dx || d * d == dy * dy,
            dx * dx >= 0,
            dy * dy >= 0,
            dx * dx + dy * dy <= soft,
    {
    }
    if r < d {
        assert((r + 1) * (r + 1) <= d * d) by (nonlinear_arith)
            requires
                0 <= r,
                r + 1 <= d,
        ;
    }
    if r < SCALE {
        assert((r + 1) * (r + 1) <= SCALE * SCALE) by (nonlinear_arith)
            requires
                0 <= r,
                r + 1 <= SCALE,
        ;
    }
}

/// The force between two particles is antisymmetric: what `p2` exerts on
/// `p1` is the exact opposite of what `p1` exerts on `p2`.
pub proof fn lemma_gravity_antisymmetric(p1: Particle, p2: Particle, axis: int)
    requires
        axis == 0 || axis == 1,
    ensures
        gravity(p1, p2, axis) == -gravity(p2, p1, axis),
{
    let soft = softened_square(p1.position, p2.position);
    lemma_softened_square_facts(p1.position, p2.position, axis);
    let den = soft * floor_sqrt(soft);
    assert(den > 0) by (nonlinear_arith)
        requires
            den == soft * floor_sqrt(soft),
            soft > 0,
            floor_sqrt(soft) > 0,
    ;
    let d = displacement(p1.position, p2.position, axis);
    let num = GRAVIT_CONST * p1.mass * p2.mass * d;
    assert(GRAVIT_CONST * p2.mass * p1.mass * (-d) == -num) by (nonlinear_arith)
        requires
            num == GRAVIT_CONST * p1.mass * p2.mass * d,
    ;
    assert(displacement(p2.position, p1.position, axis) == -d);
    lemma_div_toward_zero_odd(num, den);
}

/// The pull between two points of positive mass is bounded by the product
/// of the masses: `|attraction| * SCALE^2 <= G * mass * source_mass`.
pub proof fn lemma_attraction_bounded(
    from: [i64; 2],
    mass: int,
    to: [i64; 2],
    source_mass: int,
    axis: int,
)
    requires
        axis == 0 || axis == 1,
        0 <= mass,
        0 <= source_mass,
    ensures
        magnitude(attraction(from, mass, to, source_mass, axis)) * (SCALE * SCALE) <= GRAVIT_CONST
            * mass * source_mass,
{
    let soft = softened_square(from, to);
    let r = floor_sqrt(soft);
    lemma_softened_square_facts(from, to, axis);
    let d = displacement(from, to, axis);
    let c = GRAVIT_CONST * mass * source_mass;
    let num = c * d;
    let den = soft * r;
    let q = magnitude(num) / den;
    assert(c >= 0) by (nonlinear_arith)
        requires
            c == GRAVIT_CONST * mass * source_mass,
            mass >= 0,
            source_mass >= 0,
    ;
    assert(den > 0) by (nonlinear_arith)
        requires
            den == soft * r,
            soft > 0,
            r > 0,
    ;
    assert(magnitude(num) == c * magnitude(d)) by (nonlinear_arith)
        requires
            num == c * d,
            c >= 0,
    ;
    // q * soft * r <= c * |d| <= c * r, hence q * soft <= c.
    assert(q * den <= magnitude(num)) by (nonlinear_arith)
        requires
            q == magnitude(num) / den,
            den > 0,
            magnitude(num) >= 0,
    ;
    assert(q >= 0) by (nonlinear_arith)
        requires
            q == magnitude(num) / den,
            den > 0,
            magnitude(num) >= 0,
    ;
    assert(q * soft <= c) by (nonlinear_arith)
        requires
            q * den <= c * magnitude(d),
            den == soft * r,
            magnitude(d) <= r,
            r > 0,
            c >= 0,
            q >= 0,
            soft > 0,
    ;
    assert(q * (SCALE * SCALE) <= q * soft) by (nonlinear_arith)
        requires
            q >= 0,
            SCALE * SCALE <= soft,
    ;
    assert(magnitude(div_toward_zero(num, den)) == q);
}

/// One component of the force between two valid particles is at most
/// `PAIR_FORCE_LIMIT` in magnitude.
pub proof fn lemma_gravity_bounded(p1: Particle, p2: Particle, axis: int)
    requires
        axis == 0 || axis == 1,
        p1.valid(),
        p2.valid(),
    ensures
        magnitude(gravity(p1, p2, axis)) <= PAIR_FORCE_LIMIT,
{
    lemma_attraction_bounded(p1.position, p1.mass as int, p2.position, p2.mass as int, axis);
    let f = magnitude(gravity(p1, p2, axis));
    let m1 = p1.mass as int;
    let m2 = p2.mass as int;
    assert(GRAVIT_CONST * m1 * m2 <= GRAVIT_CONST * LIMIT * LIMIT) by (nonlinear_arith)
        requires
            0 < m1 <= LIMIT,
            0 < m2 <= LIMIT,
    ;
    assert(GRAVIT_CONST * LIMIT * LIMIT == PAIR_FORCE_LIMIT * (SCALE * SCALE));
}

/// Computes the gravitational force that `p2` exerts on `p1`.
///
/// The squared distance is raised to one squared unit of length when the
/// particles are closer than that, so the force stays bounded even when the
/// two positions coincide.
pub fn compute_gravity(p1: &Particle, p2: &Particle) -> (force: [i128; 2])
    requires
        p1.valid(),
        p2.valid(),
    ensures
        force[0] == gravity(*p1, *p2, 0),
        force[1] == gravity(*p1, *p2, 1),
{
    compute_attraction(&p1.position, p1.mass as i128, &p2.position, p2.mass as i128)
}

/// Computes the pull that a point of mass `source_mass` at `to` exerts on a
/// point of mass `mass` at `from`.
pub fn compute_attraction(
    from: &[i64; 2],
    mass: i128,
    to: &[i64; 2],
    source_mass: i128,
) -> (force: [i128; 2])
    requires
        crate::fixed::in_range(from[0] as int),
        crate::fixed::in_range(from[1] as int),
        crate::fixed::in_range(to[0] as int),
        crate::fixed::in_range(to[1] as int),
        0 <= mass <= LIMIT,
        0 <= source_mass <= MASS_CAPACITY,
    ensures
        force[0] == attraction(*from, mass as int, *to, source_mass as int, 0),
        force[1] == attraction(*from, mass as int, *to, source_mass as int, 1),
{
    let dx: i128 = to[0] as i128 - from[0] as i128;
    let dy: i128 = to[1] as i128 - from[1] as i128;
    assert(0 <= dx * dx <= 0x1_0000_0000 * 0x1_0000_0000) by (nonlinear_arith)
        requires
            -0x1_0000_0000 <= dx <= 0x1_0000_0000,
    ;
    assert(0 <= dy * dy <= 0x1_0000_0000 * 0x1_0000_0000) by (nonlinear_arith)
        requires
            -0x1_0000_0000 <= dy <= 0x1_0000_0000,
    ;
    let sq: i128 = dx * dx + dy * dy;
    assert(SCALE * SCALE == 1048576) by (nonlinear_arith)
        requires
            SCALE == 1024,
    ;
    let floor: i128 = SCALE as i128 * SCALE as i128;
    let soft: i128 = if sq < floor {
        floor
    } else {
        sq
    };
    assert(soft == softened_square(*from, *to));
    let dist: i128 = integer_sqrt(soft as u128) as i128;
    proof {
        lemma_softened_square_facts(*from, *to, 0);
        lemma_softened_square_facts(*from, *to, 1);
        lemma_floor_sqrt_below(soft as int, 0x100_0000_0000);
    }
    assert(0 < soft * dist <= 0x2_0000_0000_0000_0000 * 0x100_0000_0000) by (nonlinear_arith)
        requires
            0 < soft <= 0x2_0000_0000_0000_0000,
            0 < dist <= 0x100_0000_0000,
    ;
    let den: i128 = soft * dist;
    assert(0 <= GRAVIT_CONST * mass <= GRAVIT_CONST * LIMIT) by (nonlinear_arith)
        requires
            0 <= mass <= LIMIT,
    ;
    let gm: i128 = GRAVIT_CONST as i128 * mass;
    assert(0 <= gm * source_mass <= (GRAVIT_CONST * LIMIT) * MASS_CAPACITY) by (nonlinear_arith)
        requires
            0 <= gm <= GRAVIT_CONST * LIMIT,
            0 <= source_mass <= MASS_CAPACITY,
    ;
    let coeff: i128 = gm * source_mass;
    assert(-(GRAVIT_CONST * LIMIT * MASS_CAPACITY * 0x1_0000_0000) <= coeff * dx <= GRAVIT_CONST
        * LIMIT * MASS_CAPACITY * 0x1_0000_0000) by (nonlinear_arith)
        requires
            0 <= coeff <= GRAVIT_CONST * LIMIT * MASS_CAPACITY,
            -0x1_0000_0000 <= dx <= 0x1_0000_0000,
    ;
    assert(-(GRAVIT_CONST * LIMIT * MASS_CAPACITY * 0x1_0000_0000) <= coeff * dy <= GRAVIT_CONST
        * LIMIT * MASS_CAPACITY * 0x1_0000_0000) by (nonlinear_arith)
        requires
            0 <= coeff <= GRAVIT_CONST * LIMIT * MASS_CAPACITY,
            -0x1_0000_0000 <= dy <= 0x1_0000_0000,
    ;
    let fx: i128 = divide_toward_zero(coeff * dx, den);
    let fy: i128 = divide_toward_zero(coeff * dy, den);
    [fx, fy]
}

} // verus!
