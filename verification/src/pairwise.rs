//! The exact pairwise sum of forces, and its split into rows that can be
//! handed to independent workers.
//!
//! Row `r` of the pairwise computation visits every pair `(r, j)` with
//! `r < j`; it adds the force to the sum of particle `r` and takes it away
//! from the sum of particle `j`.  A worker owns the rows whose index,
//! reduced modulo a stride, falls in a band of residues.
use vstd::prelude::*;
use vstd::arithmetic::div_mod::{
    lemma_mod_add_multiples_vanish, lemma_mod_equivalence, lemma_small_mod,
};
use crate::fixed::magnitude;
use crate::forces::{
    compute_gravity, gravity, lemma_gravity_antisymmetric, lemma_gravity_bounded,
    lemma_softened_square_facts, PAIR_FORCE_LIMIT,
};
use crate::particle::{all_valid, Particle};

verus! {

/// Sum over `lo <= j < hi` of the force that particle `j` exerts on
/// particle `k`.
pub open spec fn pull_sum(ps: Seq<Particle>, k: int, lo: int, hi: int, axis: int) -> int
    decreases hi - lo,
{
    if hi <= lo {
        0
    } else {
        pull_sum(ps, k, lo, hi - 1, axis) + gravity(ps[k], ps[hi - 1], axis)
    }
}

/// The net force on particle `k`: the sum of what every particle exerts on
/// it.  A particle exerts nothing on itself.
pub open spec fn net_force(ps: Seq<Particle>, k: int, axis: int) -> int {
    pull_sum(ps, k, 0, ps.len() as int, axis)
}

/// What row `row` adds to the sum of particle `k`.
pub open spec fn row_share(ps: Seq<Particle>, row: int, k: int, axis: int) -> int {
    if k < row {
        0
    } else if k == row {
        pull_sum(ps, row, row, ps.len() as int, axis)
    } else {
        gravity(ps[k], ps[row], axis)
    }
}

/// What the rows below `rows` whose index modulo `stride` lies in
/// `lo..hi` add to the sum of particle `k`.
pub open spec fn band_share(
    ps: Seq<Particle>,
    k: int,
    stride: int,
    lo: int,
    hi: int,
    rows: int,
    axis: int,
) -> int
    decreases rows,
{
    if rows <= 0 {
        0
    } else {
        band_share(ps, k, stride, lo, hi, rows - 1, axis) + if lo <= (rows - 1) % stride < hi {
            row_share(ps, rows - 1, k, axis)
        } else {
            0
        }
    }
}

/// What the part of row `row` up to column `col` adds to the sum of
/// particle `k`.
pub open spec fn row_prefix(ps: Seq<Particle>, row: int, col: int, k: int, axis: int) -> int {
    if k == row {
        pull_sum(ps, row, row, col, axis)
    } else if row < k < col {
        gravity(ps[k], ps[row], axis)
    } else {
        0
    }
}

/// The sums hold, for every particle, what the band's rows below `row` and
/// the part of row `row` up to column `col` add up to.
pub open spec fn sums_at(
    sums: Seq<[i128; 2]>,
    ps: Seq<Particle>,
    stride: int,
    lo: int,
    hi: int,
    row: int,
    col: int,
) -> bool {
    &&& sums.len() == ps.len()
    &&& forall|k: int|
        0 <= k < ps.len() ==> {
            &&& (#[trigger] sums[k])[0] == band_share(ps, k, stride, lo, hi, row, 0) + row_prefix(
                ps,
                row,
                col,
                k,
                0,
            )
            &&& sums[k][1] == band_share(ps, k, stride, lo, hi, row, 1) + row_prefix(
                ps,
                row,
                col,
                k,
                1,
            )
        }
}

/// The sums hold, for every particle, what the band's rows add up to.
pub open spec fn sums_are(sums: Seq<[i128; 2]>, ps: Seq<Particle>, stride: int, lo: int, hi: int)
    -> bool {
    &&& sums.len() == ps.len()
    &&& forall|k: int|
        0 <= k < ps.len() ==> {
            &&& (#[trigger] sums[k])[0] == band_share(ps, k, stride, lo, hi, ps.len() as int, 0)
            &&& sums[k][1] == band_share(ps, k, stride, lo, hi, ps.len() as int, 1)
        }
}

/// Every entry is the zero vector.
pub open spec fn all_zero(sums: Seq<[i128; 2]>) -> bool {
    forall|k: int| 0 <= k < sums.len() ==> (#[trigger] sums[k])[0] == 0 && sums[k][1] == 0
}

/// The sums hold the net force on every particle.
pub open spec fn sums_are_net(sums: Seq<[i128; 2]>, ps: Seq<Particle>) -> bool {
    &&& sums.len() == ps.len()
    &&& forall|k: int|
        0 <= k < ps.len() ==> {
            &&& (#[trigger] sums[k])[0] == net_force(ps, k, 0)
            &&& sums[k][1] == net_force(ps, k, 1)
        }
}

/// A particle exerts no force on itself.
pub proof fn lemma_gravity_self_zero(p: Particle, axis: int)
    requires
        axis == 0 || axis == 1,
    ensures
        gravity(p, p, axis) == 0,
{
    lemma_softened_square_facts(p.position, p.position, axis);
    let soft = crate::forces::softened_square(p.position, p.position);
    let den = soft * crate::fixed::floor_sqrt(soft);
    assert(den > 0) by (nonlinear_arith)
        requires
            den == soft * crate::fixed::floor_sqrt(soft),
            soft > 0,
            crate::fixed::floor_sqrt(soft) > 0,
    ;
    assert(crate::forces::GRAVIT_CONST * p.mass * p.mass * 0 == 0);
    assert(0int / den == 0) by (nonlinear_arith)
        requires
            den > 0,
    ;
}

/// A sum over a range is the sum over its two parts.
pub proof fn lemma_pull_sum_split(ps: Seq<Particle>, k: int, lo: int, mid: int, hi: int, axis: int)
    requires
        lo <= mid <= hi,
    ensures
        pull_sum(ps, k, lo, hi, axis) == pull_sum(ps, k, lo, mid, axis) + pull_sum(
            ps,
            k,
            mid,
            hi,
            axis,
        ),
    decreases hi - mid,
{
    if mid < hi {
        lemma_pull_sum_split(ps, k, lo, mid, hi - 1, axis);
    }
}

/// A sum of pulls over a range is bounded by the length of the range.
pub proof fn lemma_pull_sum_bounded(ps: Seq<Particle>, k: int, lo: int, hi: int, axis: int)
    requires
        axis == 0 || axis == 1,
        all_valid(ps),
        0 <= k < ps.len(),
        0 <= lo <= hi <= ps.len(),
    ensures
        magnitude(pull_sum(ps, k, lo, hi, axis)) <= (hi - lo) * PAIR_FORCE_LIMIT,
    decreases hi - lo,
{
    if lo < hi {
        lemma_pull_sum_bounded(ps, k, lo, hi - 1, axis);
        lemma_gravity_bounded(ps[k], ps[hi - 1], axis);
        assert((hi - lo) * PAIR_FORCE_LIMIT == (hi - 1 - lo) * PAIR_FORCE_LIMIT + PAIR_FORCE_LIMIT)
            by (nonlinear_arith);
    } else {
        assert((hi - lo) * PAIR_FORCE_LIMIT == 0) by (nonlinear_arith)
            requires
                hi == lo,
        ;
    }
}

/// What a band's rows add to one sum is bounded: by the number of rows
/// while they lie below the particle, and by the number of particles in
/// any case.
pub proof fn lemma_band_share_bounded(
    ps: Seq<Particle>,
    k: int,
    stride: int,
    lo: int,
    hi: int,
    rows: int,
    axis: int,
)
    requires
        axis == 0 || axis == 1,
        all_valid(ps),
        0 <= k < ps.len(),
        0 <= rows <= ps.len(),
    ensures
        rows <= k ==> magnitude(band_share(ps, k, stride, lo, hi, rows, axis)) <= rows
            * PAIR_FORCE_LIMIT,
        magnitude(band_share(ps, k, stride, lo, hi, rows, axis)) <= ps.len() * PAIR_FORCE_LIMIT,
    decreases rows,
{
    let n = ps.len() as int;
    let limit = PAIR_FORCE_LIMIT as int;
    if rows > 0 {
        let r = rows - 1;
        lemma_band_share_bounded(ps, k, stride, lo, hi, r, axis);
        let before = band_share(ps, k, stride, lo, hi, r, axis);
        if r < k {
            lemma_gravity_bounded(ps[k], ps[r], axis);
            assert(rows * limit == r * limit + limit) by (nonlinear_arith)
                requires
                    rows == r + 1,
            ;
            assert(rows * limit <= n * limit) by (nonlinear_arith)
                requires
                    rows <= n,
                    limit >= 0,
            ;
        } else if r == k {
            lemma_pull_sum_bounded(ps, k, k, n, axis);
            assert(k * limit + (n - k) * limit == n * limit) by (nonlinear_arith);
        }
    } else {
        assert(0 <= n * limit) by (nonlinear_arith)
            requires
                n >= 0,
                limit >= 0,
        ;
        assert(rows * limit == 0) by (nonlinear_arith)
            requires
                rows == 0,
        ;
    }
}

/// While a row is being visited every sum stays bounded by the number of
/// particles.
pub proof fn lemma_row_prefix_bounded(
    ps: Seq<Particle>,
    stride: int,
    lo: int,
    hi: int,
    row: int,
    col: int,
    k: int,
    axis: int,
)
    requires
        axis == 0 || axis == 1,
        all_valid(ps),
        0 <= k < ps.len(),
        0 <= row < col <= ps.len(),
    ensures
        magnitude(
            band_share(ps, k, stride, lo, hi, row, axis) + row_prefix(ps, row, col, k, axis),
        ) <= ps.len() * PAIR_FORCE_LIMIT,
{
    let n = ps.len() as int;
    let limit = PAIR_FORCE_LIMIT as int;
    lemma_band_share_bounded(ps, k, stride, lo, hi, row, axis);
    if k == row {
        lemma_pull_sum_bounded(ps, row, row, col, axis);
        assert(row * limit + (col - row) * limit <= n * limit) by (nonlinear_arith)
            requires
                col <= n,
                limit >= 0,
        ;
    } else if row < k < col {
        lemma_gravity_bounded(ps[k], ps[row], axis);
        assert(row * limit + limit <= n * limit) by (nonlinear_arith)
            requires
                row + 1 <= n,
                limit >= 0,
        ;
    }
}

/// Rows outside the band add nothing.
pub proof fn lemma_band_share_skip(
    ps: Seq<Particle>,
    k: int,
    stride: int,
    lo: int,
    hi: int,
    from: int,
    to: int,
    axis: int,
)
    requires
        0 <= from <= to,
        forall|r: int| from <= r < to ==> !(lo <= #[trigger] (r % stride) < hi),
    ensures
        band_share(ps, k, stride, lo, hi, to, axis) == band_share(
            ps,
            k,
            stride,
            lo,
            hi,
            from,
            axis,
        ),
    decreases to - from,
{
    if from < to {
        lemma_band_share_skip(ps, k, stride, lo, hi, from, to - 1, axis);
    }
}

/// Two adjoining bands add up to the band that spans both.
pub proof fn lemma_band_share_join(
    ps: Seq<Particle>,
    k: int,
    stride: int,
    lo: int,
    mid: int,
    hi: int,
    rows: int,
    axis: int,
)
    requires
        lo <= mid <= hi,
    ensures
        band_share(ps, k, stride, lo, hi, rows, axis) == band_share(
            ps,
            k,
            stride,
            lo,
            mid,
            rows,
            axis,
        ) + band_share(ps, k, stride, mid, hi, rows, axis),
    decreases rows,
{
    if rows > 0 {
        lemma_band_share_join(ps, k, stride, lo, mid, hi, rows - 1, axis);
    }
}

/// The empty band adds nothing.
pub proof fn lemma_band_share_empty(
    ps: Seq<Particle>,
    k: int,
    stride: int,
    lo: int,
    rows: int,
    axis: int,
)
    ensures
        band_share(ps, k, stride, lo, lo, rows, axis) == 0,
    decreases rows,
{
    if rows > 0 {
        lemma_band_share_empty(ps, k, stride, lo, rows - 1, axis);
    }
}

/// The band of all residues, over rows that do not go beyond the
/// particle, adds up to what the particles below those rows exert.
proof fn lemma_full_band_below(ps: Seq<Particle>, k: int, stride: int, rows: int, axis: int)
    requires
        0 < stride,
        0 <= rows <= k,
    ensures
        band_share(ps, k, stride, 0, stride, rows, axis) == pull_sum(ps, k, 0, rows, axis),
    decreases rows,
{
    if rows > 0 {
        lemma_full_band_below(ps, k, stride, rows - 1, axis);
        assert(0 <= (rows - 1) % stride < stride);
    }
}

/// Rows beyond the particle add nothing to its sum.
proof fn lemma_full_band_above(ps: Seq<Particle>, k: int, stride: int, rows: int, axis: int)
    requires
        0 < stride,
        0 <= k < rows,
    ensures
        band_share(ps, k, stride, 0, stride, rows, axis) == band_share(
            ps,
            k,
            stride,
            0,
            stride,
            k + 1,
            axis,
        ),
    decreases rows,
{
    if rows > k + 1 {
        lemma_full_band_above(ps, k, stride, rows - 1, axis);
    }
}

/// Visiting every unordered pair once, adding the force to one particle
/// and taking it from the other, gives every particle its net force: the
/// band of all residues adds up to the net force, whatever the stride.
pub proof fn lemma_full_band_is_net_force(ps: Seq<Particle>, k: int, stride: int, axis: int)
    requires
        axis == 0 || axis == 1,
        0 < stride,
        0 <= k < ps.len(),
    ensures
        band_share(ps, k, stride, 0, stride, ps.len() as int, axis) == net_force(ps, k, axis),
{
    let n = ps.len() as int;
    lemma_full_band_above(ps, k, stride, n, axis);
    lemma_full_band_below(ps, k, stride, k, axis);
    assert(0 <= k % stride < stride);
    lemma_pull_sum_split(ps, k, 0, k, n, axis);
}

/// Between two rows of a band that holds a single residue lie only rows
/// outside the band.
proof fn lemma_next_row(row: int, stride: int, first: int, r: int)
    requires
        0 < stride,
        0 <= row,
        row % stride == first,
        row < r < row + stride,
    ensures
        r % stride != first,
{
    if r % stride == first {
        lemma_mod_equivalence(r, row, stride);
        lemma_small_mod((r - row) as nat, stride as nat);
    }
}

/// Visits the rows `first`, `first + stride`, `first + 2 * stride`, ... of
/// the pairwise computation and adds what they contribute to `sums`, which
/// must start out as zeros.
pub fn accumulate_rows(
    particles: &Vec<Particle>,
    first: usize,
    stride: usize,
    sums: &mut Vec<[i128; 2]>,
)
    requires
        all_valid(particles@),
        first < stride,
        old(sums)@.len() == particles@.len(),
        all_zero(old(sums)@),
    ensures
        sums_are(final(sums)@, particles@, stride as int, first as int, first + 1),
{
    let n = particles.len();
    let ghost ps = particles@;
    let ghost lo = first as int;
    let ghost hi = first + 1;
    let ghost st = stride as int;
    let mut i: usize = if first < n {
        first
    } else {
        n
    };
    proof {
        assert(first as int % st == first as int) by {
            lemma_small_mod(first as nat, stride as nat);
        }
        assert forall|r: int| 0 <= r < i implies !(lo <= #[trigger] (r % st) < hi) by {
            lemma_small_mod(r as nat, stride as nat);
        }
        assert forall|k: int| 0 <= k < n implies band_share(ps, k, st, lo, hi, i as int, 0) == 0
            && band_share(ps, k, st, lo, hi, i as int, 1) == 0 by {
            lemma_band_share_skip(ps, k, st, lo, hi, 0, i as int, 0);
            lemma_band_share_skip(ps, k, st, lo, hi, 0, i as int, 1);
        }
    }
    while i < n
        invariant
            n == particles@.len(),
            ps == particles@,
            lo == first as int,
            hi == first + 1,
            st == stride as int,
            first < stride,
            all_valid(ps),
            i <= n,
            i < n ==> i as int % st == lo,
            sums@.len() == n,
            forall|k: int|
                0 <= k < n ==> {
                    &&& (#[trigger] sums@[k])[0] == band_share(ps, k, st, lo, hi, i as int, 0)
                    &&& sums@[k][1] == band_share(ps, k, st, lo, hi, i as int, 1)
                },
        decreases n - i,
    {
        let mut j: usize = i + 1;
        proof {
            lemma_gravity_self_zero(ps[i as int], 0);
            lemma_gravity_self_zero(ps[i as int], 1);
            assert(pull_sum(ps, i as int, i as int, i as int, 0) == 0);
            assert(pull_sum(ps, i as int, i as int, i as int, 1) == 0);
        }
        while j < n
            invariant
                n == particles@.len(),
                ps == particles@,
                all_valid(ps),
                i < j <= n,
                sums_at(sums@, ps, st, lo, hi, i as int, j as int),
            decreases n - j,
        {
            let force = compute_gravity(&particles[i], &particles[j]);
            proof {
                lemma_gravity_antisymmetric(ps[i as int], ps[j as int], 0);
                lemma_gravity_antisymmetric(ps[i as int], ps[j as int], 1);
                lemma_row_prefix_bounded(ps, st, lo, hi, i as int, j + 1, i as int, 0);
                lemma_row_prefix_bounded(ps, st, lo, hi, i as int, j + 1, i as int, 1);
                lemma_row_prefix_bounded(ps, st, lo, hi, i as int, j + 1, j as int, 0);
                lemma_row_prefix_bounded(ps, st, lo, hi, i as int, j + 1, j as int, 1);
                lemma_count_fits(n as int);
            }
            let at_i = sums[i];
            sums.set(i, [at_i[0] + force[0], at_i[1] + force[1]]);
            let at_j = sums[j];
            sums.set(j, [at_j[0] - force[0], at_j[1] - force[1]]);
            j += 1;
        }
        let ghost done = i as int;
        if n - i <= stride {
            i = n;
        } else {
            i += stride;
        }
        proof {
            assert forall|r: int| done < r < i implies !(lo <= #[trigger] (r % st) < hi) by {
                lemma_next_row(done, st, lo, r);
            }
            assert forall|k: int| 0 <= k < n implies band_share(ps, k, st, lo, hi, i as int, 0)
                == band_share(ps, k, st, lo, hi, done + 1, 0) && band_share(
                ps,
                k,
                st,
                lo,
                hi,
                i as int,
                1,
            ) == band_share(ps, k, st, lo, hi, done + 1, 1) by {
                lemma_band_share_skip(ps, k, st, lo, hi, done + 1, i as int, 0);
                lemma_band_share_skip(ps, k, st, lo, hi, done + 1, i as int, 1);
            }
            if i < n {
                lemma_mod_add_multiples_vanish(done, st);
            }
        }
    }
}

/// As many pair forces as a vector can hold particles add up to less than
/// the largest 128-bit integer.
pub proof fn lemma_count_fits(n: int)
    requires
        0 <= n <= usize::MAX,
    ensures
        n * PAIR_FORCE_LIMIT < 0x4000_0000_0000_0000_0000_0000_0000_0000,
{
    assert(n * PAIR_FORCE_LIMIT <= 0x1_0000_0000_0000_0000 * PAIR_FORCE_LIMIT) by (nonlinear_arith)
        requires
            0 <= n <= 0x1_0000_0000_0000_0000,
            PAIR_FORCE_LIMIT >= 0,
    ;
}

/// Makes a vector of `n` zero vectors.
pub fn zero_sums(n: usize) -> (sums: Vec<[i128; 2]>)
    ensures
        sums@.len() == n,
        all_zero(sums@),
{
    let mut sums: Vec<[i128; 2]> = Vec::new();
    let mut k: usize = 0;
    while k < n
        invariant
            k <= n,
            sums@.len() == k,
            all_zero(sums@),
        decreases n - k,
    {
        sums.push([0, 0]);
        k += 1;
    }
    sums
}

/// Computes the net force on every particle by visiting every unordered pair
/// once.  `sums` must start out as zeros.
pub fn net_forces(particles: &Vec<Particle>, sums: &mut Vec<[i128; 2]>)
    requires
        all_valid(particles@),
        old(sums)@.len() == particles@.len(),
        all_zero(old(sums)@),
    ensures
        sums_are_net(final(sums)@, particles@),
{
    accumulate_rows(particles, 0, 1, sums);
    proof {
        assert forall|k: int| 0 <= k < particles@.len() implies (#[trigger] sums@[k])[0]
            == net_force(particles@, k, 0) && sums@[k][1] == net_force(particles@, k, 1) by {
            lemma_full_band_is_net_force(particles@, k, 1, 0);
            lemma_full_band_is_net_force(particles@, k, 1, 1);
        }
    }
}

} // verus!
