//! Fixed-point arithmetic shared by the whole library.
//!
//! Every physical quantity (a coordinate, a velocity component, a mass, a
//! time step, an opening angle) is stored as a signed integer that counts
//! multiples of `1 / SCALE`.  Stored quantities never exceed `LIMIT` in
//! magnitude, which keeps every intermediate product inside 128 bits.
use vstd::prelude::*;

verus! {

/// Number of stored units that make up the value one.
pub const SCALE: i64 = 1024;

/// Largest magnitude a stored quantity may have.
pub const LIMIT: i64 = 2147483648;

/// A stored quantity is in range when its magnitude is at most `LIMIT`.
pub open spec fn in_range(v: int) -> bool {
    -(LIMIT as int) <= v <= LIMIT as int
}

/// Tells whether a stored quantity is in range.
pub fn stored_in_range(v: i64) -> (ok: bool)
    ensures
        ok == in_range(v as int),
{
    -LIMIT <= v && v <= LIMIT
}

/// The magnitude of an integer.
pub open spec fn magnitude(v: int) -> int {
    if v < 0 {
        -v
    } else {
        v
    }
}

/// Quotient of `a` by a positive `b`, rounded toward zero.
pub open spec fn div_toward_zero(a: int, b: int) -> int
    recommends
        b > 0,
{
    if a < 0 {
        -((-a) / b)
    } else {
        a / b
    }
}

/// `r` is the integer square root of `n`: the largest integer whose square
/// does not exceed `n`.
pub open spec fn is_floor_sqrt(n: int, r: int) -> bool {
    0 <= r && r * r <= n && n < (r + 1) * (r + 1)
}

/// The integer square root of a non-negative `n`.
pub open spec fn floor_sqrt(n: int) -> int {
    choose|r: int| is_floor_sqrt(n, r)
}

/// At most one integer is the integer square root of `n`.
pub proof fn lemma_floor_sqrt_unique(n: int, r1: int, r2: int)
    requires
        is_floor_sqrt(n, r1),
        is_floor_sqrt(n, r2),
    ensures
        r1 == r2,
{
    if r1 < r2 {
        assert((r1 + 1) * (r1 + 1) <= r2 * r2) by (nonlinear_arith)
            requires
                0 <= r1,
                r1 + 1 <= r2,
        ;
    }
    if r2 < r1 {
        assert((r2 + 1) * (r2 + 1) <= r1 * r1) by (nonlinear_arith)
            requires
                0 <= r2,
                r2 + 1 <= r1,
        ;
    }
}

/// Every non-negative integer has an integer square root.
pub proof fn lemma_floor_sqrt_exists(n: int)
    requires
        0 <= n,
    ensures
        is_floor_sqrt(n, floor_sqrt(n)),
    decreases n,
{
    if n == 0 {
        assert(is_floor_sqrt(0, 0));
    } else {
        lemma_floor_sqrt_exists(n - 1);
        let r = floor_sqrt(n - 1);
        if (r + 1) * (r + 1) <= n {
            assert(n < (r + 2) * (r + 2)) by (nonlinear_arith)
                requires
                    n - 1 < (r + 1) * (r + 1),
                    0 <= r,
            ;
            assert(is_floor_sqrt(n, r + 1));
        } else {
            assert(is_floor_sqrt(n, r));
        }
    }
}

/// Any witness of `is_floor_sqrt` is the integer square root.
pub proof fn lemma_floor_sqrt_is(n: int, r: int)
    requires
        is_floor_sqrt(n, r),
    ensures
        floor_sqrt(n) == r,
{
    lemma_floor_sqrt_unique(n, r, floor_sqrt(n));
}

/// Division toward zero is an odd function of the dividend.
pub proof fn lemma_div_toward_zero_odd(a: int, b: int)
    requires
        b > 0,
    ensures
        div_toward_zero(-a, b) == -div_toward_zero(a, b),
{
    if a == 0 {
        assert(0int / b == 0) by (nonlinear_arith)
            requires
                b > 0,
        ;
    }
}

/// The magnitude of a quotient is the quotient of the magnitude, and it is
/// bounded by any `c` with `|a| <= c * b`.
pub proof fn lemma_div_toward_zero_bound(a: int, b: int, c: int)
    requires
        b > 0,
        c >= 0,
        magnitude(a) <= c * b,
    ensures
        magnitude(div_toward_zero(a, b)) == magnitude(a) / b,
        magnitude(div_toward_zero(a, b)) <= c,
{
    let m = magnitude(a);
    assert(0 <= m / b <= c) by (nonlinear_arith)
        requires
            b > 0,
            c >= 0,
            0 <= m <= c * b,
    ;
}

/// Computes the quotient of `a` by `b`, rounded toward zero.
pub fn divide_toward_zero(a: i128, b: i128) -> (q: i128)
    requires
        b > 0,
    ensures
        q == div_toward_zero(a as int, b as int),
{
    if a == i128::MIN {
        // The magnitude of `a` does not fit: take one `b` out of it first.
        if b == 1 {
            return a;
        }
        let rest: i128 = i128::MAX - b + 1;
        let d: i128 = rest / b;
        assert(0 <= d <= rest && (rest + b) / (b as int) == d + 1) by (nonlinear_arith)
            requires
                d == rest / b,
                rest >= 0,
                b > 0,
        ;
        -(d + 1)
    } else if a < 0 {
        let m: i128 = -a;
        let d: i128 = m / b;
        assert(0 <= d <= m) by (nonlinear_arith)
            requires
                d == m / b,
                m >= 0,
                b > 0,
        ;
        -d
    } else {
        a / b
    }
}

/// Computes the integer square root of `n`.
pub fn integer_sqrt(n: u128) -> (r: u128)
    ensures
        is_floor_sqrt(n as int, r as int),
        r == floor_sqrt(n as int),
{
    let mut lo: u128 = 0;
    let mut hi: u128 = 0x1_0000_0000_0000_0000;
    assert(0x1_0000_0000_0000_0000int * 0x1_0000_0000_0000_0000int
        == 0x1_0000_0000_0000_0000_0000_0000_0000_0000int);
    while hi - lo > 1
        invariant
            lo < hi <= 0x1_0000_0000_0000_0000,
            lo * lo <= n,
            n < hi * hi,
        decreases hi - lo,
    {
        let mid: u128 = lo + (hi - lo) / 2;
        assert(mid * mid <= 0xffff_ffff_ffff_ffff * 0xffff_ffff_ffff_ffff) by (nonlinear_arith)
            requires
                0 <= mid <= 0xffff_ffff_ffff_ffff,
        ;
        if mid * mid <= n {
            lo = mid;
        } else {
            hi = mid;
        }
    }
    proof {
        lemma_floor_sqrt_is(n as int, lo as int);
    }
    lo
}

/// The integer square root grows with its argument: below a square it stays
/// below the root of that square.
pub proof fn lemma_floor_sqrt_below(n: int, bound: int)
    requires
        0 <= n < bound * bound,
        0 <= bound,
    ensures
        floor_sqrt(n) < bound,
{
    lemma_floor_sqrt_exists(n);
    let r = floor_sqrt(n);
    if r >= bound {
        assert(bound * bound <= r * r) by (nonlinear_arith)
            requires
                0 <= bound <= r,
        ;
    }
}

} // verus!
