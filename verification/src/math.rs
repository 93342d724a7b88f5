//! Integer helpers for the fixed-point arithmetic: truncating division and
//! the floor of the square root.

use vstd::prelude::*;
use vstd::arithmetic::div_mod::lemma_div_is_ordered;
use vstd::arithmetic::div_mod::lemma_div_pos_is_pos;
use vstd::arithmetic::div_mod::lemma_div_multiples_vanish;

verus! {

/// Truncating (round-toward-zero) signed division by a positive divisor,
/// the rounding used throughout the collision arithmetic.
pub open spec fn tdiv(a: int, b: int) -> int {
    if a >= 0 {
        a / b
    } else {
        -((-a) / b)
    }
}

/// `tdiv(a, b)` stays within `[-c, c]` whenever `|a| <= c * b`.
pub proof fn lemma_tdiv_bound(a: int, b: int, c: int)
    requires
        1 <= b,
        0 <= c,
        -(c * b) <= a <= c * b,
    ensures
        -c <= tdiv(a, b) <= c,
{
    assert(c * b == b * c) by (nonlinear_arith);
    lemma_div_multiples_vanish(c, b);
    if a >= 0 {
        lemma_div_pos_is_pos(a, b);
        lemma_div_is_ordered(a, b * c, b);
    } else {
        lemma_div_pos_is_pos(-a, b);
        lemma_div_is_ordered(-a, b * c, b);
    }
}

/// Truncating division of `a` by a positive divisor `b`.
pub fn tdiv64(a: i64, b: i64) -> (r: i64)
    requires
        1 <= b,
        -i64::MAX <= a,
    ensures
        r == tdiv(a as int, b as int),
{
    if a >= 0 {
        proof {
            lemma_div_pos_is_pos(a as int, b as int);
            lemma_div_is_ordered(a as int, i64::MAX as int, b as int);
            vstd::arithmetic::div_mod::lemma_div_nonincreasing(a as int, b as int);
        }
        ((a as u64) / (b as u64)) as i64
    } else {
        let m: u64 = (-a) as u64;
        proof {
            lemma_div_pos_is_pos(m as int, b as int);
            vstd::arithmetic::div_mod::lemma_div_nonincreasing(m as int, b as int);
        }
        -((m / (b as u64)) as i64)
    }
}

/// Truncating division of `a` by a positive divisor `b`, on wide integers.
pub fn tdiv128(a: i128, b: i128) -> (r: i128)
    requires
        1 <= b,
        -i128::MAX <= a,
    ensures
        r == tdiv(a as int, b as int),
{
    if a >= 0 {
        proof {
            lemma_div_pos_is_pos(a as int, b as int);
            vstd::arithmetic::div_mod::lemma_div_nonincreasing(a as int, b as int);
        }
        ((a as u128) / (b as u128)) as i128
    } else {
        let m: u128 = (-a) as u128;
        proof {
            lemma_div_pos_is_pos(m as int, b as int);
            vstd::arithmetic::div_mod::lemma_div_nonincreasing(m as int, b as int);
        }
        -((m / (b as u128)) as i128)
    }
}

/// `r` is the floor of the square root of `n`.
pub open spec fn is_sqrt_floor(n: int, r: int) -> bool {
    0 <= r && r * r <= n && n < (r + 1) * (r + 1)
}

/// The floor of the square root of a non-negative integer.
pub open spec fn sqrt_floor(n: int) -> int {
    choose|r: int| is_sqrt_floor(n, r)
}

/// The floor of the square root is unique, so any witness pins `sqrt_floor` down.
pub proof fn lemma_sqrt_floor_unique(n: int, r: int)
    requires
        is_sqrt_floor(n, r),
    ensures
        sqrt_floor(n) == r,
{
    assert(is_sqrt_floor(n, sqrt_floor(n))) by {
        assert(is_sqrt_floor(n, r));
    }
    let r2 = sqrt_floor(n);
    if r2 < r {
        assert((r2 + 1) * (r2 + 1) <= r * r) by (nonlinear_arith)
            requires
                0 <= r2,
                r2 < r,
        ;
        assert(false);
    }
    if r < r2 {
        assert((r + 1) * (r + 1) <= r2 * r2) by (nonlinear_arith)
            requires
                0 <= r,
                r < r2,
        ;
        assert(false);
    }
}

/// Every non-negative integer has a square-root floor, so `sqrt_floor`
/// denotes a genuine witness.
pub proof fn lemma_sqrt_floor_exists(n: int)
    requires
        0 <= n,
    ensures
        is_sqrt_floor(n, sqrt_floor(n)),
    decreases n,
{
    if n == 0 {
        assert(is_sqrt_floor(0, 0));
    } else {
        lemma_sqrt_floor_exists(n - 1);
        let r = sqrt_floor(n - 1);
        if n < (r + 1) * (r + 1) {
            assert(is_sqrt_floor(n, r));
        } else {
            assert((r + 2) * (r + 2) > (r + 1) * (r + 1)) by (nonlinear_arith)
                requires
                    0 <= r,
            ;
            assert(is_sqrt_floor(n, r + 1));
        }
    }
    assert(exists|r: int| is_sqrt_floor(n, r));
    assert(is_sqrt_floor(n, choose|r: int| is_sqrt_floor(n, r)));
}

/// A square below `n` has its root below `sqrt_floor(n)`; used to bound the
/// components of a difference vector by the vector's length.
pub proof fn lemma_sqrt_floor_bounds_component(n: int, r: int, c: int)
    requires
        is_sqrt_floor(n, r),
        0 <= c,
        c * c <= n,
    ensures
        c <= r,
{
    if c > r {
        assert((r + 1) * (r + 1) <= c * c) by (nonlinear_arith)
            requires
                0 <= r,
                r < c,
        ;
        assert(false);
    }
}

/// The `n`-th power of five; the collision sweep uses it to budget how fast
/// velocity components can grow over a sequence of collisions.
pub open spec fn pow5(n: nat) -> int
    decreases n,
{
    if n == 0 {
        1
    } else {
        5 * pow5((n - 1) as nat)
    }
}

pub proof fn lemma_pow5_pos(n: nat)
    ensures
        pow5(n) >= 1,
    decreases n,
{
    if n > 0 {
        lemma_pow5_pos((n - 1) as nat);
    }
}

pub proof fn lemma_pow5_mono(a: nat, b: nat)
    requires
        a <= b,
    ensures
        pow5(a) <= pow5(b),
    decreases b,
{
    if a < b {
        lemma_pow5_mono(a, (b - 1) as nat);
        lemma_pow5_pos((b - 1) as nat);
    }
}

/// Floor of the square root, by binary search.
pub fn isqrt(n: u128) -> (r: u64)
    requires
        n < 0x1000_0000_0000_0000_0000_0000_0000_0000u128,
    ensures
        is_sqrt_floor(n as int, r as int),
        r == sqrt_floor(n as int),
{
    let mut lo: u128 = 0;
    let mut hi: u128 = 0x4000_0000_0000_0000u128;
    proof {
        assert((0x4000_0000_0000_0000 as int) * (0x4000_0000_0000_0000 as int)
            == 0x1000_0000_0000_0000_0000_0000_0000_0000 as int);
    }
    while hi - lo > 1
        invariant
            lo < hi <= 0x4000_0000_0000_0000u128,
            (lo as int) * (lo as int) <= n as int,
            (n as int) < (hi as int) * (hi as int),
        decreases hi - lo,
    {
        let mid: u128 = lo + (hi - lo) / 2;
        proof {
            assert((mid as int) * (mid as int)
                <= 0x1000_0000_0000_0000_0000_0000_0000_0000 as int) by (nonlinear_arith)
                requires
                    0 <= mid <= 0x4000_0000_0000_0000,
            ;
        }
        if mid * mid <= n {
            lo = mid;
        } else {
            hi = mid;
        }
    }
    proof {
        lemma_sqrt_floor_unique(n as int, lo as int);
    }
    lo as u64
}

} // verus!
