//! Integer helpers: floor division bounds and the floor square root.

use vstd::arithmetic::div_mod::{lemma_div_pos_is_pos, lemma_fundamental_div_mod, lemma_remainder};
use vstd::prelude::*;

verus! {

/// `r` is the floor of the square root of `n`: the largest integer whose
/// square does not exceed `n`.
pub open spec fn is_floor_sqrt(n: nat, r: nat) -> bool {
    r * r <= n && n < (r + 1) * (r + 1)
}

/// The floor of the square root of `n`.
pub open spec fn floor_sqrt(n: nat) -> nat {
    choose|r: nat| is_floor_sqrt(n, r)
}

/// `q` is the quotient of `x` by `d`: the remainder lies in `[0, d)`.
pub proof fn lemma_div_bounds(x: int, d: int)
    requires
        0 <= x,
        0 < d,
    ensures
        0 <= x / d,
        (x / d) * d <= x,
        x < (x / d) * d + d,
{
    lemma_div_pos_is_pos(x, d);
    lemma_remainder(x, d);
    lemma_fundamental_div_mod(x, d);
}

/// A quotient is at most `c` whenever the dividend is at most `c` times the divisor.
pub proof fn lemma_div_le(x: int, d: int, c: int)
    requires
        0 <= x,
        0 < d,
        x <= c * d,
    ensures
        x / d <= c,
{
    lemma_div_bounds(x, d);
    let q = x / d;
    if q > c {
        assert(q * d >= (c + 1) * d) by (nonlinear_arith)
            requires
                q >= c + 1,
                d > 0,
        ;
        assert((c + 1) * d == c * d + d) by (nonlinear_arith);
    }
}

/// A quotient is at least `c` whenever the dividend is at least `c` times the divisor.
pub proof fn lemma_div_ge(x: int, d: int, c: int)
    requires
        0 <= x,
        0 < d,
        c * d <= x,
    ensures
        c <= x / d,
{
    lemma_div_bounds(x, d);
    let q = x / d;
    if q < c {
        assert(q * d + d <= c * d) by (nonlinear_arith)
            requires
                q + 1 <= c,
                d > 0,
        ;
    }
}

/// From the floor square root `h` of `n / 4`, the floor square root of `n`
/// is `2 * h` or `2 * h + 1`.
proof fn lemma_sqrt_step(n: nat, h: nat)
    requires
        n > 0,
        is_floor_sqrt(n / 4, h),
    ensures
        (2 * h) * (2 * h) <= n,
        n < (2 * h + 2) * (2 * h + 2),
{
    lemma_div_bounds(n as int, 4);
    assert((2 * h) * (2 * h) == 4 * (h * h)) by (nonlinear_arith);
    assert((2 * h + 2) * (2 * h + 2) == 4 * ((h + 1) * (h + 1))) by (nonlinear_arith);
}

/// Some integer is the floor square root of `n`.
proof fn lemma_floor_sqrt_exists(n: nat) -> (r: nat)
    ensures
        is_floor_sqrt(n, r),
    decreases n,
{
    if n == 0 {
        assert(is_floor_sqrt(0, 0)) by (nonlinear_arith);
        0
    } else {
        let h = lemma_floor_sqrt_exists(n / 4);
        lemma_sqrt_step(n, h);
        if (2 * h + 1) * (2 * h + 1) <= n {
            (2 * h + 1) as nat
        } else {
            2 * h
        }
    }
}

/// `floor_sqrt(n)` is the largest integer whose square does not exceed `n`.
pub proof fn lemma_floor_sqrt(n: nat)
    ensures
        floor_sqrt(n) * floor_sqrt(n) <= n,
        n < (floor_sqrt(n) + 1) * (floor_sqrt(n) + 1),
{
    let w = lemma_floor_sqrt_exists(n);
    assert(is_floor_sqrt(n, w));
}

/// No other integer than `floor_sqrt(n)` has its square at most `n` and the
/// square of its successor above `n`.
pub proof fn lemma_floor_sqrt_unique(n: nat, r: nat)
    requires
        is_floor_sqrt(n, r),
    ensures
        r == floor_sqrt(n),
{
    lemma_floor_sqrt(n);
    let s = floor_sqrt(n);
    if r < s {
        assert((r + 1) * (r + 1) <= s * s) by (nonlinear_arith)
            requires
                r + 1 <= s,
        ;
    } else if s < r {
        assert((s + 1) * (s + 1) <= r * r) by (nonlinear_arith)
            requires
                s + 1 <= r,
        ;
    }
}

/// Floor square root of a 128-bit value.
pub fn isqrt(n: u128) -> (r: u64)
    ensures
        r as nat == floor_sqrt(n as nat),
        (r as nat) * (r as nat) <= n as nat,
        (n as nat) < (r as nat + 1) * (r as nat + 1),
    decreases n,
{
    if n == 0 {
        proof {
            assert(is_floor_sqrt(0, 0)) by (nonlinear_arith);
            lemma_floor_sqrt_unique(0, 0);
        }
        return 0;
    }
    let h = isqrt(n / 4);
    proof {
        lemma_div_bounds(n as int, 4);
        lemma_sqrt_step(n as nat, h as nat);
        assert(h < 0x8000_0000_0000_0000) by (nonlinear_arith)
            requires
                (h as int) * (h as int) <= (n as int) / 4,
                (n as int) / 4 < 0x4000_0000_0000_0000_0000_0000_0000_0000,
                0 <= h,
        ;
    }
    let c: u128 = 2 * (h as u128);
    let c1: u128 = c + 1;
    let fits = c1 <= n / c1;
    proof {
        if c1 * c1 <= n {
            lemma_div_ge(n as int, c1 as int, c1 as int);
        }
        if c1 <= n / c1 {
            lemma_div_bounds(n as int, c1 as int);
            assert((c1 as int) * (c1 as int) <= (n as int / c1 as int) * (c1 as int)) by (nonlinear_arith)
                requires
                    c1 as int <= n as int / c1 as int,
                    c1 > 0,
            ;
        }
    }
    let r: u64 = if fits {
        c1 as u64
    } else {
        c as u64
    };
    proof {
        lemma_floor_sqrt_unique(n as nat, r as nat);
    }
    r
}

} // verus!
