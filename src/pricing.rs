//! Swap pricing: the fee is taken from the input, the rest trades against
//! the constant product of the two reserves.

use crate::math::{lemma_div_bounds, lemma_div_ge, lemma_div_le};
use crate::state::{AmmError, MAX_FEE_BPS};
use vstd::arithmetic::div_mod::lemma_multiply_divide_lt;
use vstd::prelude::*;

verus! {

/// Basis points in a whole.
pub const BPS_DENOMINATOR: u64 = 10000;

/// The fee kept from an input: `floor(amount_in * fee_bps / 10000)`.
pub open spec fn fee_of(amount_in: int, fee_bps: int) -> int {
    amount_in * fee_bps / 10000
}

/// What of the input trades against the reserves.
pub open spec fn net_of(amount_in: int, fee_bps: int) -> int {
    amount_in - fee_of(amount_in, fee_bps)
}

/// The denominator of the price formula.
pub open spec fn quote_denominator(amount_in: int, reserve_in: int, fee_bps: int) -> int {
    reserve_in + net_of(amount_in, fee_bps)
}

/// `floor(net * reserve_out / (reserve_in + net))`, and 0 where the denominator is 0.
pub open spec fn out_of(amount_in: int, reserve_in: int, reserve_out: int, fee_bps: int) -> int {
    let n = net_of(amount_in, fee_bps);
    if reserve_in + n == 0 {
        0
    } else {
        n * reserve_out / (reserve_in + n)
    }
}

/// The result of `quote`.
pub open spec fn quote_spec(amount_in: u64, reserve_in: u64, reserve_out: u64, fee_bps: u16) -> Result<u64, AmmError> {
    if fee_bps > MAX_FEE_BPS {
        Err(AmmError::ConfigError)
    } else if quote_denominator(amount_in as int, reserve_in as int, fee_bps as int) == 0 {
        Err(AmmError::InsufficientLiquidity)
    } else {
        Ok(out_of(amount_in as int, reserve_in as int, reserve_out as int, fee_bps as int) as u64)
    }
}

/// The fee lies between 0 and the input, so the net input does too.
pub proof fn lemma_fee_bounds(amount_in: int, fee_bps: int)
    requires
        0 <= amount_in,
        0 <= fee_bps <= 10000,
    ensures
        0 <= fee_of(amount_in, fee_bps) <= amount_in,
        0 <= net_of(amount_in, fee_bps) <= amount_in,
{
    assert(0 <= amount_in * fee_bps <= amount_in * 10000) by (nonlinear_arith)
        requires
            0 <= amount_in,
            0 <= fee_bps <= 10000,
    ;
    lemma_div_bounds(amount_in * fee_bps, 10000);
    lemma_div_le(amount_in * fee_bps, 10000, amount_in);
}

/// The output lies between 0 and the output reserve.
pub proof fn lemma_out_bounds(amount_in: int, reserve_in: int, reserve_out: int, fee_bps: int)
    requires
        0 <= amount_in,
        0 <= reserve_in,
        0 <= reserve_out,
        0 <= fee_bps <= 10000,
    ensures
        0 <= out_of(amount_in, reserve_in, reserve_out, fee_bps) <= reserve_out,
{
    lemma_fee_bounds(amount_in, fee_bps);
    let n = net_of(amount_in, fee_bps);
    let d = reserve_in + n;
    if d != 0 {
        assert(0 <= n * reserve_out <= reserve_out * d) by (nonlinear_arith)
            requires
                0 <= n <= d,
                0 <= reserve_out,
        ;
        lemma_div_bounds(n * reserve_out, d);
        lemma_div_le(n * reserve_out, d, reserve_out);
    }
}

/// Multiplying out the floor of the price formula: `out * (reserve_in + net) <= net * reserve_out`.
pub proof fn lemma_out_times_denominator(amount_in: int, reserve_in: int, reserve_out: int, fee_bps: int)
    requires
        0 <= amount_in,
        0 <= reserve_in,
        0 <= reserve_out,
        0 <= fee_bps <= 10000,
    ensures
        out_of(amount_in, reserve_in, reserve_out, fee_bps) * (reserve_in + net_of(amount_in, fee_bps))
            <= net_of(amount_in, fee_bps) * reserve_out,
{
    lemma_fee_bounds(amount_in, fee_bps);
    let n = net_of(amount_in, fee_bps);
    let d = reserve_in + n;
    if d != 0 {
        assert(0 <= n * reserve_out) by (nonlinear_arith)
            requires
                0 <= n,
                0 <= reserve_out,
        ;
        lemma_div_bounds(n * reserve_out, d);
    }
}

/// A single swap never empties the output reserve: for positive reserves the
/// quote is strictly below the output reserve.
pub proof fn lemma_quote_below_reserve(amount_in: u64, reserve_in: u64, reserve_out: u64, fee_bps: u16)
    requires
        amount_in > 0,
        reserve_in > 0,
        reserve_out > 0,
        fee_bps <= MAX_FEE_BPS,
    ensures
        quote_spec(amount_in, reserve_in, reserve_out, fee_bps) is Ok,
        quote_spec(amount_in, reserve_in, reserve_out, fee_bps)->Ok_0 < reserve_out,
{
    let (a, s, r, f) = (amount_in as int, reserve_in as int, reserve_out as int, fee_bps as int);
    lemma_fee_bounds(a, f);
    lemma_out_bounds(a, s, r, f);
    let n = net_of(a, f);
    assert(n * r < (s + n) * r) by (nonlinear_arith)
        requires
            0 < s,
            0 < r,
    ;
    assert((s + n) * r == r * (s + n)) by (nonlinear_arith);
    lemma_multiply_divide_lt(n * r, s + n, r);
}

/// The net input does not decrease as the input grows.
pub proof fn lemma_net_monotone(a1: int, a2: int, fee_bps: int)
    requires
        0 <= a1 <= a2,
        0 <= fee_bps <= 10000,
    ensures
        net_of(a1, fee_bps) <= net_of(a2, fee_bps),
{
    assert(0 <= a1 * fee_bps && a2 * fee_bps <= a1 * fee_bps + (a2 - a1) * 10000) by (nonlinear_arith)
        requires
            0 <= a1 <= a2,
            0 <= fee_bps <= 10000,
    ;
    lemma_div_bounds(a1 * fee_bps, 10000);
    let q1 = a1 * fee_bps / 10000;
    assert(a2 * fee_bps < 10000 * (q1 + (a2 - a1) + 1)) by (nonlinear_arith)
        requires
            a2 * fee_bps <= a1 * fee_bps + (a2 - a1) * 10000,
            a1 * fee_bps < q1 * 10000 + 10000,
    ;
    lemma_multiply_divide_lt(a2 * fee_bps, 10000, q1 + (a2 - a1) + 1);
}

/// The quote does not decrease as the input grows, reserves and fee held fixed;
/// an input that can be priced stays priceable when it grows.
pub proof fn lemma_quote_monotone(a1: u64, a2: u64, reserve_in: u64, reserve_out: u64, fee_bps: u16)
    requires
        a1 <= a2,
        fee_bps <= MAX_FEE_BPS,
    ensures
        quote_spec(a1, reserve_in, reserve_out, fee_bps) is Ok ==> {
            &&& quote_spec(a2, reserve_in, reserve_out, fee_bps) is Ok
            &&& quote_spec(a1, reserve_in, reserve_out, fee_bps)->Ok_0
                <= quote_spec(a2, reserve_in, reserve_out, fee_bps)->Ok_0
        },
{
    let (s, r, f) = (reserve_in as int, reserve_out as int, fee_bps as int);
    lemma_net_monotone(a1 as int, a2 as int, f);
    lemma_fee_bounds(a1 as int, f);
    lemma_fee_bounds(a2 as int, f);
    lemma_out_bounds(a1 as int, s, r, f);
    lemma_out_bounds(a2 as int, s, r, f);
    let n1 = net_of(a1 as int, f);
    let n2 = net_of(a2 as int, f);
    if s + n1 != 0 {
        let o1 = out_of(a1 as int, s, r, f);
        lemma_out_times_denominator(a1 as int, s, r, f);
        assert(o1 * (s + n2) <= n2 * r) by (nonlinear_arith)
            requires
                0 <= o1,
                0 <= s,
                0 <= r,
                0 <= n1 <= n2,
                s + n1 > 0,
                o1 * (s + n1) <= n1 * r,
        ;
        assert(0 <= n2 * r) by (nonlinear_arith)
            requires
                0 <= n2,
                0 <= r,
        ;
        lemma_div_ge(n2 * r, s + n2, o1);
    }
}

/// Swapping `amount_in` and at once swapping the output back, against the
/// reserves the first swap left, never returns more than `amount_in`.
pub proof fn lemma_round_trip_no_gain(amount_in: int, reserve_in: int, reserve_out: int, fee_bps: int)
    requires
        0 <= amount_in,
        0 <= reserve_in,
        0 <= reserve_out,
        0 <= fee_bps <= 10000,
    ensures
        ({
            let y = out_of(amount_in, reserve_in, reserve_out, fee_bps);
            out_of(y, reserve_out - y, reserve_in + amount_in, fee_bps) <= amount_in
        }),
{
    let (x, ra, rb, f) = (amount_in, reserve_in, reserve_out, fee_bps);
    lemma_fee_bounds(x, f);
    lemma_out_bounds(x, ra, rb, f);
    lemma_out_times_denominator(x, ra, rb, f);
    let n = net_of(x, f);
    let y = out_of(x, ra, rb, f);
    lemma_fee_bounds(y, f);
    let m = net_of(y, f);
    assert(m * (ra + x) <= x * (rb - y + m)) by (nonlinear_arith)
        requires
            0 <= n <= x,
            0 <= m <= y,
            0 <= y <= rb,
            0 <= ra,
            y * (ra + n) <= n * rb,
    ;
    let d = rb - y + m;
    if d != 0 {
        assert(0 <= m * (ra + x)) by (nonlinear_arith)
            requires
                0 <= m,
                0 <= ra + x,
        ;
        assert(x * d == d * x) by (nonlinear_arith);
        lemma_div_le(m * (ra + x), d, x);
    }
}

/// A swap never decreases the product of the reserves: the input (fee
/// included) is credited, the output debited.
pub proof fn lemma_swap_keeps_product(amount_in: int, reserve_in: int, reserve_out: int, fee_bps: int)
    requires
        0 <= amount_in,
        0 <= reserve_in,
        0 <= reserve_out,
        0 <= fee_bps <= 10000,
    ensures
        reserve_in * reserve_out
            <= (reserve_in + amount_in) * (reserve_out - out_of(amount_in, reserve_in, reserve_out, fee_bps)),
{
    lemma_fee_bounds(amount_in, fee_bps);
    lemma_out_bounds(amount_in, reserve_in, reserve_out, fee_bps);
    lemma_out_times_denominator(amount_in, reserve_in, reserve_out, fee_bps);
    let n = net_of(amount_in, fee_bps);
    let y = out_of(amount_in, reserve_in, reserve_out, fee_bps);
    assert(reserve_in * reserve_out <= (reserve_in + amount_in) * (reserve_out - y)) by (nonlinear_arith)
        requires
            0 <= n <= amount_in,
            0 <= y <= reserve_out,
            0 <= reserve_in,
            y * (reserve_in + n) <= n * reserve_out,
    ;
}

/// Computes the fee kept from an input.
pub fn fee_amount(amount_in: u64, fee_bps: u16) -> (r: u64)
    requires
        fee_bps <= MAX_FEE_BPS,
    ensures
        r == fee_of(amount_in as int, fee_bps as int),
        r <= amount_in,
{
    proof {
        lemma_fee_bounds(amount_in as int, fee_bps as int);
        assert((amount_in as int) * (fee_bps as int) <= 0xffff_ffff_ffff_ffff * 10000) by (nonlinear_arith)
            requires
                0 <= amount_in <= 0xffff_ffff_ffff_ffff,
                0 <= fee_bps <= 10000,
        ;
    }
    let product: u128 = (amount_in as u128) * (fee_bps as u128);
    (product / (BPS_DENOMINATOR as u128)) as u64
}

/// Prices a swap of `amount_in` against reserves `reserve_in` / `reserve_out`
/// at a fee of `fee_bps` basis points.
pub fn quote(amount_in: u64, reserve_in: u64, reserve_out: u64, fee_bps: u16) -> (r: Result<u64, AmmError>)
    ensures
        r == quote_spec(amount_in, reserve_in, reserve_out, fee_bps),
        r is Ok ==> r->Ok_0 <= reserve_out,
{
    if fee_bps > MAX_FEE_BPS {
        return Err(AmmError::ConfigError);
    }
    let fee = fee_amount(amount_in, fee_bps);
    let net: u64 = amount_in - fee;
    let denominator: u128 = (reserve_in as u128) + (net as u128);
    if denominator == 0 {
        return Err(AmmError::InsufficientLiquidity);
    }
    proof {
        lemma_out_bounds(amount_in as int, reserve_in as int, reserve_out as int, fee_bps as int);
        assert((net as int) * (reserve_out as int) <= 0xffff_ffff_ffff_ffff * 0xffff_ffff_ffff_ffff) by (nonlinear_arith)
            requires
                0 <= net <= 0xffff_ffff_ffff_ffff,
                0 <= reserve_out <= 0xffff_ffff_ffff_ffff,
        ;
    }
    let numerator: u128 = (net as u128) * (reserve_out as u128);
    let out: u128 = numerator / denominator;
    Ok(out as u64)
}

} // verus!
