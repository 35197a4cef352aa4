//! What holds across operations of the engine.

use crate::engine::{deposit_spec, empty_reserves, exchange_spec, input_reserve, output_reserve, share_of, withdraw_spec};
use crate::math::{floor_sqrt, lemma_div_bounds, lemma_div_ge, lemma_div_le, lemma_floor_sqrt};
use crate::pricing::{
    lemma_fee_bounds, lemma_out_bounds, lemma_quote_below_reserve, lemma_round_trip_no_gain, lemma_swap_keeps_product,
    lemma_out_times_denominator, net_of, out_of, fee_of, quote_spec,
};
use crate::state::{AmmError, Reserves};
use vstd::arithmetic::div_mod::lemma_multiply_divide_lt;
use vstd::prelude::*;

verus! {

/// `x * l / l == x` for positive `l`.
proof fn lemma_mul_div_cancel(x: int, l: int)
    requires
        0 <= x,
        0 < l,
    ensures
        x * l / l == x,
{
    assert(0 <= x * l) by (nonlinear_arith)
        requires
            0 <= x,
            0 < l,
    ;
    lemma_div_le(x * l, l, x);
    lemma_div_ge(x * l, l, x);
}

/// Depositing into an empty pool and at once burning every claim minted
/// returns exactly what was deposited and leaves the pool empty again.
pub proof fn lemma_bootstrap_round_trip(amount_a: u64, amount_b: u64)
    ensures
        deposit_spec(empty_reserves(), amount_a, amount_b) is Ok ==> {
            let (lp, after) = deposit_spec(empty_reserves(), amount_a, amount_b)->Ok_0;
            withdraw_spec(after, lp) == Ok::<((u64, u64), Reserves), AmmError>(
                ((amount_a, amount_b), empty_reserves()),
            )
        },
{
    if deposit_spec(empty_reserves(), amount_a, amount_b) is Ok {
        let n = (amount_a * amount_b) as nat;
        lemma_floor_sqrt(n);
        let s = floor_sqrt(n);
        if s == 0 {
            assert((s + 1) * (s + 1) == 1) by (nonlinear_arith)
                requires
                    s == 0,
            ;
        }
        assert(s >= 1);
        lemma_mul_div_cancel(amount_a as int, s as int);
        lemma_mul_div_cancel(amount_b as int, s as int);
        let (lp, after) = deposit_spec(empty_reserves(), amount_a, amount_b)->Ok_0;
        assert(share_of(after.reserve_a as int, lp as int, after.lp_supply as int) == amount_a as int);
        assert(share_of(after.reserve_b as int, lp as int, after.lp_supply as int) == amount_b as int);
    }
}

/// Depositing into a funded pool and at once burning the claims minted
/// returns at most the A amount deposited, and at most the B amount too
/// when the deposit holds at least as much B, relative to A, as the pool.
pub proof fn lemma_deposit_withdraw_bounded(r: Reserves, amount_a: u64, amount_b: u64)
    requires
        r.wf(),
        r.lp_supply > 0,
    ensures
        deposit_spec(r, amount_a, amount_b) is Ok ==> {
            let (lp, after) = deposit_spec(r, amount_a, amount_b)->Ok_0;
            let w = withdraw_spec(after, lp);
            &&& w is Ok
            &&& w->Ok_0.0.0 <= amount_a
            &&& (amount_b as int) * (r.reserve_a as int) >= (amount_a as int) * (r.reserve_b as int)
                ==> w->Ok_0.0.1 <= amount_b
        },
{
    if deposit_spec(r, amount_a, amount_b) is Ok {
        let (ra, rb, s) = (r.reserve_a as int, r.reserve_b as int, r.lp_supply as int);
        let (a, b) = (amount_a as int, amount_b as int);
        assert(0 <= a * s) by (nonlinear_arith)
            requires
                0 <= a,
                0 <= s,
        ;
        lemma_div_bounds(a * s, ra);
        let l = a * s / ra;
        // l * ra <= a * s
        assert(0 <= (ra + a) * l <= a * (s + l)) by (nonlinear_arith)
            requires
                0 <= l,
                0 <= a,
                0 < ra,
                l * ra <= a * s,
        ;
        lemma_div_le((ra + a) * l, s + l, a);
        if b * ra >= a * rb {
            assert(l * ra * rb <= a * s * rb) by (nonlinear_arith)
                requires
                    0 <= rb,
                    l * ra <= a * s,
            ;
            assert(a * rb * s <= b * ra * s) by (nonlinear_arith)
                requires
                    0 <= s,
                    b * ra >= a * rb,
            ;
            assert(l * rb <= b * s) by (nonlinear_arith)
                requires
                    0 < ra,
                    l * ra * rb <= a * s * rb,
                    a * rb * s <= b * ra * s,
            ;
            assert(0 <= (rb + b) * l <= b * (s + l)) by (nonlinear_arith)
                requires
                    0 <= l,
                    0 <= b,
                    0 <= rb,
                    l * rb <= b * s,
            ;
            lemma_div_le((rb + b) * l, s + l, b);
        }
    }
}

/// Burning the whole claim supply pays out both reserves in full and leaves
/// the pool empty.
pub proof fn lemma_withdraw_all(r: Reserves)
    requires
        r.lp_supply > 0,
    ensures
        withdraw_spec(r, r.lp_supply) == Ok::<((u64, u64), Reserves), AmmError>(
            ((r.reserve_a, r.reserve_b), empty_reserves()),
        ),
{
    lemma_mul_div_cancel(r.reserve_a as int, r.lp_supply as int);
    lemma_mul_div_cancel(r.reserve_b as int, r.lp_supply as int);
}

/// A swap followed at once by the reverse swap of its whole output never
/// returns more than the first swap put in.
pub proof fn lemma_exchange_round_trip(
    r: Reserves,
    a_to_b: bool,
    amount_in: u64,
    min_out: u64,
    min_back: u64,
    fee_bps: u16,
)
    ensures
        exchange_spec(r, a_to_b, amount_in, min_out, fee_bps) is Ok ==> {
            let (out, after) = exchange_spec(r, a_to_b, amount_in, min_out, fee_bps)->Ok_0;
            exchange_spec(after, !a_to_b, out, min_back, fee_bps) is Ok ==>
                exchange_spec(after, !a_to_b, out, min_back, fee_bps)->Ok_0.0 <= amount_in
        },
{
    if exchange_spec(r, a_to_b, amount_in, min_out, fee_bps) is Ok {
        lemma_round_trip_no_gain(
            amount_in as int,
            input_reserve(r, a_to_b) as int,
            output_reserve(r, a_to_b) as int,
            fee_bps as int,
        );
        let (ri, ro) = (input_reserve(r, a_to_b) as int, output_reserve(r, a_to_b) as int);
        lemma_out_bounds(amount_in as int, ri, ro, fee_bps as int);
        let (out, after) = exchange_spec(r, a_to_b, amount_in, min_out, fee_bps)->Ok_0;
        assert(out as int == out_of(amount_in as int, ri, ro, fee_bps as int));
        assert(input_reserve(after, !a_to_b) as int == ro - out);
        assert(output_reserve(after, !a_to_b) as int == ri + amount_in);
        lemma_out_bounds(out as int, ro - out, ri + amount_in, fee_bps as int);
    }
}

/// A swap never decreases the product of the reserves and mints or burns no claims.
pub proof fn lemma_exchange_keeps_product(r: Reserves, a_to_b: bool, amount_in: u64, min_amount_out: u64, fee_bps: u16)
    ensures
        exchange_spec(r, a_to_b, amount_in, min_amount_out, fee_bps) is Ok ==> {
            let after = exchange_spec(r, a_to_b, amount_in, min_amount_out, fee_bps)->Ok_0.1;
            &&& r.k() <= after.k()
            &&& after.lp_supply == r.lp_supply
        },
{
    if exchange_spec(r, a_to_b, amount_in, min_amount_out, fee_bps) is Ok {
        let (ri, ro) = (input_reserve(r, a_to_b) as int, output_reserve(r, a_to_b) as int);
        lemma_swap_keeps_product(amount_in as int, ri, ro, fee_bps as int);
        lemma_out_bounds(amount_in as int, ri, ro, fee_bps as int);
        let after = exchange_spec(r, a_to_b, amount_in, min_amount_out, fee_bps)->Ok_0.1;
        if !a_to_b {
            assert(after.k() == after.reserve_b * after.reserve_a) by (nonlinear_arith);
            assert(r.k() == r.reserve_b * r.reserve_a) by (nonlinear_arith);
        }
    }
}

/// A deposit keeps the pool either empty or fully funded.
pub proof fn lemma_deposit_keeps_wf(r: Reserves, amount_a: u64, amount_b: u64)
    requires
        r.wf(),
    ensures
        deposit_spec(r, amount_a, amount_b) is Ok ==> deposit_spec(r, amount_a, amount_b)->Ok_0.1.wf(),
{
    if deposit_spec(r, amount_a, amount_b) is Ok && r.lp_supply == 0 {
        let n = (amount_a * amount_b) as nat;
        lemma_floor_sqrt(n);
        let s = floor_sqrt(n);
        if s == 0 {
            assert((s + 1) * (s + 1) == 1) by (nonlinear_arith)
                requires
                    s == 0,
            ;
        }
        if amount_a == 0 || amount_b == 0 {
            assert(amount_a * amount_b == 0) by (nonlinear_arith)
                requires
                    amount_a == 0 || amount_b == 0,
            ;
        }
    }
}

/// A withdrawal keeps the pool either empty or fully funded: burning part of
/// the supply leaves part of each reserve.
pub proof fn lemma_withdraw_keeps_wf(r: Reserves, lp_amount: u64)
    requires
        r.wf(),
    ensures
        withdraw_spec(r, lp_amount) is Ok ==> withdraw_spec(r, lp_amount)->Ok_0.1.wf(),
{
    if withdraw_spec(r, lp_amount) is Ok {
        if lp_amount == r.lp_supply {
            lemma_withdraw_all(r);
        } else {
            let (ra, rb, s, l) = (r.reserve_a as int, r.reserve_b as int, r.lp_supply as int, lp_amount as int);
            assert(ra * l < s * ra && rb * l < s * rb) by (nonlinear_arith)
                requires
                    0 <= l < s,
                    0 < ra,
                    0 < rb,
            ;
            lemma_multiply_divide_lt(ra * l, s, ra);
            lemma_multiply_divide_lt(rb * l, s, rb);
        }
    }
}

/// A swap keeps the pool either empty or fully funded: it needs both
/// reserves positive and never empties the output reserve.
pub proof fn lemma_exchange_keeps_wf(r: Reserves, a_to_b: bool, amount_in: u64, min_amount_out: u64, fee_bps: u16)
    requires
        r.wf(),
    ensures
        exchange_spec(r, a_to_b, amount_in, min_amount_out, fee_bps) is Ok
            ==> exchange_spec(r, a_to_b, amount_in, min_amount_out, fee_bps)->Ok_0.1.wf(),
{
    if exchange_spec(r, a_to_b, amount_in, min_amount_out, fee_bps) is Ok {
        let (ri, ro) = (input_reserve(r, a_to_b), output_reserve(r, a_to_b));
        if amount_in > 0 {
            lemma_quote_below_reserve(amount_in, ri, ro, fee_bps);
        } else {
            lemma_fee_bounds(0, fee_bps as int);
            assert(net_of(0, fee_bps as int) == 0);
            assert(0 * (ro as int) == 0);
            assert(out_of(0, ri as int, ro as int, fee_bps as int) == 0);
        }
    }
}

/// A swap whose minimum output lies strictly above its quote is refused for
/// slippage, whatever the reserves are; a refused swap issues no instruction.
pub proof fn lemma_slippage_refused(r: Reserves, a_to_b: bool, amount_in: u64, min_amount_out: u64, fee_bps: u16)
    requires
        quote_spec(amount_in, input_reserve(r, a_to_b), output_reserve(r, a_to_b), fee_bps) is Ok,
        min_amount_out > quote_spec(amount_in, input_reserve(r, a_to_b), output_reserve(r, a_to_b), fee_bps)->Ok_0,
    ensures
        exchange_spec(r, a_to_b, amount_in, min_amount_out, fee_bps) == Err::<(u64, Reserves), AmmError>(
            AmmError::SlippageExceeded,
        ),
{
}

/// A swap that keeps a positive fee strictly raises the product of the reserves.
pub proof fn lemma_fee_raises_product(r: Reserves, a_to_b: bool, amount_in: u64, min_amount_out: u64, fee_bps: u16)
    requires
        fee_of(amount_in as int, fee_bps as int) > 0,
    ensures
        exchange_spec(r, a_to_b, amount_in, min_amount_out, fee_bps) is Ok
            ==> r.k() < exchange_spec(r, a_to_b, amount_in, min_amount_out, fee_bps)->Ok_0.1.k(),
{
    if exchange_spec(r, a_to_b, amount_in, min_amount_out, fee_bps) is Ok {
        let (ri, ro) = (input_reserve(r, a_to_b), output_reserve(r, a_to_b));
        let (x, a, b, f) = (amount_in as int, ri as int, ro as int, fee_bps as int);
        lemma_fee_bounds(x, f);
        lemma_quote_below_reserve(amount_in, ri, ro, fee_bps);
        lemma_out_times_denominator(x, a, b, f);
        let n = net_of(x, f);
        let y = out_of(x, a, b, f);
        lemma_out_bounds(x, a, b, f);
        assert(a * b < (a + x) * (b - y)) by (nonlinear_arith)
            requires
                0 <= n < x,
                0 <= y < b,
                0 <= a,
                y * (a + n) <= n * b,
        ;
        let after = exchange_spec(r, a_to_b, amount_in, min_amount_out, fee_bps)->Ok_0.1;
        if !a_to_b {
            assert(after.k() == after.reserve_b * after.reserve_a) by (nonlinear_arith);
            assert(r.k() == r.reserve_b * r.reserve_a) by (nonlinear_arith);
        }
    }
}

} // verus!
