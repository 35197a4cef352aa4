//! Liquidity and swap accounting over a pool's reserves: every operation is a
//! total function from the reserves before to the reserves after.

use crate::math::{floor_sqrt, isqrt, lemma_div_bounds, lemma_div_le};
use crate::pricing::{quote, quote_spec};
use crate::state::{AmmError, Reserves};
use vstd::prelude::*;

verus! {

/// The reserves of a pool that has never been funded.
pub open spec fn empty_reserves() -> Reserves {
    Reserves { reserve_a: 0, reserve_b: 0, lp_supply: 0 }
}

/// Credits a deposit and `lp` new claims, unless a balance would leave 64 bits.
pub open spec fn commit_deposit(r: Reserves, amount_a: u64, amount_b: u64, lp: int) -> Result<(u64, Reserves), AmmError> {
    if r.reserve_a + amount_a > u64::MAX || r.reserve_b + amount_b > u64::MAX || r.lp_supply + lp > u64::MAX {
        Err(AmmError::MathOverflow)
    } else {
        Ok(
            (
                lp as u64,
                Reserves {
                    reserve_a: (r.reserve_a + amount_a) as u64,
                    reserve_b: (r.reserve_b + amount_b) as u64,
                    lp_supply: (r.lp_supply + lp) as u64,
                },
            ),
        )
    }
}

/// The claims minted for a deposit and the reserves after it. The first
/// deposit mints the geometric mean of the two amounts; later ones mint in
/// proportion to the A side, against the reserve before the deposit.
pub open spec fn deposit_spec(r: Reserves, amount_a: u64, amount_b: u64) -> Result<(u64, Reserves), AmmError> {
    if r.lp_supply == 0 {
        if amount_a * amount_b == 0 {
            Err(AmmError::InsufficientLiquidity)
        } else {
            commit_deposit(r, amount_a, amount_b, floor_sqrt((amount_a * amount_b) as nat) as int)
        }
    } else if r.reserve_a == 0 {
        Err(AmmError::InsufficientLiquidity)
    } else {
        commit_deposit(r, amount_a, amount_b, amount_a * r.lp_supply / (r.reserve_a as int))
    }
}

/// The share of a reserve that `lp_amount` claims out of `lp_supply`.
pub open spec fn share_of(reserve: int, lp_amount: int, lp_supply: int) -> int {
    reserve * lp_amount / lp_supply
}

/// The amounts paid out for burning `lp_amount` claims and the reserves after.
pub open spec fn withdraw_spec(r: Reserves, lp_amount: u64) -> Result<((u64, u64), Reserves), AmmError> {
    if r.lp_supply == 0 {
        Err(AmmError::InsufficientLiquidity)
    } else if lp_amount > r.lp_supply {
        Err(AmmError::InsufficientFunds)
    } else {
        let out_a = share_of(r.reserve_a as int, lp_amount as int, r.lp_supply as int);
        let out_b = share_of(r.reserve_b as int, lp_amount as int, r.lp_supply as int);
        Ok(
            (
                (out_a as u64, out_b as u64),
                Reserves {
                    reserve_a: (r.reserve_a - out_a) as u64,
                    reserve_b: (r.reserve_b - out_b) as u64,
                    lp_supply: (r.lp_supply - lp_amount) as u64,
                },
            ),
        )
    }
}

/// The reserve a swap pays into, and the one it pays out of.
pub open spec fn input_reserve(r: Reserves, a_to_b: bool) -> u64 {
    if a_to_b { r.reserve_a } else { r.reserve_b }
}

pub open spec fn output_reserve(r: Reserves, a_to_b: bool) -> u64 {
    if a_to_b { r.reserve_b } else { r.reserve_a }
}

/// The reserves after a swap: the whole input (fee included) is credited and
/// the output debited.
pub open spec fn after_trade(r: Reserves, a_to_b: bool, amount_in: u64, amount_out: u64) -> Reserves {
    if a_to_b {
        Reserves {
            reserve_a: (r.reserve_a + amount_in) as u64,
            reserve_b: (r.reserve_b - amount_out) as u64,
            lp_supply: r.lp_supply,
        }
    } else {
        Reserves {
            reserve_a: (r.reserve_a - amount_out) as u64,
            reserve_b: (r.reserve_b + amount_in) as u64,
            lp_supply: r.lp_supply,
        }
    }
}

/// The output of a swap and the reserves after it. A swap that cannot meet
/// its minimum output is refused for slippage; one against an empty reserve,
/// which would leave reserves that no claim stands for, is refused for
/// liquidity.
pub open spec fn exchange_spec(r: Reserves, a_to_b: bool, amount_in: u64, min_amount_out: u64, fee_bps: u16) -> Result<(u64, Reserves), AmmError> {
    let reserve_in = input_reserve(r, a_to_b);
    let reserve_out = output_reserve(r, a_to_b);
    match quote_spec(amount_in, reserve_in, reserve_out, fee_bps) {
        Err(e) => Err(e),
        Ok(out) => if out < min_amount_out {
            Err(AmmError::SlippageExceeded)
        } else if reserve_in == 0 || reserve_out == 0 {
            Err(AmmError::InsufficientLiquidity)
        } else if reserve_in + amount_in > u64::MAX {
            Err(AmmError::MathOverflow)
        } else {
            Ok((out, after_trade(r, a_to_b, amount_in, out)))
        },
    }
}

fn commit(r: &Reserves, amount_a: u64, amount_b: u64, lp: u64) -> (res: Result<(u64, Reserves), AmmError>)
    ensures
        res == commit_deposit(*r, amount_a, amount_b, lp as int),
{
    if amount_a > u64::MAX - r.reserve_a || amount_b > u64::MAX - r.reserve_b || lp > u64::MAX - r.lp_supply {
        return Err(AmmError::MathOverflow);
    }
    Ok(
        (
            lp,
            Reserves {
                reserve_a: r.reserve_a + amount_a,
                reserve_b: r.reserve_b + amount_b,
                lp_supply: r.lp_supply + lp,
            },
        ),
    )
}

/// Values a deposit of `amount_a` and `amount_b` in claims on the pool.
pub fn deposit(r: &Reserves, amount_a: u64, amount_b: u64) -> (res: Result<(u64, Reserves), AmmError>)
    ensures
        res == deposit_spec(*r, amount_a, amount_b),
{
    let lp: u64;
    if r.lp_supply == 0 {
        proof {
            assert((amount_a as int) * (amount_b as int) <= 0xffff_ffff_ffff_ffff * 0xffff_ffff_ffff_ffff) by (nonlinear_arith)
                requires
                    0 <= amount_a <= 0xffff_ffff_ffff_ffff,
                    0 <= amount_b <= 0xffff_ffff_ffff_ffff,
            ;
        }
        let product: u128 = (amount_a as u128) * (amount_b as u128);
        if product == 0 {
            return Err(AmmError::InsufficientLiquidity);
        }
        lp = isqrt(product);
    } else {
        if r.reserve_a == 0 {
            return Err(AmmError::InsufficientLiquidity);
        }
        proof {
            assert((amount_a as int) * (r.lp_supply as int) <= 0xffff_ffff_ffff_ffff * 0xffff_ffff_ffff_ffff) by (nonlinear_arith)
                requires
                    0 <= amount_a <= 0xffff_ffff_ffff_ffff,
                    0 <= r.lp_supply <= 0xffff_ffff_ffff_ffff,
            ;
        }
        let minted: u128 = (amount_a as u128) * (r.lp_supply as u128) / (r.reserve_a as u128);
        if minted > u64::MAX as u128 {
            proof {
                assert(r.lp_supply + minted > u64::MAX);
            }
            return Err(AmmError::MathOverflow);
        }
        lp = minted as u64;
    }
    commit(r, amount_a, amount_b, lp)
}

/// The share of `reserve` that `lp_amount` claims out of `lp_supply`.
fn share(reserve: u64, lp_amount: u64, lp_supply: u64) -> (r: u64)
    requires
        0 < lp_supply,
        lp_amount <= lp_supply,
    ensures
        r == share_of(reserve as int, lp_amount as int, lp_supply as int),
        r <= reserve,
{
    proof {
        assert(0 <= (reserve as int) * (lp_amount as int) <= (reserve as int) * (lp_supply as int)) by (nonlinear_arith)
            requires
                0 <= reserve,
                0 <= lp_amount <= lp_supply,
        ;
        assert((reserve as int) * (lp_supply as int) <= 0xffff_ffff_ffff_ffff * 0xffff_ffff_ffff_ffff) by (nonlinear_arith)
            requires
                0 <= reserve <= 0xffff_ffff_ffff_ffff,
                0 <= lp_supply <= 0xffff_ffff_ffff_ffff,
        ;
        lemma_div_bounds((reserve as int) * (lp_amount as int), lp_supply as int);
        lemma_div_le((reserve as int) * (lp_amount as int), lp_supply as int, reserve as int);
    }
    let wide: u128 = (reserve as u128) * (lp_amount as u128) / (lp_supply as u128);
    wide as u64
}

/// Values the burning of `lp_amount` claims in the two reserves.
pub fn withdraw(r: &Reserves, lp_amount: u64) -> (res: Result<((u64, u64), Reserves), AmmError>)
    ensures
        res == withdraw_spec(*r, lp_amount),
{
    if r.lp_supply == 0 {
        return Err(AmmError::InsufficientLiquidity);
    }
    if lp_amount > r.lp_supply {
        return Err(AmmError::InsufficientFunds);
    }
    let out_a = share(r.reserve_a, lp_amount, r.lp_supply);
    let out_b = share(r.reserve_b, lp_amount, r.lp_supply);
    Ok(
        (
            (out_a, out_b),
            Reserves {
                reserve_a: r.reserve_a - out_a,
                reserve_b: r.reserve_b - out_b,
                lp_supply: r.lp_supply - lp_amount,
            },
        ),
    )
}

/// Prices and books a swap of `amount_in` from side A to side B (or back),
/// refusing an output below `min_amount_out`.
pub fn exchange(r: &Reserves, a_to_b: bool, amount_in: u64, min_amount_out: u64, fee_bps: u16) -> (res: Result<(u64, Reserves), AmmError>)
    ensures
        res == exchange_spec(*r, a_to_b, amount_in, min_amount_out, fee_bps),
{
    let (reserve_in, reserve_out) = if a_to_b {
        (r.reserve_a, r.reserve_b)
    } else {
        (r.reserve_b, r.reserve_a)
    };
    let out = match quote(amount_in, reserve_in, reserve_out, fee_bps) {
        Err(e) => {
            return Err(e);
        },
        Ok(out) => out,
    };
    if out < min_amount_out {
        return Err(AmmError::SlippageExceeded);
    }
    if reserve_in == 0 || reserve_out == 0 {
        return Err(AmmError::InsufficientLiquidity);
    }
    if amount_in > u64::MAX - reserve_in {
        return Err(AmmError::MathOverflow);
    }
    let after = if a_to_b {
        Reserves { reserve_a: r.reserve_a + amount_in, reserve_b: r.reserve_b - out, lp_supply: r.lp_supply }
    } else {
        Reserves { reserve_a: r.reserve_a - out, reserve_b: r.reserve_b + amount_in, lp_supply: r.lp_supply }
    };
    Ok((out, after))
}

} // verus!
