//! The pool record, account identities, reserves and the error taxonomy.

use vstd::prelude::*;

verus! {

/// A 32-byte account identity.
#[derive(Clone, Copy, Debug, PartialEq, Eq)]
pub struct Pubkey {
    pub bytes: [u8; 32],
}

impl Pubkey {
    pub open spec fn same_as(self, other: Pubkey) -> bool {
        self.bytes@ == other.bytes@
    }

    /// Byte-wise comparison of two identities.
    pub fn equals(&self, other: &Pubkey) -> (r: bool)
        ensures
            r == self.same_as(*other),
    {
        let mut i: usize = 0;
        while i < 32
            invariant
                i <= 32,
                forall|j: int| 0 <= j < i ==> self.bytes@[j] == other.bytes@[j],
            decreases 32 - i,
        {
            if self.bytes[i] != other.bytes[i] {
                return false;
            }
            i = i + 1;
        }
        proof {
            assert(self.bytes@ =~= other.bytes@);
        }
        true
    }
}

/// Errors of the engine.
#[derive(Clone, Copy, Debug, PartialEq, Eq, Structural)]
pub enum AmmError {
    SlippageExceeded,
    InvalidPool,
    InsufficientLiquidity,
    InvalidTokenPair,
    MathOverflow,
    ConfigError,
    InsufficientFunds,
}

/// Largest fee rate, in basis points: the whole input.
pub const MAX_FEE_BPS: u16 = 10000;

/// The persistent record of one pool.
#[derive(Clone, Copy, Debug, PartialEq, Eq)]
pub struct Pool {
    pub token_a_mint: Pubkey,
    pub token_b_mint: Pubkey,
    pub token_a_vault: Pubkey,
    pub token_b_vault: Pubkey,
    pub lp_mint: Pubkey,
    pub fee_bps: u16,
    pub admin: Pubkey,
    pub bump: u8,
}

impl Pool {
    /// The fee never exceeds the whole input.
    pub open spec fn wf(self) -> bool {
        self.fee_bps <= MAX_FEE_BPS
    }
}

/// The amounts a pool's accounting depends on: both vault balances and the
/// outstanding supply of the liquidity token.
#[derive(Clone, Copy, Debug, PartialEq, Eq, Structural)]
pub struct Reserves {
    pub reserve_a: u64,
    pub reserve_b: u64,
    pub lp_supply: u64,
}

impl Reserves {
    /// Either the pool is empty (no reserves and no claims), or both reserves
    /// and the claim supply are positive.
    pub open spec fn wf(self) -> bool {
        &&& (self.lp_supply == 0) == (self.reserve_a == 0)
        &&& (self.lp_supply == 0) == (self.reserve_b == 0)
    }

    /// The constant-product quantity.
    pub open spec fn k(self) -> int {
        self.reserve_a * self.reserve_b
    }
}

} // verus!
