//! The pool's operations over snapshots of the accounts they touch. Each
//! operation validates, prices, and returns the ledger instructions that carry
//! it out, in order; a failed operation returns no instruction at all.

use crate::engine::{deposit, deposit_spec, exchange, exchange_spec, withdraw, withdraw_spec};
use crate::state::{AmmError, Pool, Pubkey, Reserves, MAX_FEE_BPS};
use vstd::prelude::*;

verus! {

/// Who signs a ledger instruction: a user, or the pool's own derived authority.
#[derive(Clone, Copy, Debug, PartialEq, Eq)]
pub enum Authority {
    User(Pubkey),
    Pool,
}

/// A request to the token ledger.
#[derive(Clone, Copy, Debug, PartialEq, Eq)]
pub enum Instruction {
    Transfer { from: Pubkey, to: Pubkey, authority: Authority, amount: u64 },
    /// Signed by the pool's authority.
    MintTo { mint: Pubkey, to: Pubkey, amount: u64 },
    Burn { mint: Pubkey, from: Pubkey, authority: Authority, amount: u64 },
}

/// A token account: its identity and balance.
#[derive(Clone, Copy, Debug, PartialEq, Eq)]
pub struct TokenAccount {
    pub key: Pubkey,
    pub amount: u64,
}

/// A token type: its identity and outstanding supply.
#[derive(Clone, Copy, Debug, PartialEq, Eq)]
pub struct Mint {
    pub key: Pubkey,
    pub supply: u64,
}

/// The accounts a new pool is bound to.
#[derive(Clone, Copy, Debug, PartialEq, Eq)]
pub struct InitializePool {
    pub token_a_mint: Pubkey,
    pub token_b_mint: Pubkey,
    pub token_a_vault: Pubkey,
    pub token_b_vault: Pubkey,
    pub lp_mint: Pubkey,
    pub admin: Pubkey,
    /// Nonce that makes the pool's derived authority valid.
    pub bump: u8,
}

/// The accounts of a deposit, as they stand before it.
#[derive(Clone, Copy, Debug, PartialEq, Eq)]
pub struct AddLiquidity {
    pub pool: Pool,
    pub token_a_vault: TokenAccount,
    pub token_b_vault: TokenAccount,
    pub lp_mint: Mint,
    pub user: Pubkey,
    pub user_token_a_account: Pubkey,
    pub user_token_b_account: Pubkey,
    pub user_lp_account: Pubkey,
}

/// The accounts of a swap, as they stand before it.
#[derive(Clone, Copy, Debug, PartialEq, Eq)]
pub struct Swap {
    pub pool: Pool,
    pub token_a_vault: TokenAccount,
    pub token_b_vault: TokenAccount,
    pub user: Pubkey,
    pub input_mint: Pubkey,
    pub user_input_account: Pubkey,
    pub user_output_account: Pubkey,
}

/// The accounts of a withdrawal, as they stand before it.
#[derive(Clone, Copy, Debug, PartialEq, Eq)]
pub struct RemoveLiquidity {
    pub pool: Pool,
    pub token_a_vault: TokenAccount,
    pub token_b_vault: TokenAccount,
    pub lp_mint: Mint,
    pub user: Pubkey,
    pub user_lp_account: Pubkey,
    pub user_token_a_account: Pubkey,
    pub user_token_b_account: Pubkey,
}

/// The record a pool starts with.
pub open spec fn pool_of(ctx: InitializePool, fee_bps: u16) -> Pool {
    Pool {
        token_a_mint: ctx.token_a_mint,
        token_b_mint: ctx.token_b_mint,
        token_a_vault: ctx.token_a_vault,
        token_b_vault: ctx.token_b_vault,
        lp_mint: ctx.lp_mint,
        fee_bps: fee_bps,
        admin: ctx.admin,
        bump: ctx.bump,
    }
}

/// Creates the record of a pool; a fee above the whole input is refused.
pub fn initialize_pool(ctx: &InitializePool, fee_bps: u16) -> (r: Result<Pool, AmmError>)
    ensures
        fee_bps > MAX_FEE_BPS ==> r == Err::<Pool, AmmError>(AmmError::ConfigError),
        fee_bps <= MAX_FEE_BPS ==> r == Ok::<Pool, AmmError>(pool_of(*ctx, fee_bps)),
        r is Ok ==> r->Ok_0.wf(),
{
    if fee_bps > MAX_FEE_BPS {
        return Err(AmmError::ConfigError);
    }
    Ok(
        Pool {
            token_a_mint: ctx.token_a_mint,
            token_b_mint: ctx.token_b_mint,
            token_a_vault: ctx.token_a_vault,
            token_b_vault: ctx.token_b_vault,
            lp_mint: ctx.lp_mint,
            fee_bps: fee_bps,
            admin: ctx.admin,
            bump: ctx.bump,
        },
    )
}

impl AddLiquidity {
    /// The vaults and the claim token are those the pool was bound to.
    pub open spec fn bound(self) -> bool {
        &&& self.pool.token_a_vault.same_as(self.token_a_vault.key)
        &&& self.pool.token_b_vault.same_as(self.token_b_vault.key)
        &&& self.pool.lp_mint.same_as(self.lp_mint.key)
    }

    pub open spec fn reserves(self) -> Reserves {
        Reserves {
            reserve_a: self.token_a_vault.amount,
            reserve_b: self.token_b_vault.amount,
            lp_supply: self.lp_mint.supply,
        }
    }

    /// Both deposits from the user, then the claims minted to the user.
    pub open spec fn plan(self, amount_a: u64, amount_b: u64, lp_minted: u64) -> Seq<Instruction> {
        seq![
            Instruction::Transfer {
                from: self.user_token_a_account,
                to: self.token_a_vault.key,
                authority: Authority::User(self.user),
                amount: amount_a,
            },
            Instruction::Transfer {
                from: self.user_token_b_account,
                to: self.token_b_vault.key,
                authority: Authority::User(self.user),
                amount: amount_b,
            },
            Instruction::MintTo { mint: self.lp_mint.key, to: self.user_lp_account, amount: lp_minted },
        ]
    }
}

/// Deposits `amount_a` and `amount_b` into the pool for newly minted claims.
pub fn add_liquidity(ctx: &AddLiquidity, amount_a: u64, amount_b: u64) -> (r: Result<Vec<Instruction>, AmmError>)
    ensures
        !ctx.bound() ==> r == Err::<Vec<Instruction>, AmmError>(AmmError::InvalidPool),
        ctx.bound() ==> match deposit_spec(ctx.reserves(), amount_a, amount_b) {
            Ok((lp, _)) => r is Ok && r->Ok_0@ == ctx.plan(amount_a, amount_b, lp),
            Err(e) => r == Err::<Vec<Instruction>, AmmError>(e),
        },
{
    if !ctx.pool.token_a_vault.equals(&ctx.token_a_vault.key) || !ctx.pool.token_b_vault.equals(&ctx.token_b_vault.key)
        || !ctx.pool.lp_mint.equals(&ctx.lp_mint.key) {
        return Err(AmmError::InvalidPool);
    }
    let reserves = Reserves {
        reserve_a: ctx.token_a_vault.amount,
        reserve_b: ctx.token_b_vault.amount,
        lp_supply: ctx.lp_mint.supply,
    };
    let lp_minted = match deposit(&reserves, amount_a, amount_b) {
        Ok((lp, _)) => lp,
        Err(e) => {
            return Err(e);
        },
    };
    let mut plan: Vec<Instruction> = Vec::new();
    plan.push(
        Instruction::Transfer {
            from: ctx.user_token_a_account,
            to: ctx.token_a_vault.key,
            authority: Authority::User(ctx.user),
            amount: amount_a,
        },
    );
    plan.push(
        Instruction::Transfer {
            from: ctx.user_token_b_account,
            to: ctx.token_b_vault.key,
            authority: Authority::User(ctx.user),
            amount: amount_b,
        },
    );
    plan.push(Instruction::MintTo { mint: ctx.lp_mint.key, to: ctx.user_lp_account, amount: lp_minted });
    proof {
        assert(plan@ =~= ctx.plan(amount_a, amount_b, lp_minted));
    }
    Ok(plan)
}

impl Swap {
    /// The vaults are those the pool was bound to.
    pub open spec fn bound(self) -> bool {
        &&& self.pool.token_a_vault.same_as(self.token_a_vault.key)
        &&& self.pool.token_b_vault.same_as(self.token_b_vault.key)
    }

    /// A swap neither reads nor changes the claim supply.
    pub open spec fn reserves(self) -> Reserves {
        Reserves { reserve_a: self.token_a_vault.amount, reserve_b: self.token_b_vault.amount, lp_supply: 0 }
    }

    /// `Some(true)` when the input is token A, `Some(false)` when it is token B.
    pub open spec fn direction(self) -> Option<bool> {
        if self.input_mint.same_as(self.pool.token_a_mint) {
            Some(true)
        } else if self.input_mint.same_as(self.pool.token_b_mint) {
            Some(false)
        } else {
            None
        }
    }

    /// The input from the user into its vault, then the output from the
    /// other vault to the user, signed by the pool.
    pub open spec fn plan(self, a_to_b: bool, amount_in: u64, amount_out: u64) -> Seq<Instruction> {
        let (vault_in, vault_out) = if a_to_b {
            (self.token_a_vault.key, self.token_b_vault.key)
        } else {
            (self.token_b_vault.key, self.token_a_vault.key)
        };
        seq![
            Instruction::Transfer {
                from: self.user_input_account,
                to: vault_in,
                authority: Authority::User(self.user),
                amount: amount_in,
            },
            Instruction::Transfer {
                from: vault_out,
                to: self.user_output_account,
                authority: Authority::Pool,
                amount: amount_out,
            },
        ]
    }
}

/// Swaps `amount_in` of the input token for the other token, refusing an
/// output below `min_amount_out`.
pub fn swap(ctx: &Swap, amount_in: u64, min_amount_out: u64) -> (r: Result<Vec<Instruction>, AmmError>)
    ensures
        !ctx.bound() ==> r == Err::<Vec<Instruction>, AmmError>(AmmError::InvalidPool),
        ctx.bound() ==> match ctx.direction() {
            None => r == Err::<Vec<Instruction>, AmmError>(AmmError::InvalidTokenPair),
            Some(a_to_b) => match exchange_spec(ctx.reserves(), a_to_b, amount_in, min_amount_out, ctx.pool.fee_bps) {
                Ok((out, _)) => r is Ok && r->Ok_0@ == ctx.plan(a_to_b, amount_in, out),
                Err(e) => r == Err::<Vec<Instruction>, AmmError>(e),
            },
        },
{
    if !ctx.pool.token_a_vault.equals(&ctx.token_a_vault.key) || !ctx.pool.token_b_vault.equals(&ctx.token_b_vault.key) {
        return Err(AmmError::InvalidPool);
    }
    let a_to_b = if ctx.input_mint.equals(&ctx.pool.token_a_mint) {
        true
    } else if ctx.input_mint.equals(&ctx.pool.token_b_mint) {
        false
    } else {
        return Err(AmmError::InvalidTokenPair);
    };
    let reserves = Reserves {
        reserve_a: ctx.token_a_vault.amount,
        reserve_b: ctx.token_b_vault.amount,
        lp_supply: 0,
    };
    let amount_out = match exchange(&reserves, a_to_b, amount_in, min_amount_out, ctx.pool.fee_bps) {
        Ok((out, _)) => out,
        Err(e) => {
            return Err(e);
        },
    };
    let (vault_in, vault_out) = if a_to_b {
        (ctx.token_a_vault.key, ctx.token_b_vault.key)
    } else {
        (ctx.token_b_vault.key, ctx.token_a_vault.key)
    };
    let mut plan: Vec<Instruction> = Vec::new();
    plan.push(
        Instruction::Transfer {
            from: ctx.user_input_account,
            to: vault_in,
            authority: Authority::User(ctx.user),
            amount: amount_in,
        },
    );
    plan.push(
        Instruction::Transfer {
            from: vault_out,
            to: ctx.user_output_account,
            authority: Authority::Pool,
            amount: amount_out,
        },
    );
    proof {
        assert(plan@ =~= ctx.plan(a_to_b, amount_in, amount_out));
    }
    Ok(plan)
}

impl RemoveLiquidity {
    /// The vaults and the claim token are those the pool was bound to.
    pub open spec fn bound(self) -> bool {
        &&& self.pool.token_a_vault.same_as(self.token_a_vault.key)
        &&& self.pool.token_b_vault.same_as(self.token_b_vault.key)
        &&& self.pool.lp_mint.same_as(self.lp_mint.key)
    }

    pub open spec fn reserves(self) -> Reserves {
        Reserves {
            reserve_a: self.token_a_vault.amount,
            reserve_b: self.token_b_vault.amount,
            lp_supply: self.lp_mint.supply,
        }
    }

    /// The user's claims burnt, then both shares paid out, signed by the pool.
    pub open spec fn plan(self, lp_amount: u64, amount_a_out: u64, amount_b_out: u64) -> Seq<Instruction> {
        seq![
            Instruction::Burn {
                mint: self.lp_mint.key,
                from: self.user_lp_account,
                authority: Authority::User(self.user),
                amount: lp_amount,
            },
            Instruction::Transfer {
                from: self.token_a_vault.key,
                to: self.user_token_a_account,
                authority: Authority::Pool,
                amount: amount_a_out,
            },
            Instruction::Transfer {
                from: self.token_b_vault.key,
                to: self.user_token_b_account,
                authority: Authority::Pool,
                amount: amount_b_out,
            },
        ]
    }
}

/// Burns `lp_amount` claims for the matching share of both reserves.
pub fn remove_liquidity(ctx: &RemoveLiquidity, lp_amount: u64) -> (r: Result<Vec<Instruction>, AmmError>)
    ensures
        !ctx.bound() ==> r == Err::<Vec<Instruction>, AmmError>(AmmError::InvalidPool),
        ctx.bound() ==> match withdraw_spec(ctx.reserves(), lp_amount) {
            Ok(((out_a, out_b), _)) => r is Ok && r->Ok_0@ == ctx.plan(lp_amount, out_a, out_b),
            Err(e) => r == Err::<Vec<Instruction>, AmmError>(e),
        },
{
    if !ctx.pool.token_a_vault.equals(&ctx.token_a_vault.key) || !ctx.pool.token_b_vault.equals(&ctx.token_b_vault.key)
        || !ctx.pool.lp_mint.equals(&ctx.lp_mint.key) {
        return Err(AmmError::InvalidPool);
    }
    let reserves = Reserves {
        reserve_a: ctx.token_a_vault.amount,
        reserve_b: ctx.token_b_vault.amount,
        lp_supply: ctx.lp_mint.supply,
    };
    let (amount_a_out, amount_b_out) = match withdraw(&reserves, lp_amount) {
        Ok((outs, _)) => outs,
        Err(e) => {
            return Err(e);
        },
    };
    let mut plan: Vec<Instruction> = Vec::new();
    plan.push(
        Instruction::Burn {
            mint: ctx.lp_mint.key,
            from: ctx.user_lp_account,
            authority: Authority::User(ctx.user),
            amount: lp_amount,
        },
    );
    plan.push(
        Instruction::Transfer {
            from: ctx.token_a_vault.key,
            to: ctx.user_token_a_account,
            authority: Authority::Pool,
            amount: amount_a_out,
        },
    );
    plan.push(
        Instruction::Transfer {
            from: ctx.token_b_vault.key,
            to: ctx.user_token_b_account,
            authority: Authority::Pool,
            amount: amount_b_out,
        },
    );
    proof {
        assert(plan@ =~= ctx.plan(lp_amount, amount_a_out, amount_b_out));
    }
    Ok(plan)
}

} // verus!
