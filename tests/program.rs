use amm::program::{
    add_liquidity, initialize_pool, remove_liquidity, swap, AddLiquidity, Authority, InitializePool, Instruction, Mint,
    RemoveLiquidity, Swap, TokenAccount,
};
use amm::state::{AmmError, Pool, Pubkey};

fn key(n: u8) -> Pubkey {
    Pubkey { bytes: [n; 32] }
}

const MINT_A: u8 = 1;
const MINT_B: u8 = 2;
const VAULT_A: u8 = 3;
const VAULT_B: u8 = 4;
const LP_MINT: u8 = 5;
const ADMIN: u8 = 6;
const USER: u8 = 7;
const USER_A: u8 = 8;
const USER_B: u8 = 9;
const USER_LP: u8 = 10;

fn accounts() -> InitializePool {
    InitializePool {
        token_a_mint: key(MINT_A),
        token_b_mint: key(MINT_B),
        token_a_vault: key(VAULT_A),
        token_b_vault: key(VAULT_B),
        lp_mint: key(LP_MINT),
        admin: key(ADMIN),
        bump: 254,
    }
}

fn pool(fee_bps: u16) -> Pool {
    initialize_pool(&accounts(), fee_bps).unwrap()
}

fn add_ctx(fee_bps: u16, reserve_a: u64, reserve_b: u64, supply: u64) -> AddLiquidity {
    AddLiquidity {
        pool: pool(fee_bps),
        token_a_vault: TokenAccount { key: key(VAULT_A), amount: reserve_a },
        token_b_vault: TokenAccount { key: key(VAULT_B), amount: reserve_b },
        lp_mint: Mint { key: key(LP_MINT), supply },
        user: key(USER),
        user_token_a_account: key(USER_A),
        user_token_b_account: key(USER_B),
        user_lp_account: key(USER_LP),
    }
}

fn swap_ctx(fee_bps: u16, reserve_a: u64, reserve_b: u64, input: u8) -> Swap {
    Swap {
        pool: pool(fee_bps),
        token_a_vault: TokenAccount { key: key(VAULT_A), amount: reserve_a },
        token_b_vault: TokenAccount { key: key(VAULT_B), amount: reserve_b },
        user: key(USER),
        input_mint: key(input),
        user_input_account: key(USER_A),
        user_output_account: key(USER_B),
    }
}

fn remove_ctx(reserve_a: u64, reserve_b: u64, supply: u64) -> RemoveLiquidity {
    RemoveLiquidity {
        pool: pool(30),
        token_a_vault: TokenAccount { key: key(VAULT_A), amount: reserve_a },
        token_b_vault: TokenAccount { key: key(VAULT_B), amount: reserve_b },
        lp_mint: Mint { key: key(LP_MINT), supply },
        user: key(USER),
        user_lp_account: key(USER_LP),
        user_token_a_account: key(USER_A),
        user_token_b_account: key(USER_B),
    }
}

fn user() -> Authority {
    Authority::User(key(USER))
}

#[test]
fn initialize_binds_accounts_and_fee() {
    let p = pool(30);
    assert_eq!(p.token_a_mint, key(MINT_A));
    assert_eq!(p.token_b_mint, key(MINT_B));
    assert_eq!(p.token_a_vault, key(VAULT_A));
    assert_eq!(p.token_b_vault, key(VAULT_B));
    assert_eq!(p.lp_mint, key(LP_MINT));
    assert_eq!(p.admin, key(ADMIN));
    assert_eq!(p.fee_bps, 30);
    assert_eq!(p.bump, 254);
    assert_eq!(pool(10_000).fee_bps, 10_000);
}

#[test]
fn initialize_rejects_fee_above_whole() {
    assert_eq!(initialize_pool(&accounts(), 10_001), Err(AmmError::ConfigError));
    assert_eq!(initialize_pool(&accounts(), u16::MAX), Err(AmmError::ConfigError));
}

#[test]
fn pubkey_comparison() {
    let mut other = key(MINT_A);
    assert!(key(MINT_A).equals(&other));
    other.bytes[31] = 0;
    assert!(!key(MINT_A).equals(&other));
    assert!(!key(MINT_A).equals(&key(MINT_B)));
}

#[test]
fn bootstrap_add_liquidity_plan() {
    let plan = add_liquidity(&add_ctx(30, 0, 0, 0), 400, 900).unwrap();
    assert_eq!(
        plan,
        vec![
            Instruction::Transfer { from: key(USER_A), to: key(VAULT_A), authority: user(), amount: 400 },
            Instruction::Transfer { from: key(USER_B), to: key(VAULT_B), authority: user(), amount: 900 },
            Instruction::MintTo { mint: key(LP_MINT), to: key(USER_LP), amount: 600 },
        ]
    );
}

#[test]
fn add_liquidity_errors() {
    assert_eq!(add_liquidity(&add_ctx(30, 0, 0, 0), 0, 5), Err(AmmError::InsufficientLiquidity));
    let mut ctx = add_ctx(30, 10, 10, 10);
    ctx.lp_mint.key = key(99);
    assert_eq!(add_liquidity(&ctx, 5, 5), Err(AmmError::InvalidPool));
}

#[test]
fn swap_concrete_plan() {
    let plan = swap(&swap_ctx(30, 1000, 1000, MINT_A), 100, 90).unwrap();
    assert_eq!(
        plan,
        vec![
            Instruction::Transfer { from: key(USER_A), to: key(VAULT_A), authority: user(), amount: 100 },
            Instruction::Transfer { from: key(VAULT_B), to: key(USER_B), authority: Authority::Pool, amount: 90 },
        ]
    );
}

#[test]
fn swap_from_side_b() {
    // fee floor(200 * 30 / 10000) = 0; floor(200 * 1000 / (4000 + 200)) = 47
    let plan = swap(&swap_ctx(30, 1000, 4000, MINT_B), 200, 0).unwrap();
    assert_eq!(
        plan,
        vec![
            Instruction::Transfer { from: key(USER_A), to: key(VAULT_B), authority: user(), amount: 200 },
            Instruction::Transfer { from: key(VAULT_A), to: key(USER_B), authority: Authority::Pool, amount: 47 },
        ]
    );
}

#[test]
fn swap_above_quote_is_refused_without_instructions() {
    assert_eq!(swap(&swap_ctx(30, 1000, 1000, MINT_A), 100, 91), Err(AmmError::SlippageExceeded));
}

#[test]
fn swap_on_empty_pool_above_quote_is_slippage() {
    assert_eq!(swap(&swap_ctx(30, 0, 0, MINT_A), 100, 1), Err(AmmError::SlippageExceeded));
}

#[test]
fn swap_errors() {
    assert_eq!(swap(&swap_ctx(30, 1000, 1000, 42), 100, 0), Err(AmmError::InvalidTokenPair));
    assert_eq!(swap(&swap_ctx(30, 0, 0, MINT_A), 100, 0), Err(AmmError::InsufficientLiquidity));
    let mut ctx = swap_ctx(30, 1000, 1000, MINT_A);
    ctx.token_b_vault.key = key(77);
    assert_eq!(swap(&ctx, 100, 0), Err(AmmError::InvalidPool));
    let mut ctx = swap_ctx(30, 1000, 1000, MINT_A);
    ctx.pool.fee_bps = 20_000;
    assert_eq!(swap(&ctx, 100, 0), Err(AmmError::ConfigError));
}

#[test]
fn remove_whole_supply_plan() {
    let plan = remove_liquidity(&remove_ctx(400, 900, 600), 600).unwrap();
    assert_eq!(
        plan,
        vec![
            Instruction::Burn { mint: key(LP_MINT), from: key(USER_LP), authority: user(), amount: 600 },
            Instruction::Transfer { from: key(VAULT_A), to: key(USER_A), authority: Authority::Pool, amount: 400 },
            Instruction::Transfer { from: key(VAULT_B), to: key(USER_B), authority: Authority::Pool, amount: 900 },
        ]
    );
}

#[test]
fn remove_liquidity_errors() {
    assert_eq!(remove_liquidity(&remove_ctx(0, 0, 0), 1), Err(AmmError::InsufficientLiquidity));
    assert_eq!(remove_liquidity(&remove_ctx(5, 5, 5), 6), Err(AmmError::InsufficientFunds));
    let mut ctx = remove_ctx(5, 5, 5);
    ctx.token_a_vault.key = key(55);
    assert_eq!(remove_liquidity(&ctx, 1), Err(AmmError::InvalidPool));
}
