use amm::engine::{deposit, exchange, withdraw};
use amm::math::isqrt;
use amm::pricing::{fee_amount, quote};
use amm::state::{AmmError, Reserves};

fn reserves(reserve_a: u64, reserve_b: u64, lp_supply: u64) -> Reserves {
    Reserves { reserve_a, reserve_b, lp_supply }
}

#[test]
fn quote_concrete_example() {
    assert_eq!(fee_amount(100, 30), 0);
    assert_eq!(quote(100, 1000, 1000, 30), Ok(90));
}

#[test]
fn fee_taken_from_input() {
    assert_eq!(fee_amount(10_000, 30), 30);
    assert_eq!(fee_amount(9_999, 30), 29);
    assert_eq!(fee_amount(u64::MAX, 10_000), u64::MAX);
    // net input 9970: floor(9970 * 50000 / (50000 + 9970)) = 8312
    assert_eq!(quote(10_000, 50_000, 50_000, 30), Ok(8312));
}

#[test]
fn quote_whole_fee_gives_nothing() {
    assert_eq!(quote(100, 1000, 1000, 10_000), Ok(0));
}

#[test]
fn quote_errors() {
    assert_eq!(quote(100, 1000, 1000, 10_001), Err(AmmError::ConfigError));
    assert_eq!(quote(0, 0, 1000, 30), Err(AmmError::InsufficientLiquidity));
}

#[test]
fn quote_stays_below_output_reserve() {
    for &(amount_in, reserve_in, reserve_out, fee) in &[
        (1u64, 1u64, 1u64, 0u16),
        (u64::MAX, 1, 1000, 0),
        (u64::MAX, u64::MAX, u64::MAX, 0),
        (1_000_000, 3, 7, 30),
        (5, 1_000_000, 1_000_000, 30),
    ] {
        let out = quote(amount_in, reserve_in, reserve_out, fee).unwrap();
        assert!(out < reserve_out);
    }
    assert_eq!(quote(u64::MAX, 1, 1000, 0), Ok(999));
}

#[test]
fn quote_non_decreasing_in_input() {
    let mut previous = 0u64;
    let mut amount = 0u64;
    while amount <= 5000 {
        let out = quote(amount, 1234, 5678, 30).unwrap();
        assert!(out >= previous);
        previous = out;
        amount += 7;
    }
}

#[test]
fn bootstrap_deposit_geometric_mean() {
    let (lp, after) = deposit(&reserves(0, 0, 0), 400, 900).unwrap();
    assert_eq!(lp, 600);
    assert_eq!(after, reserves(400, 900, 600));
}

#[test]
fn bootstrap_deposit_needs_both_sides() {
    assert_eq!(deposit(&reserves(0, 0, 0), 0, 900), Err(AmmError::InsufficientLiquidity));
    assert_eq!(deposit(&reserves(0, 0, 0), 400, 0), Err(AmmError::InsufficientLiquidity));
}

#[test]
fn later_deposit_is_proportional_to_side_a() {
    let (lp, after) = deposit(&reserves(1000, 2000, 1000), 100, 200).unwrap();
    assert_eq!(lp, 100);
    assert_eq!(after, reserves(1100, 2200, 1100));
    // floor(7 * 1000 / 3000) = 2
    assert_eq!(deposit(&reserves(3000, 10, 1000), 7, 1).unwrap().0, 2);
}

#[test]
fn deposit_errors() {
    assert_eq!(deposit(&reserves(0, 10, 10), 5, 5), Err(AmmError::InsufficientLiquidity));
    assert_eq!(deposit(&reserves(1, 1, u64::MAX), 2, 2), Err(AmmError::MathOverflow));
    assert_eq!(deposit(&reserves(u64::MAX, 5, 10), 1, 1), Err(AmmError::MathOverflow));
}

#[test]
fn bootstrap_round_trip_returns_deposit() {
    let (lp, after) = deposit(&reserves(0, 0, 0), 400, 900).unwrap();
    let ((out_a, out_b), drained) = withdraw(&after, lp).unwrap();
    assert_eq!((out_a, out_b), (400, 900));
    assert_eq!(drained, reserves(0, 0, 0));
}

#[test]
fn round_trip_on_funded_pool_loses_nothing_extra() {
    let start = reserves(1000, 2000, 1000);
    let (lp, after) = deposit(&start, 100, 200).unwrap();
    let ((out_a, out_b), back) = withdraw(&after, lp).unwrap();
    assert_eq!((out_a, out_b), (100, 200));
    assert_eq!(back, start);
    // an uneven deposit: floor(50 * 1000 / 1000) = 50 minted
    let (lp, after) = deposit(&start, 50, 300).unwrap();
    let ((out_a, out_b), _) = withdraw(&after, lp).unwrap();
    assert!(out_a <= 50 && out_b <= 300);
}

#[test]
fn withdraw_whole_supply_drains_pool() {
    let start = reserves(12345, 678, 999);
    let ((out_a, out_b), after) = withdraw(&start, 999).unwrap();
    assert_eq!((out_a, out_b), (12345, 678));
    assert_eq!(after, reserves(0, 0, 0));
}

#[test]
fn withdraw_partial_share() {
    // floor(1000 * 250 / 1000) = 250, floor(333 * 250 / 1000) = 83
    let ((out_a, out_b), after) = withdraw(&reserves(1000, 333, 1000), 250).unwrap();
    assert_eq!((out_a, out_b), (250, 83));
    assert_eq!(after, reserves(750, 250, 750));
}

#[test]
fn withdraw_errors() {
    assert_eq!(withdraw(&reserves(0, 0, 0), 1), Err(AmmError::InsufficientLiquidity));
    assert_eq!(withdraw(&reserves(10, 10, 10), 11), Err(AmmError::InsufficientFunds));
}

#[test]
fn reverse_swap_returns_no_more() {
    let start = reserves(1000, 1000, 1000);
    let (out, after) = exchange(&start, true, 100, 0, 30).unwrap();
    assert_eq!(out, 90);
    assert_eq!(after, reserves(1100, 910, 1000));
    let (back, end) = exchange(&after, false, out, 0, 30).unwrap();
    assert_eq!(back, 99);
    assert!(back <= 100);
    assert_eq!(end, reserves(1001, 1000, 1000));
}

#[test]
fn swap_keeps_product() {
    let start = reserves(5000, 7000, 100);
    let (_, after) = exchange(&start, false, 1234, 0, 30).unwrap();
    assert!((after.reserve_a as u128) * (after.reserve_b as u128) >= 5000u128 * 7000u128);
    assert_eq!(after.lp_supply, 100);
}

#[test]
fn exchange_errors() {
    assert_eq!(exchange(&reserves(0, 1000, 0), true, 10, 0, 30), Err(AmmError::InsufficientLiquidity));
    assert_eq!(exchange(&reserves(1000, 1000, 10), true, 100, 91, 30), Err(AmmError::SlippageExceeded));
    assert_eq!(exchange(&reserves(1000, 1000, 10), true, 100, 90, 30).unwrap().0, 90);
    assert_eq!(
        exchange(&reserves(u64::MAX - 5, 1000, 10), true, 10, 0, 30),
        Err(AmmError::MathOverflow)
    );
    assert_eq!(exchange(&reserves(1000, 1000, 10), false, 100, 0, 10_001), Err(AmmError::ConfigError));
}

#[test]
fn empty_pool_swap_above_quote_is_slippage() {
    // the quote on an empty pool is 0: a minimum of 1 is slippage, a minimum of 0 is refused
    assert_eq!(quote(100, 0, 0, 30), Ok(0));
    assert_eq!(exchange(&reserves(0, 0, 0), true, 100, 1, 30), Err(AmmError::SlippageExceeded));
    assert_eq!(exchange(&reserves(0, 0, 0), true, 100, 0, 30), Err(AmmError::InsufficientLiquidity));
}

#[test]
fn fee_strictly_raises_product() {
    // fee floor(1000 * 30 / 10000) = 3, net 997, out floor(997 * 1000 / 1997) = 499
    let (out, after) = exchange(&reserves(1000, 1000, 10), true, 1000, 0, 30).unwrap();
    assert_eq!(out, 499);
    assert_eq!(after, reserves(2000, 501, 10));
    assert!(2000u128 * 501u128 > 1000u128 * 1000u128);
}

#[test]
fn integer_square_root() {
    assert_eq!(isqrt(0), 0);
    assert_eq!(isqrt(1), 1);
    assert_eq!(isqrt(15), 3);
    assert_eq!(isqrt(16), 4);
    assert_eq!(isqrt(360_000), 600);
    assert_eq!(isqrt(u128::MAX), u64::MAX);
    assert_eq!(isqrt((u64::MAX as u128) * (u64::MAX as u128)), u64::MAX);
}
