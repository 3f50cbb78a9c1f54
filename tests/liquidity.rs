use amm::math::{isqrt, swap_amount};
use amm::pool::Pool;
use amm::types::{AccountId, AssetId, AssetPairKey, ExchangeError, LiquidityParameters};

const ASSET_A: AssetId = 10;
const ASSET_B: AssetId = 4;
const PROVIDER: AccountId = 1;

/// A pool bootstrapped with the default liquidity parameters.
fn funded_pool() -> Pool {
    let params = LiquidityParameters::default();
    let pair = AssetPairKey::new(ASSET_A, ASSET_B).unwrap();
    let mut pool = Pool::new(pair);
    // canonical order puts asset 4 first
    pool.deposit(PROVIDER, ASSET_B, params.amounts.0).unwrap();
    pool.deposit(PROVIDER, ASSET_A, params.amounts.1).unwrap();
    let minted = pool
        .add_liquidity(PROVIDER, params.amounts.0, params.amounts.1, params.liquidity, params.deadline, 10)
        .unwrap();
    assert_eq!(minted, params.liquidity);
    pool
}

#[test]
fn pair_key_is_canonical() {
    let k1 = AssetPairKey::new(10, 4).unwrap();
    let k2 = AssetPairKey::new(4, 10).unwrap();
    assert_eq!(k1, k2);
    assert_eq!((k1.a, k1.b), (4, 10));
    assert!(AssetPairKey::new(3, 3).is_none());
}

#[test]
fn bootstrap_mints_geometric_mean() {
    let pool = funded_pool();
    assert_eq!(pool.reserves(), (100, 400));
    assert_eq!(pool.liquidity_supply(), 200);
    assert_eq!(pool.deposit_of(PROVIDER, ASSET_A), 0);
    assert_eq!(pool.deposit_of(PROVIDER, ASSET_B), 0);
}

#[test]
fn proportional_add_keeps_excess_in_escrow() {
    let mut pool = funded_pool();
    pool.deposit(2, ASSET_B, 50).unwrap();
    pool.deposit(2, ASSET_A, 100).unwrap();
    assert_eq!(pool.add_liquidity(2, 50, 100, 1, 1000, 10), Ok(50));
    assert_eq!((pool.reserve_a, pool.reserve_b), (125, 500));
    assert_eq!(pool.liquidity_supply, 250);
    assert_eq!(pool.deposit_of(2, ASSET_B), 25);
    assert_eq!(pool.deposit_of(2, ASSET_A), 0);
}

#[test]
fn add_liquidity_errors() {
    let mut pool = funded_pool();
    pool.deposit(2, ASSET_B, 10).unwrap();
    pool.deposit(2, ASSET_A, 40).unwrap();
    assert_eq!(pool.add_liquidity(2, 10, 40, 0, 5, 6), Err(ExchangeError::DeadlineExpired));
    assert_eq!(pool.add_liquidity(2, 11, 40, 0, 5, 5), Err(ExchangeError::DesiredAmountTooHigh(11)));
    assert_eq!(pool.add_liquidity(2, 10, 41, 0, 5, 5), Err(ExchangeError::DesiredAmountTooHigh(41)));
    assert_eq!(pool.add_liquidity(2, 10, 40, 21, 5, 5), Err(ExchangeError::InsufficientLiquidityMinted));
    assert_eq!(pool.add_liquidity(2, 0, 40, 1, 5, 5), Err(ExchangeError::InsufficientLiquidityMinted));
    assert_eq!(pool.add_liquidity(2, 10, 40, 20, 5, 5), Ok(20));
}

#[test]
fn bootstrap_with_one_side_empty_mints_nothing() {
    let mut pool = Pool::new(AssetPairKey::new(1, 2).unwrap());
    pool.deposit(PROVIDER, 1, 100).unwrap();
    assert_eq!(pool.add_liquidity(PROVIDER, 100, 0, 0, 10, 1), Err(ExchangeError::InsufficientLiquidityMinted));
    assert_eq!(pool.liquidity_supply, 0);
}

#[test]
fn swap_pays_constant_product_output() {
    let mut pool = funded_pool();
    let before = pool.reserve_a as u128 * pool.reserve_b as u128;
    assert_eq!(pool.swap(ASSET_B, 100, 199, 1000, 10), Ok(199));
    assert_eq!((pool.reserve_a, pool.reserve_b), (200, 201));
    let after = pool.reserve_a as u128 * pool.reserve_b as u128;
    assert!(after >= before);
    assert_eq!(pool.swap(ASSET_A, 404, 0, 1000, 10), Ok(133));
    assert_eq!((pool.reserve_a, pool.reserve_b), (67, 605));
    assert!(pool.reserve_a as u128 * pool.reserve_b as u128 >= after);
}

#[test]
fn swap_errors() {
    let mut pool = funded_pool();
    assert_eq!(pool.swap(ASSET_B, 100, 0, 9, 10), Err(ExchangeError::DeadlineExpired));
    assert_eq!(pool.swap(99, 100, 0, 10, 10), Err(ExchangeError::InvalidAsset));
    assert_eq!(pool.swap(ASSET_B, 100, 200, 10, 10), Err(ExchangeError::InsufficientOutputAmount));
    assert_eq!(pool.swap(ASSET_B, u64::MAX, 0, 10, 10), Err(ExchangeError::AmountOverflow));
    let mut empty = Pool::new(AssetPairKey::new(1, 2).unwrap());
    assert_eq!(empty.swap(1, 100, 0, 10, 10), Err(ExchangeError::NotInitialized));
    assert_eq!((pool.reserve_a, pool.reserve_b), (100, 400));
}

#[test]
fn remove_liquidity_pays_proportional_floor() {
    let mut pool = funded_pool();
    pool.swap(ASSET_B, 100, 0, 1000, 10).unwrap();
    assert_eq!(pool.remove_liquidity(100, 100, 101, 1000, 10), Err(ExchangeError::InsufficientOutputAmount));
    assert_eq!(pool.remove_liquidity(100, 100, 100, 1000, 10), Ok((100, 100)));
    assert_eq!((pool.reserve_a, pool.reserve_b, pool.liquidity_supply), (100, 101, 100));
    assert_eq!(pool.remove_liquidity(33, 0, 0, 1000, 10), Ok((33, 33)));
    assert_eq!((pool.reserve_a, pool.reserve_b, pool.liquidity_supply), (67, 68, 67));
    assert_eq!(pool.remove_liquidity(67, 0, 0, 1000, 10), Ok((67, 68)));
    assert_eq!((pool.reserve_a, pool.reserve_b, pool.liquidity_supply), (0, 0, 0));
}

#[test]
fn remove_liquidity_errors() {
    let mut pool = funded_pool();
    assert_eq!(pool.remove_liquidity(10, 0, 0, 1, 2), Err(ExchangeError::DeadlineExpired));
    assert_eq!(pool.remove_liquidity(201, 0, 0, 2, 2), Err(ExchangeError::DesiredAmountTooHigh(201)));
    assert_eq!(pool.remove_liquidity(100, 51, 0, 2, 2), Err(ExchangeError::InsufficientOutputAmount));
    assert_eq!(pool.remove_liquidity(100, 0, 201, 2, 2), Err(ExchangeError::InsufficientOutputAmount));
    let mut empty = Pool::new(AssetPairKey::new(1, 2).unwrap());
    assert_eq!(empty.remove_liquidity(1, 0, 0, 2, 2), Err(ExchangeError::NotInitialized));
}

#[test]
fn add_then_remove_returns_no_more_than_added() {
    let mut pool = funded_pool();
    pool.swap(ASSET_B, 37, 0, 1000, 10).unwrap();
    let (ra, rb) = (pool.reserve_a, pool.reserve_b);
    pool.deposit(3, ASSET_B, 57).unwrap();
    pool.deposit(3, ASSET_A, 211).unwrap();
    let minted = pool.add_liquidity(3, 57, 211, 0, 1000, 10).unwrap();
    let (added_a, added_b) = (pool.reserve_a - ra, pool.reserve_b - rb);
    let (out_a, out_b) = pool.remove_liquidity(minted, 0, 0, 1000, 10).unwrap();
    assert!(out_a <= added_a);
    assert!(out_b <= added_b);
}

#[test]
fn operations_after_deadline_fail() {
    let mut pool = funded_pool();
    pool.deposit(PROVIDER, ASSET_A, 10).unwrap();
    assert_eq!(pool.swap(42, 0, 0, 100, 101), Err(ExchangeError::DeadlineExpired));
    assert_eq!(pool.add_liquidity(PROVIDER, 1000, 1000, 0, 100, 101), Err(ExchangeError::DeadlineExpired));
    assert_eq!(pool.remove_liquidity(1000, 0, 0, 100, 101), Err(ExchangeError::DeadlineExpired));
}

#[test]
fn integer_square_root() {
    assert_eq!(isqrt(0), 0);
    assert_eq!(isqrt(15), 3);
    assert_eq!(isqrt(16), 4);
    assert_eq!(isqrt(40_000), 200);
    assert_eq!(isqrt(u64::MAX as u128 * u64::MAX as u128), u64::MAX);
}

#[test]
fn swap_amount_applies_fee_before_formula() {
    assert_eq!(swap_amount(100, 400, 100), 199);
    assert_eq!(swap_amount(100, 400, 1), 3);
    assert_eq!(swap_amount(1000, 1000, 1), 0);
    assert_eq!(swap_amount(1, 1000, 1000), 998);
    // numerator beyond 128 bits
    assert_eq!(swap_amount(u64::MAX, u64::MAX, u64::MAX), 9_209_516_195_036_766_630);
}

#[test]
fn liquidity_parameters_defaults() {
    let p = LiquidityParameters::new(None, Some(5), None);
    assert_eq!(p.amounts, (100, 400));
    assert_eq!(p.deadline, 5);
    assert_eq!(p.liquidity, 200);
}

#[test]
fn emptied_pool_stays_active() {
    let mut pool = funded_pool();
    assert_eq!(pool.remove_liquidity(200, 0, 0, 1000, 10), Ok((100, 400)));
    assert_eq!((pool.reserve_a, pool.reserve_b, pool.liquidity_supply), (0, 0, 0));
    assert_eq!(pool.remove_liquidity(1, 0, 0, 1000, 10), Err(ExchangeError::DesiredAmountTooHigh(1)));
    assert_eq!(pool.remove_liquidity(0, 0, 0, 1000, 10), Ok((0, 0)));
    assert_eq!(pool.swap(ASSET_A, 10, 0, 1000, 10), Err(ExchangeError::InsufficientLiquidity));
    pool.deposit(PROVIDER, ASSET_B, 9).unwrap();
    pool.deposit(PROVIDER, ASSET_A, 16).unwrap();
    assert_eq!(pool.add_liquidity(PROVIDER, 9, 16, 12, 1000, 10), Ok(12));
    assert_eq!(pool.reserves(), (9, 16));
}

#[test]
fn offer_worth_no_share_mints_nothing() {
    let mut pool = funded_pool();
    pool.deposit(2, ASSET_A, 40).unwrap();
    pool.deposit(2, ASSET_B, 1).unwrap();
    assert_eq!(pool.add_liquidity(2, 0, 40, 0, 5, 5), Ok(0));
    assert_eq!(pool.add_liquidity(2, 1, 1, 0, 5, 5), Ok(0));
    assert_eq!(pool.reserves(), (100, 400));
    assert_eq!(pool.liquidity_supply(), 200);
    assert_eq!(pool.deposit_of(2, ASSET_A), 40);
    assert_eq!(pool.deposit_of(2, ASSET_B), 1);
}
