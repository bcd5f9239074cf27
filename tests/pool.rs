use bonding_curve::errors::PoolError;
use bonding_curve::state::{BuyOutcome, Drain, Holdings, Key, LiquidityPool, LiveBalances, PoolPhase};
use bonding_curve::table::CurveTable;

const UNIT: u64 = 1_000_000_000;
const FULL_CAP: u64 = 800_000_000_000_000_000;
const SEED: u64 = 10_000_000;

fn key(n: u64) -> Key {
    Key { w0: n, w1: 0, w2: 0, w3: 0 }
}

fn scenario_table() -> CurveTable {
    CurveTable::new(vec![0, 1000], vec![0, 1000], 10 * UNIT, 9).unwrap()
}

fn full_table() -> CurveTable {
    CurveTable::new(vec![0, FULL_CAP / 2, FULL_CAP], vec![0, FULL_CAP / 2, FULL_CAP], 10 * UNIT, 9).unwrap()
}

fn no_holdings() -> Holdings {
    Holdings { mint_supply: 0, pool_tokens: 0, vault_currency: 0 }
}

/// A pool with the whole cap in reserve and the bootstrap seed in its vault.
fn funded_pool() -> LiquidityPool {
    let mut p = LiquidityPool::new(key(1), key(2), 254);
    p.add_liquidity(Holdings { mint_supply: FULL_CAP, pool_tokens: FULL_CAP, vault_currency: SEED });
    p
}

#[test]
fn new_pool_is_active_and_empty() {
    let p = LiquidityPool::new(key(1), key(2), 7);
    assert_eq!(p.phase, PoolPhase::Active);
    assert_eq!(p.reserve_token, 0);
    assert_eq!(p.reserve_currency, 0);
    assert_eq!(p.migration_authority, key(1));
    assert_eq!(p.cap_reached_at, None);
    assert_eq!(p.external_market, None);
    assert_eq!(p.lock_record, None);
    assert_eq!(p.bump, 7);
}

#[test]
fn scenario_a_pool_buy() {
    let t = scenario_table();
    let mut p = funded_pool();
    let r = p.buy(&t, 5 * UNIT, no_holdings(), 42);
    assert_eq!(r, Ok(BuyOutcome { tokens_out: 500, currency_spent: 5 * UNIT, cap_reached: false }));
    assert_eq!(p.reserve_token, FULL_CAP - 500);
    assert_eq!(p.reserve_currency, SEED + 5 * UNIT);
    assert_eq!(p.phase, PoolPhase::Active);
}

#[test]
fn scenario_b_pool_sell() {
    let t = scenario_table();
    let mut p = funded_pool();
    p.buy(&t, 5 * UNIT, no_holdings(), 42).unwrap();
    let out = p.sell(&t, 500).unwrap();
    assert_eq!(out, 5 * UNIT - 10_000_000 + 1);
    assert_eq!(p.reserve_token, FULL_CAP);
    assert_eq!(p.reserve_currency, SEED + 5 * UNIT - out);
}

#[test]
fn buy_initializes_unrecorded_reserves_from_holdings() {
    let t = scenario_table();
    let mut p = LiquidityPool::new(key(1), key(2), 1);
    let h = Holdings { mint_supply: FULL_CAP + 5, pool_tokens: FULL_CAP, vault_currency: SEED };
    let o = p.buy(&t, 5 * UNIT, h, 9).unwrap();
    assert_eq!(o.tokens_out, 500);
    assert_eq!(p.total_supply, FULL_CAP + 5);
    assert_eq!(p.reserve_token, FULL_CAP - 500);
    assert_eq!(p.reserve_currency, SEED + 5 * UNIT);
}

#[test]
fn scenario_c_buy_to_cap_enters_migrating() {
    let t = full_table();
    let mut p = funded_pool();
    let o = p.buy(&t, 20 * UNIT, no_holdings(), 77).unwrap();
    assert_eq!(o, BuyOutcome { tokens_out: FULL_CAP, currency_spent: 10 * UNIT, cap_reached: true });
    assert_eq!(p.phase, PoolPhase::Migrating);
    assert_eq!(p.cap_reached_at, Some(77));
    assert_eq!(p.reserve_snapshot_token, FULL_CAP);
    assert_eq!(p.reserve_snapshot_currency, SEED + 10 * UNIT);
    assert_eq!(p.reserve_snapshot_currency, p.reserve_currency);
    assert!(p.reserve_snapshot_token > 0 && p.reserve_snapshot_currency > 0);
    assert_eq!(p.reserve_token, 0);
    assert_eq!(p.reserve_currency, SEED + 10 * UNIT);
    // Trading is now halted.
    assert_eq!(p.buy(&t, UNIT, no_holdings(), 78), Err(PoolError::InvalidAmount));
    assert_eq!(p.sell(&t, 10), Err(PoolError::InvalidAmount));
}

#[test]
fn scenario_d_start_before_cap_fails() {
    let t = full_table();
    let mut p = funded_pool();
    p.buy(&t, UNIT, no_holdings(), 5).unwrap();
    let before = p;
    let bal = LiveBalances { pool_tokens: p.reserve_token, treasury_tokens: 9, vault_currency: 3 };
    assert_eq!(p.start_migration(&t, key(1), bal, 6), Err(PoolError::CapNotReached));
    assert_eq!(p, before);
}

#[test]
fn scenario_e_finalize_while_active_fails() {
    let mut p = funded_pool();
    let before = p;
    assert_eq!(p.finalize_migration(key(1), key(50), None), Err(PoolError::BadPhase));
    assert_eq!(p, before);
}

#[test]
fn zero_amount_trades_change_nothing() {
    let t = scenario_table();
    let mut p = funded_pool();
    let before = p;
    assert_eq!(p.buy(&t, 0, no_holdings(), 1), Err(PoolError::InvalidAmount));
    assert_eq!(p.sell(&t, 0), Err(PoolError::InvalidAmount));
    assert_eq!(p, before);
}

#[test]
fn buys_raise_sold_strictly_until_the_cap() {
    let t = full_table();
    let mut p = funded_pool();
    let mut sold = FULL_CAP - p.reserve_token;
    let mut slot = 0;
    loop {
        slot += 1;
        match p.buy(&t, 3 * UNIT, no_holdings(), slot) {
            Ok(o) => {
                let now = FULL_CAP - p.reserve_token;
                assert!(now > sold);
                assert!(now <= FULL_CAP);
                assert!(o.currency_spent <= 3 * UNIT);
                sold = now;
                if o.cap_reached {
                    break;
                }
            }
            Err(e) => panic!("unexpected refusal {:?}", e),
        }
    }
    assert_eq!(sold, FULL_CAP);
    assert_eq!(p.phase, PoolPhase::Migrating);
    assert_eq!(p.buy(&t, 3 * UNIT, no_holdings(), slot + 1), Err(PoolError::InvalidAmount));
}

#[test]
fn buy_tokens_never_exceed_reserve() {
    let t = full_table();
    let mut p = funded_pool();
    p.update_reserves(1000, SEED);
    // The rest of the curve would release far more than the pool holds; the
    // buyer gets what remains under the cap, which is the whole reserve.
    let o = p.buy(&t, 20 * UNIT, no_holdings(), 3).unwrap();
    assert_eq!(o.tokens_out, 1000);
    assert_eq!(o.currency_spent, 1);
    assert!(o.cap_reached);
    assert_eq!(p.reserve_token, 0);
}

#[test]
fn buy_overflowing_currency_reserve_is_refused() {
    let t = scenario_table();
    let mut p = funded_pool();
    p.update_reserves(FULL_CAP, u64::MAX - 10);
    let before = p;
    assert_eq!(p.buy(&t, UNIT, no_holdings(), 3), Err(PoolError::ArithmeticOverflow));
    assert_eq!(p, before);
}

#[test]
fn sell_needs_currency_reserve_but_not_token_reserve() {
    let t = scenario_table();
    let mut p = funded_pool();
    p.buy(&t, 5 * UNIT, no_holdings(), 1).unwrap();
    // Pay-out exceeds the currency reserve.
    p.update_reserves(FULL_CAP - 500, 1_000);
    let before = p;
    assert_eq!(p.sell(&t, 500), Err(PoolError::InsufficientReserve));
    assert_eq!(p, before);
    // Selling more tokens than the pool holds is accepted.
    p.update_reserves(100, 10 * UNIT);
    let out = p.sell(&t, 300).unwrap();
    assert!(out <= 10 * UNIT);
    assert_eq!(p.reserve_token, 400);
    assert_eq!(p.reserve_currency, 10 * UNIT - out);
}

#[test]
fn sell_overflowing_token_reserve_is_refused() {
    let t = scenario_table();
    let mut p = funded_pool();
    p.update_reserves(u64::MAX - 1, SEED);
    let before = p;
    assert_eq!(p.sell(&t, 5), Err(PoolError::ArithmeticOverflow));
    assert_eq!(p, before);
}

#[test]
fn start_migration_requires_the_authority() {
    let t = full_table();
    let mut p = funded_pool();
    p.buy(&t, 20 * UNIT, no_holdings(), 3).unwrap();
    let before = p;
    let bal = LiveBalances { pool_tokens: 0, treasury_tokens: 0, vault_currency: 0 };
    assert_eq!(p.start_migration(&t, key(9), bal, 4), Err(PoolError::UnauthorizedActor));
    assert_eq!(p, before);
}

#[test]
fn start_migration_drains_after_cap() {
    let t = full_table();
    let mut p = funded_pool();
    p.buy(&t, 20 * UNIT, no_holdings(), 3).unwrap();
    let snap = (p.reserve_snapshot_token, p.reserve_snapshot_currency);
    let bal = LiveBalances { pool_tokens: 0, treasury_tokens: 200, vault_currency: SEED + 10 * UNIT };
    let d = p.start_migration(&t, key(1), bal, 4).unwrap();
    assert_eq!(
        d,
        Drain { pool_tokens: 0, treasury_tokens: 200, vault_currency: SEED + 10 * UNIT, entered_migrating: false }
    );
    assert_eq!(p.phase, PoolPhase::Migrating);
    assert_eq!(p.cap_reached_at, Some(3));
    assert_eq!((p.reserve_snapshot_token, p.reserve_snapshot_currency), snap);
    assert_eq!(p.reserve_token, 0);
    assert_eq!(p.reserve_currency, 0);
}

#[test]
fn start_migration_from_active_at_cap_switches_phase() {
    let t = full_table();
    let mut p = LiquidityPool::new(key(1), key(2), 1);
    p.update_reserves(0, 500);
    let bal = LiveBalances { pool_tokens: 40, treasury_tokens: 0, vault_currency: 600 };
    let d = p.start_migration(&t, key(1), bal, 11).unwrap();
    assert!(d.entered_migrating);
    assert_eq!(p.phase, PoolPhase::Migrating);
    assert_eq!(p.cap_reached_at, Some(11));
    assert_eq!(p.reserve_snapshot_token, 40);
    assert_eq!(p.reserve_snapshot_currency, 600);
    assert_eq!(p.reserve_token, 0);
    assert_eq!(p.reserve_currency, 0);
}

#[test]
fn start_migration_backfills_missing_snapshot_only() {
    let t = full_table();
    let mut p = LiquidityPool::new(key(1), key(2), 1);
    p.phase = PoolPhase::Migrating;
    p.cap_reached_at = Some(8);
    p.reserve_snapshot_currency = 123;
    let bal = LiveBalances { pool_tokens: 0, treasury_tokens: 0, vault_currency: 999 };
    let d = p.start_migration(&t, key(1), bal, 20).unwrap();
    assert!(!d.entered_migrating);
    assert_eq!(p.cap_reached_at, Some(8));
    assert_eq!(p.reserve_snapshot_token, 0);
    assert_eq!(p.reserve_snapshot_currency, 123);
    let mut q = LiquidityPool::new(key(1), key(2), 1);
    q.phase = PoolPhase::Migrating;
    q.backfill_snapshots(LiveBalances { pool_tokens: 70, treasury_tokens: 1, vault_currency: 80 });
    assert_eq!((q.reserve_snapshot_token, q.reserve_snapshot_currency), (70, 80));
    assert_eq!(q.phase, PoolPhase::Migrating);
    assert_eq!(q.cap_reached_at, None);
}

#[test]
fn finalize_records_market_and_lock() {
    let t = full_table();
    let mut p = funded_pool();
    p.buy(&t, 20 * UNIT, no_holdings(), 3).unwrap();
    assert_eq!(p.finalize_migration(key(9), key(50), None), Err(PoolError::UnauthorizedActor));
    assert_eq!(p.finalize_migration(key(1), key(50), Some(key(60))), Ok(()));
    assert_eq!(p.phase, PoolPhase::Migrated);
    assert_eq!(p.external_market, Some(key(50)));
    assert_eq!(p.lock_record, Some(key(60)));
    assert_eq!(p.finalize_migration(key(1), key(51), Some(key(61))), Err(PoolError::BadPhase));
    assert_eq!(p.external_market, Some(key(50)));
    assert_eq!(p.lock_record, Some(key(60)));
    let bal = LiveBalances { pool_tokens: 1, treasury_tokens: 1, vault_currency: 1 };
    assert_eq!(p.start_migration(&t, key(1), bal, 9), Err(PoolError::BadPhase));
}

#[test]
fn finalize_without_lock_leaves_it_unset() {
    let mut p = LiquidityPool::new(key(1), key(2), 1);
    p.phase = PoolPhase::Migrating;
    assert_eq!(p.finalize_migration(key(1), key(50), None), Ok(()));
    assert_eq!(p.lock_record, None);
    assert_eq!(p.external_market, Some(key(50)));
}

fn rank(p: PoolPhase) -> u8 {
    match p {
        PoolPhase::Active => 0,
        PoolPhase::Migrating => 1,
        PoolPhase::Migrated => 2,
    }
}

#[test]
fn phase_never_regresses_across_operations() {
    let t = full_table();
    let mut p = funded_pool();
    let mut seen = vec![p.phase];
    let _ = p.buy(&t, UNIT, no_holdings(), 1);
    seen.push(p.phase);
    let _ = p.sell(&t, 10);
    seen.push(p.phase);
    let _ = p.buy(&t, 20 * UNIT, no_holdings(), 2);
    seen.push(p.phase);
    let _ = p.buy(&t, UNIT, no_holdings(), 3);
    seen.push(p.phase);
    let bal = LiveBalances { pool_tokens: 0, treasury_tokens: 0, vault_currency: 5 };
    let _ = p.start_migration(&t, key(1), bal, 4);
    seen.push(p.phase);
    let _ = p.finalize_migration(key(1), key(50), None);
    seen.push(p.phase);
    let _ = p.start_migration(&t, key(1), bal, 5);
    seen.push(p.phase);
    let _ = p.sell(&t, 10);
    seen.push(p.phase);
    for i in 0..seen.len() {
        for j in i..seen.len() {
            assert!(rank(seen[i]) <= rank(seen[j]));
        }
    }
    assert_eq!(seen.last(), Some(&PoolPhase::Migrated));
}

#[test]
fn cap_filling_buy_snapshots_updated_currency_reserve() {
    let t = CurveTable::new(vec![0, 800_000_000], vec![0, 800_000_000], 800_000_000, 0).unwrap();
    let mut p = LiquidityPool::new(key(1), key(2), 1);
    p.update_reserves(1, 0);
    let o = p.buy(&t, 1, no_holdings(), 12).unwrap();
    assert_eq!(o, BuyOutcome { tokens_out: 1, currency_spent: 1, cap_reached: true });
    assert_eq!(p.phase, PoolPhase::Migrating);
    assert_eq!(p.reserve_snapshot_token, 1);
    assert_eq!(p.reserve_snapshot_currency, 1);
    assert_eq!(p.reserve_currency, 1);
    assert_eq!(p.reserve_token, 0);
}
