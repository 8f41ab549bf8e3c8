//! Time-weighted averages, pruning, migration, simulation, manual
//! aggregation, batch submissions and validation bounds.

use price_oracle::migration::{MigrationState, StorageMigration};
use price_oracle::oracle::PriceOracleContract;
use price_oracle::pruning::Retention;
use price_oracle::types::{Asset, ErrorCode, LedgerInfo, PriceBounds, TwapMethod};

const ADMIN: u64 = 1;
const SOURCE: u64 = 10;
const ASSET: u64 = 100;

fn at(sequence: u32, timestamp: u64) -> LedgerInfo {
    LedgerInfo { sequence, timestamp }
}

fn feed() -> PriceOracleContract {
    let mut c = PriceOracleContract::initialize(ADMIN, 1, 100, 7, "Oracle".to_string()).unwrap();
    c.add_source(ADMIN, SOURCE).unwrap();
    c.register_asset(ADMIN, ASSET).unwrap();
    c
}

/// Aggregates `prices` at ledgers 10, 20, 30, ... with timestamps 100, 200, ...
fn with_history(prices: &[i128]) -> PriceOracleContract {
    let mut c = feed();
    for (i, p) in prices.iter().enumerate() {
        let l = 10 * (i as u32 + 1);
        c.submit_price(SOURCE, ASSET, *p, l as u64 * 10, i as u64 + 1, at(l, l as u64 * 10)).unwrap();
    }
    c
}

#[test]
fn arithmetic_twap_weighs_prices_by_ledgers() {
    let c = with_history(&[100, 200]);
    let twap = c.get_twap(&Asset::Stellar(ASSET), 20, TwapMethod::Arithmetic, at(29, 290)).unwrap().unwrap();
    assert_eq!(twap.price, 150);
    assert_eq!(twap.timestamp, 290);
    assert_eq!(twap.last_updated, 29);
}

#[test]
fn geometric_twap_lies_between_the_prices() {
    let c = with_history(&[100, 400]);
    let twap = c.get_twap(&Asset::Stellar(ASSET), 20, TwapMethod::Geometric, at(29, 290)).unwrap().unwrap();
    assert!((195..=205).contains(&twap.price));
}

#[test]
fn twap_window_errors() {
    let c = with_history(&[100]);
    assert_eq!(c.get_twap(&Asset::Stellar(ASSET), 0, TwapMethod::Arithmetic, at(20, 0)), Err(ErrorCode::InvalidConfiguration));
    assert_eq!(c.get_twap(&Asset::Stellar(ASSET), 101, TwapMethod::Arithmetic, at(20, 0)), Err(ErrorCode::InvalidConfiguration));
    assert_eq!(c.get_twap(&Asset::Stellar(999), 10, TwapMethod::Arithmetic, at(20, 0)), Ok(None));
    assert_eq!(c.get_twap(&Asset::Other("BTC".to_string()), 10, TwapMethod::Arithmetic, at(20, 0)), Ok(None));
}

#[test]
fn pruning_by_retention_window_and_length() {
    let mut c = with_history(&[100, 101, 102, 103, 104]);
    let mut r = Retention::new();
    assert_eq!(c.prune_by_timestamp(&r, ASSET, at(60, 600)), Ok(0));
    assert_eq!(r.set_asset_retention_window(&c, 9, ASSET, 300), Err(ErrorCode::NotAuthorized));
    assert_eq!(r.set_asset_retention_window(&c, ADMIN, 999, 300), Err(ErrorCode::AssetNotRegistered));
    r.set_asset_retention_window(&c, ADMIN, ASSET, 300).unwrap();
    assert_eq!(r.get_asset_retention_window(&c, ASSET), Ok(300));
    // entries stamped 100..500; the cutoff at 600 - 300 keeps 300, 400, 500
    assert_eq!(c.prune_by_timestamp(&r, ASSET, at(60, 600)), Ok(2));
    assert_eq!(c.prune_history(9, ASSET, 1), Err(ErrorCode::NotAuthorized));
    assert_eq!(c.prune_history(ADMIN, ASSET, 1), Ok(2));
    assert_eq!(c.prune_history(ADMIN, ASSET, 1), Ok(0));
    r.remove_asset_retention_window(&c, ADMIN, ASSET).unwrap();
    assert_eq!(r.remove_asset_retention_window(&c, ADMIN, ASSET), Err(ErrorCode::NoData));
}

#[test]
fn migration_runs_in_batches() {
    let mut c = feed();
    c.register_asset(ADMIN, 101).unwrap();
    c.register_asset(ADMIN, 102).unwrap();
    let mut m = StorageMigration { version: None, state: None };
    assert_eq!(m.get_storage_version(), 1);
    assert_eq!(m.migrate_storage(&mut c, 9, 2, at(5, 0)), Err(ErrorCode::NotAuthorized));
    m.migrate_storage(&mut c, ADMIN, 2, at(5, 0)).unwrap();
    let st: MigrationState = m.get_migration_state().unwrap();
    assert_eq!((st.from_version, st.to_version, st.cursor, st.started_ledger), (1, 2, 2, 5));
    assert_eq!(m.get_storage_version(), 1);
    assert_eq!(c.get_aggregate_with_version(ASSET).unwrap().0.price, 0);
    m.migrate_storage(&mut c, ADMIN, 2, at(6, 0)).unwrap();
    assert_eq!(m.get_migration_state(), None);
    assert_eq!(m.get_storage_version(), 2);
    assert_eq!(c.get_aggregate_with_version(102).unwrap().0.price, 0);
    m.migrate_storage(&mut c, ADMIN, 2, at(7, 0)).unwrap();
    assert_eq!(m.get_storage_version(), 2);
}

#[test]
fn simulation_counts_positive_prices_only() {
    let mut c = feed();
    c.add_source(ADMIN, 11).unwrap();
    c.add_source(ADMIN, 12).unwrap();
    c.set_min_sources_required(ADMIN, 2).unwrap();
    assert_eq!(c.simulate_aggregation(ASSET, &vec![(10, 100), (11, -5)]), Ok(None));
    assert_eq!(c.simulate_aggregation(ASSET, &vec![(10, 100), (11, 300), (12, 0)]), Ok(Some(200)));
    c.set_aggregation_method(ADMIN, 1).unwrap();
    assert_eq!(c.simulate_aggregation(ASSET, &vec![(10, 100), (11, 300), (12, 500)]), Ok(Some(300)));
    assert_eq!(c.simulate_aggregation(999, &vec![]), Err(ErrorCode::AssetNotRegistered));
}

#[test]
fn manual_aggregation_respects_cooldown() {
    let mut c = feed();
    assert_eq!(c.trigger_aggregation(ASSET, at(10, 100)), Err(ErrorCode::InsufficientSources));
    c.submit_price(SOURCE, ASSET, 500, 100, 1, at(10, 100)).unwrap();
    c.set_aggregation_cooldown(ADMIN, 5).unwrap();
    c.trigger_aggregation(ASSET, at(11, 110)).unwrap();
    assert_eq!(c.trigger_aggregation(ASSET, at(12, 120)), Err(ErrorCode::InvalidConfiguration));
    c.trigger_aggregation(ASSET, at(16, 160)).unwrap();
    assert_eq!(c.trigger_aggregation(999, at(30, 300)), Err(ErrorCode::AssetNotRegistered));
}

#[test]
fn batch_submission_is_all_or_nothing() {
    let mut c = feed();
    c.register_asset(ADMIN, 101).unwrap();
    assert_eq!(c.submit_prices(SOURCE, &vec![(ASSET, 100, 10), (101, 0, 10)], at(1, 10)), Err(ErrorCode::InvalidPrice));
    assert!(c.get_source_price(ASSET, SOURCE).is_err());
    c.submit_prices(SOURCE, &vec![(ASSET, 100, 10), (101, 200, 10)], at(1, 10)).unwrap();
    assert_eq!(c.get_source_price(ASSET, SOURCE).unwrap().price, 100);
    assert_eq!(c.get_source_price(101, SOURCE).unwrap().price, 200);
}

#[test]
fn bounds_and_asset_pause_refuse_submissions() {
    let mut c = feed();
    let bounds = PriceBounds { min_price: 50, max_price: 1_000, max_change_bps_per_ledger: 0 };
    assert_eq!(c.set_price_bounds(9, ASSET, bounds), Err(ErrorCode::NotAuthorized));
    c.set_price_bounds(ADMIN, ASSET, bounds).unwrap();
    assert_eq!(c.submit_price(SOURCE, ASSET, 49, 10, 1, at(1, 10)), Err(ErrorCode::PriceOutOfBounds));
    assert_eq!(c.submit_price(SOURCE, ASSET, 1_001, 10, 1, at(1, 10)), Err(ErrorCode::PriceOutOfBounds));
    c.set_asset_paused(ADMIN, ASSET, true).unwrap();
    assert!(c.is_asset_paused(ASSET));
    assert_eq!(c.submit_price(SOURCE, ASSET, 500, 10, 1, at(1, 10)), Err(ErrorCode::AssetPaused));
    c.set_asset_paused(ADMIN, ASSET, false).unwrap();
    c.submit_price(SOURCE, ASSET, 500, 10, 1, at(1, 10)).unwrap();
}

#[test]
fn per_ledger_change_limit() {
    let mut c = feed();
    c.set_price_bounds(ADMIN, ASSET, PriceBounds { min_price: 1, max_price: 1_000_000, max_change_bps_per_ledger: 1_000 }).unwrap();
    c.submit_price(SOURCE, ASSET, 1_000, 10, 1, at(1, 10)).unwrap();
    c.submit_price(SOURCE, ASSET, 1_100, 20, 2, at(2, 20)).unwrap();
    assert_eq!(c.submit_price(SOURCE, ASSET, 1_500, 30, 3, at(3, 30)), Err(ErrorCode::CircuitBreakerTripped));
    assert_eq!(c.get_source_price(ASSET, SOURCE).unwrap().price, 1_100);
}
