//! Aggregate versions, migration of current storage, bar limits, the
//! manual-aggregation cooldown, asset compaction and fixed-point laws.

use price_oracle::fixed::{exp2_fixed, exp2_frac, log2_fixed};
use price_oracle::history::compact_history;
use price_oracle::migration::StorageMigration;
use price_oracle::ohlcv::{ohlcv_bars, MAX_OHLCV_BARS};
use price_oracle::oracle::PriceOracleContract;
use price_oracle::types::{ErrorCode, LedgerInfo, PriceHistoryEntry};

const ADMIN: u64 = 1;
const SOURCE: u64 = 10;
const ASSET: u64 = 100;

fn at(sequence: u32, timestamp: u64) -> LedgerInfo {
    LedgerInfo { sequence, timestamp }
}

fn feed() -> PriceOracleContract {
    let mut c = PriceOracleContract::initialize(ADMIN, 1, 100, 7, "Oracle".to_string()).unwrap();
    c.add_source(ADMIN, SOURCE).unwrap();
    c.register_asset(ADMIN, ASSET).unwrap();
    c
}

#[test]
fn version_starts_at_zero_and_counts_price_changes() {
    let mut c = feed();
    c.submit_price(SOURCE, ASSET, 1_000, 10, 1, at(1, 10)).unwrap();
    assert_eq!(c.get_aggregate_with_version(ASSET).unwrap().1, 0);
    c.submit_price(SOURCE, ASSET, 1_000, 20, 2, at(2, 20)).unwrap();
    assert_eq!(c.get_aggregate_with_version(ASSET).unwrap().1, 0);
    c.submit_price(SOURCE, ASSET, 1_020, 30, 3, at(3, 30)).unwrap();
    assert_eq!(c.get_aggregate_with_version(ASSET).unwrap().1, 1);
    c.submit_price(SOURCE, ASSET, 1_010, 40, 4, at(4, 40)).unwrap();
    assert_eq!(c.get_aggregate_with_version(ASSET).unwrap().1, 2);
}

#[test]
fn manual_aggregation_first_version_is_zero() {
    let mut c = feed();
    c.submit_price(SOURCE, ASSET, 1_000, 10, 1, at(1, 10)).unwrap();
    c.trigger_aggregation(ASSET, at(2, 20)).unwrap();
    assert_eq!(c.get_aggregate_with_version(ASSET).unwrap().1, 0);
}

#[test]
fn migration_leaves_newer_storage_version_alone() {
    let mut c = feed();
    let mut m = StorageMigration { version: Some(3), state: None };
    m.migrate_storage(&mut c, ADMIN, 0, at(5, 0)).unwrap();
    assert_eq!(m.get_storage_version(), 3);
    assert_eq!(m.get_migration_state(), None);
    let mut current = StorageMigration { version: Some(2), state: None };
    current.migrate_storage(&mut c, ADMIN, 0, at(5, 0)).unwrap();
    assert_eq!(current.get_storage_version(), 2);
}

#[test]
fn at_most_the_bar_limit_is_returned() {
    let h: Vec<PriceHistoryEntry> = (0..600u32)
        .map(|i| PriceHistoryEntry { price: 100 + i as i128, timestamp: i as u64 * 3_600, ledger: i + 1, num_sources: 1, is_interpolated: false })
        .collect();
    let bars = ohlcv_bars(&h, 3_600, 0, u64::MAX);
    assert_eq!(bars.len(), MAX_OHLCV_BARS);
    assert_eq!(bars.last().unwrap().bucket_start, 499 * 3_600);
    let few = ohlcv_bars(&h[..3].to_vec(), 3_600, 0, u64::MAX);
    assert_eq!(few.len(), 3);
}

#[test]
fn cooldown_defaults_to_ten_ledgers() {
    let mut c = feed();
    assert_eq!(c.get_aggregation_cooldown(), 10);
    c.submit_price(SOURCE, ASSET, 1_000, 10, 1, at(1, 10)).unwrap();
    c.trigger_aggregation(ASSET, at(2, 20)).unwrap();
    assert_eq!(c.trigger_aggregation(ASSET, at(11, 110)), Err(ErrorCode::InvalidConfiguration));
    c.trigger_aggregation(ASSET, at(12, 120)).unwrap();
}

#[test]
fn asset_compaction_rewrites_history_and_records_it() {
    let mut c = feed();
    for (i, p) in [10_000i128, 10_010, 10_500, 10_501, 10_502].iter().enumerate() {
        let l = i as u32 + 1;
        c.submit_price(SOURCE, ASSET, *p, l as u64 * 10, l as u64, at(l, l as u64 * 10)).unwrap();
    }
    c.set_compaction_threshold_bps(50);
    assert_eq!(c.compact_asset_history(9, ASSET, at(9, 90)), Err(ErrorCode::NotAuthorized));
    assert_eq!(c.compact_asset_history(ADMIN, 999, at(9, 90)), Err(ErrorCode::AssetNotRegistered));
    let meta = c.compact_asset_history(ADMIN, ASSET, at(9, 90)).unwrap();
    assert_eq!((meta.original_count, meta.compacted_count, meta.last_compaction_ledger, meta.threshold_bps), (5, 3, 9, 50));
    assert_eq!(c.get_compaction_metadata(ASSET), Some(meta));
    let ledgers: Vec<u32> = c.get_historical_prices(ASSET, 0, 50).unwrap().iter().map(|e| e.ledger).collect();
    assert_eq!(ledgers, vec![1, 3, 5]);
    // a second compaction keeps what the first one kept
    let again = c.compact_asset_history(ADMIN, ASSET, at(10, 100)).unwrap();
    assert_eq!((again.original_count, again.compacted_count), (3, 3));
}

#[test]
fn compaction_is_idempotent_on_a_history() {
    let h: Vec<PriceHistoryEntry> = [100i128, 100, 130, 131, 200, 199]
        .iter()
        .enumerate()
        .map(|(i, p)| PriceHistoryEntry { price: *p, timestamp: i as u64, ledger: i as u32, num_sources: 1, is_interpolated: false })
        .collect();
    let (once, _) = compact_history(&h, 200, 7);
    let (twice, meta) = compact_history(&once, 200, 7);
    assert_eq!(once, twice);
    assert_eq!(meta.original_count, meta.compacted_count);
}

#[test]
fn fixed_point_laws_on_examples() {
    assert!(log2_fixed(1_000) <= log2_fixed(1_001));
    assert!(log2_fixed(1 << 40) < log2_fixed((1 << 40) + 1) || log2_fixed(1 << 40) == log2_fixed((1 << 40) + 1));
    let l = log2_fixed(3 << 40);
    assert_eq!(l >> 32, 41 - 32);
    for k in [0u32, 5, 31, 32, 33, 100, 126] {
        assert_eq!(exp2_fixed(log2_fixed(1i128 << k)), 1i128 << k);
    }
    let e = exp2_fixed((5i128 << 32) + (1 << 31));
    assert!((1i128 << 37) <= e && e < (1i128 << 38));
}

#[test]
fn log2_fixed_rounds_the_true_logarithm_down() {
    let one = 4294967296.0f64;
    for x in [1i128, 3, 1_000, 4294967296, 3 << 40, 123_456_789_012_345, i128::MAX] {
        let r = log2_fixed(x) as f64 / one;
        let exact = (x as f64).log2() - 32.0;
        assert!(r <= exact + 1e-6, "{} {} {}", x, r, exact);
        assert!(exact < r + 1.0, "{} {} {}", x, r, exact);
    }
}

#[test]
fn exp2_frac_never_exceeds_its_polynomial() {
    let one = 4294967296.0f64;
    for f in [0u128, 1, 1 << 20, 1 << 31, 3_000_000_000, 4294967295] {
        let t = f as f64 * 2977044471.0 / (one * one);
        let mut term = 1.0f64;
        let mut poly = 1.0f64;
        for k in 1..=6 {
            term = term * t / k as f64;
            poly += term;
        }
        let e = exp2_frac(f) as f64;
        assert!(e <= one * poly + 1e-3, "{} {} {}", f, e, one * poly);
        assert!(e <= one * (f as f64 / one).exp2() + 1e-3, "{} {}", f, e);
        assert!(e >= one);
    }
}
