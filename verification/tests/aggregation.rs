//! Median aggregation through the submission path.

use price_oracle::oracle::PriceOracleContract;
use price_oracle::types::LedgerInfo;

const ADMIN: u64 = 1;
const ASSET: u64 = 100;
const NOW: LedgerInfo = LedgerInfo { sequence: 100, timestamp: 1_000 };

fn feed(sources: u64, min_sources: u32) -> PriceOracleContract {
    let mut c = PriceOracleContract::initialize(ADMIN, 1, 100, 7, "Oracle".to_string()).unwrap();
    for s in 0..sources {
        c.add_source(ADMIN, 10 + s).unwrap();
    }
    c.register_asset(ADMIN, ASSET).unwrap();
    c.set_min_sources_required(ADMIN, min_sources).unwrap();
    c
}

fn submit_all(c: &mut PriceOracleContract, prices: &[i128], ts: u64) {
    for (i, p) in prices.iter().enumerate() {
        c.submit_price(10 + i as u64, ASSET, *p, ts, 1, NOW).unwrap();
    }
}

fn aggregate_price(c: &mut PriceOracleContract) -> i128 {
    c.get_price(ASSET, 0, NOW).unwrap().unwrap().price
}

#[test]
fn test_median_of_single_price_returns_that_price() {
    let mut c = feed(1, 1);
    submit_all(&mut c, &[1_000_000], 1_000);
    assert_eq!(aggregate_price(&mut c), 1_000_000);
}

#[test]
fn test_median_of_odd_prices_returns_middle_value() {
    let mut c = feed(3, 3);
    submit_all(&mut c, &[1_000_000, 2_000_000, 3_000_000], 1_000);
    assert_eq!(aggregate_price(&mut c), 2_000_000);
}

#[test]
fn test_median_of_even_prices_returns_average_of_middle_two() {
    let mut c = feed(4, 4);
    submit_all(&mut c, &[1_000_000, 2_000_000, 3_000_000, 4_000_000], 1_000);
    assert_eq!(aggregate_price(&mut c), 2_500_000);
}

#[test]
fn test_median_with_outliers_ignores_extremes() {
    let mut c = feed(5, 5);
    submit_all(&mut c, &[100_000, 2_000_000, 2_100_000, 2_200_000, 100_000_000], 1_000);
    assert_eq!(aggregate_price(&mut c), 2_100_000);
}

#[test]
fn test_no_overflow_with_large_price_values() {
    let large_price = i128::MAX / 2;
    let mut c = feed(3, 3);
    submit_all(&mut c, &[large_price, large_price, large_price], 1_000);
    assert_eq!(aggregate_price(&mut c), large_price);
}

#[test]
fn test_aggregate_price_includes_all_source_prices() {
    let mut c = feed(3, 3);
    submit_all(&mut c, &[1_000_000, 2_000_000, 3_000_000], 1_000);
    assert_eq!(c.get_all_prices(ASSET).unwrap().len(), 3);
}

#[test]
fn test_per_source_price_retrieval_accuracy() {
    let mut c = feed(1, 1);
    submit_all(&mut c, &[1_234_567], 1_000);
    assert_eq!(c.get_source_price(ASSET, 10).unwrap().price, 1_234_567);
}

#[test]
fn test_median_parity_verification() {
    let mut c = feed(5, 5);
    submit_all(&mut c, &[5_000_000, 1_000_000, 3_000_000, 2_000_000, 4_000_000], 1_000);
    assert_eq!(aggregate_price(&mut c), 3_000_000);
}

#[test]
fn test_price_timestamp_consistency_in_aggregation() {
    let mut c = feed(3, 3);
    submit_all(&mut c, &[1_000_000, 2_000_000, 3_000_000], 1_000);
    assert_eq!(c.get_price(ASSET, 0, NOW).unwrap().unwrap().timestamp, 1_000);
}

#[test]
fn no_aggregate_until_enough_sources() {
    let mut c = feed(3, 3);
    submit_all(&mut c, &[1_000_000, 2_000_000], 1_000);
    assert_eq!(c.get_price(ASSET, 0, NOW).unwrap(), None);
}

#[test]
fn non_positive_price_is_refused() {
    let mut c = feed(1, 1);
    assert_eq!(c.submit_price(10, ASSET, 0, 1_000, 1, NOW), Err(price_oracle::types::ErrorCode::InvalidPrice));
    assert_eq!(c.submit_price(10, ASSET, -5, 1_000, 1, NOW), Err(price_oracle::types::ErrorCode::InvalidPrice));
}

#[test]
fn replayed_nonce_is_refused() {
    let mut c = feed(1, 1);
    c.submit_price(10, ASSET, 1_000, 1_000, 5, NOW).unwrap();
    assert_eq!(c.submit_price(10, ASSET, 1_000, 1_000, 5, NOW), Err(price_oracle::types::ErrorCode::InvalidNonce));
}

#[test]
fn paused_oracle_refuses_submissions() {
    let mut c = feed(1, 1);
    c.pause(ADMIN).unwrap();
    assert_eq!(c.submit_price(10, ASSET, 1_000, 1_000, 1, NOW), Err(price_oracle::types::ErrorCode::ContractPaused));
    assert_eq!(c.get_price(ASSET, 0, NOW).unwrap(), None);
    c.unpause(ADMIN).unwrap();
    c.submit_price(10, ASSET, 1_000, 1_000, 1, NOW).unwrap();
    assert_eq!(aggregate_price(&mut c), 1_000);
}

#[test]
fn change_percent_against_history() {
    let mut c = feed(1, 1);
    c.submit_price(10, ASSET, 1_000, 1_000, 1, LedgerInfo { sequence: 100, timestamp: 1_000 }).unwrap();
    let later = LedgerInfo { sequence: 200, timestamp: 2_000 };
    let agg = c.submit_price(10, ASSET, 1_050, 2_000, 2, later).unwrap().unwrap();
    assert_eq!(c.historical_price_change_percent(ASSET, agg, 100, later), Some(5));
    assert_eq!(c.historical_price_change_percent(ASSET, agg, 50, later), None);
    assert_eq!(c.historical_price_change_percent(ASSET, agg, 0, later), Some(0));
}

#[test]
fn candidate_counts_priced_sources() {
    let mut c = feed(4, 3);
    c.submit_price(10, ASSET, 100, 900, 1, NOW).unwrap();
    // One stored price plus the candidate's own: two of the required three.
    assert_eq!(c.build_candidate_aggregate(ASSET, 11, 110, 950, 100), None);
    c.submit_price(12, ASSET, 120, 910, 1, NOW).unwrap();
    let cand = c.build_candidate_aggregate(ASSET, 11, 110, 950, 100).unwrap();
    assert_eq!(cand.num_sources, 3);
    assert_eq!(cand.price, 110);
    assert_eq!(cand.timestamp, 950);
    assert_eq!(cand.version, 0);
    assert!(!cand.is_override);
    // A source that already has a price is counted once.
    assert_eq!(c.build_candidate_aggregate(ASSET, 10, 130, 960, 100), None);
}
