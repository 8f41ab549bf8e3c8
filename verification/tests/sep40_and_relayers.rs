//! The SEP-40 reading interface and the relayer dashboard.

use price_oracle::oracle::PriceOracleContract;
use price_oracle::relayer::{RelayedSubmission, Relayers};
use price_oracle::sep40_consumer::MockSep40Consumer;
use price_oracle::types::{Asset, ErrorCode, LedgerInfo};

const ADMIN: u64 = 1;
const SOURCE: u64 = 10;
const ASSET: u64 = 100;

fn at(sequence: u32, timestamp: u64) -> LedgerInfo {
    LedgerInfo { sequence, timestamp }
}

fn setup() -> PriceOracleContract {
    PriceOracleContract::initialize(ADMIN, 1, 100, 18, "Oracle".to_string()).unwrap()
}

fn with_feed() -> PriceOracleContract {
    let mut c = setup();
    c.set_min_sources_required(ADMIN, 1).unwrap();
    c.add_source(ADMIN, SOURCE).unwrap();
    c.register_asset(ADMIN, ASSET).unwrap();
    c
}

#[test]
fn test_consumer_reads_base() {
    let c = setup();
    assert!(MockSep40Consumer::read_base(&c));
}

#[test]
fn test_consumer_reads_assets() {
    let mut c = setup();
    assert_eq!(MockSep40Consumer::read_assets_count(&c), 0);
    c.register_asset(ADMIN, 100).unwrap();
    c.register_asset(ADMIN, 101).unwrap();
    assert_eq!(MockSep40Consumer::read_assets_count(&c), 2);
}

#[test]
fn test_consumer_reads_decimals() {
    let c = setup();
    assert_eq!(MockSep40Consumer::read_decimals(&c), 18);
}

#[test]
fn test_consumer_reads_resolution() {
    let mut c = setup();
    assert_eq!(MockSep40Consumer::read_resolution(&c), 0);
    c.set_resolution(ADMIN, 3600).unwrap();
    assert_eq!(MockSep40Consumer::read_resolution(&c), 3600);
}

#[test]
fn test_consumer_calls_lastprice() {
    let now = at(100, 1_000_000);
    let mut c = with_feed();
    assert!(MockSep40Consumer::read_lastprice(&c, ASSET, now).is_none());
    c.submit_price(SOURCE, ASSET, 1_000_000, 1_000_000, 1, now).unwrap();
    let pd = MockSep40Consumer::read_lastprice(&c, ASSET, now).unwrap();
    assert_eq!(pd.price, 1_000_000);
    assert_eq!(pd.timestamp, 1_000_000);
}

#[test]
fn test_consumer_calls_price_at_timestamp() {
    let now = at(200, 2_000_000);
    let mut c = with_feed();
    c.submit_price(SOURCE, ASSET, 5_000, 2_000_000, 1, now).unwrap();
    assert_eq!(MockSep40Consumer::read_price_at(&c, ASSET, 2_000_000, now).unwrap().price, 5_000);
    assert_eq!(MockSep40Consumer::read_price_at(&c, ASSET, 2_999_999, now).unwrap().price, 5_000);
}

#[test]
fn test_consumer_calls_prices_multiple_records() {
    let mut c = with_feed();
    for (i, seq) in [100u32, 101, 102].iter().enumerate() {
        let now = at(*seq, *seq as u64 * 10);
        c.submit_price(SOURCE, ASSET, *seq as i128 * 100, *seq as u64 * 10, i as u64 + 1, now).unwrap();
    }
    let records = MockSep40Consumer::read_prices(&c, ASSET, 3, at(102, 1020)).unwrap().unwrap();
    assert_eq!(records.len(), 3);
}

#[test]
fn test_consumer_prices_zero_records() {
    let now = at(0, 0);
    let mut c = with_feed();
    c.submit_price(SOURCE, ASSET, 100, 0, 1, now).unwrap();
    let records = MockSep40Consumer::read_prices(&c, ASSET, 0, now).unwrap().unwrap();
    assert_eq!(records.len(), 0);
}

#[test]
fn test_consumer_lastprice_non_stellar_asset_returns_none() {
    let c = setup();
    assert!(c.lastprice(&Asset::Other("BTC".to_string()), at(0, 0)).is_none());
}

#[test]
fn test_consumer_price_unregistered_asset_returns_none() {
    let c = setup();
    assert!(c.price(&Asset::Stellar(999), 0, at(0, 0)).is_none());
}

#[test]
fn test_consumer_handles_resolution_staleness() {
    let now = at(100, 1000);
    let mut c = with_feed();
    c.set_resolution(ADMIN, 60).unwrap();
    c.submit_price(SOURCE, ASSET, 999, 1000, 1, now).unwrap();
    assert!(MockSep40Consumer::read_lastprice(&c, ASSET, now).is_some());
    assert!(MockSep40Consumer::read_lastprice(&c, ASSET, at(200, 2000)).is_none());
}

fn relayer_setup() -> (PriceOracleContract, Relayers) {
    let c = PriceOracleContract::initialize(ADMIN, 1, 10, 18, "Test Oracle".to_string()).unwrap();
    (c, Relayers::new(ADMIN))
}

#[test]
fn test_dashboard_defaults_for_new_relayer() {
    let (_c, mut r) = relayer_setup();
    let now = at(0, 0);
    r.add_relayer(ADMIN, 50, "R1".to_string(), now).unwrap();
    let dash = r.get_relayer_dashboard(50, now);
    assert_eq!(dash.relayer, 50);
    assert_eq!(dash.total_submissions, 0);
    assert_eq!(dash.failed_submissions, 0);
    assert_eq!(dash.success_rate_bps, 0);
    assert_eq!(dash.avg_latency_seconds, 0);
    assert_eq!(dash.fee_earnings, 0);
    assert_eq!(dash.reward_earnings, 0);
    assert_eq!(dash.bond_deposited, 0);
    assert_eq!(dash.per_asset.len(), 0);
    assert_eq!(dash.percentile_rank, 100);
}

#[test]
fn test_dashboard_reflects_submissions_and_fees() {
    let (mut c, mut r) = relayer_setup();
    let now = at(0, 0);
    r.add_relayer(ADMIN, 50, "R1".to_string(), now).unwrap();
    c.add_source(ADMIN, SOURCE).unwrap();
    c.register_asset(ADMIN, ASSET).unwrap();
    r.set_relayer_fee_per_submission(ADMIN, 10).unwrap();
    r.submit_price_relayed(&mut c, 50, SOURCE, ASSET, 1_000_000, 0, now).unwrap();
    let dash = r.get_relayer_dashboard(50, now);
    assert_eq!(dash.total_submissions, 1);
    assert_eq!(dash.success_rate_bps, 10_000);
    assert_eq!(dash.fee_earnings, 10);
    assert_eq!(dash.avg_latency_seconds, 0);
    assert_eq!(dash.per_asset.len(), 1);
    assert_eq!(dash.per_asset[0].asset, ASSET);
    assert_eq!(dash.per_asset[0].submissions, 1);
}

#[test]
fn test_dashboard_success_rate_with_reported_failures() {
    let (mut c, mut r) = relayer_setup();
    let now = at(0, 0);
    r.add_relayer(ADMIN, 50, "R1".to_string(), now).unwrap();
    c.add_source(ADMIN, 10).unwrap();
    c.add_source(ADMIN, 11).unwrap();
    c.register_asset(ADMIN, ASSET).unwrap();
    r.submit_price_relayed(&mut c, 50, 10, ASSET, 1_000_000, 0, now).unwrap();
    r.submit_price_relayed(&mut c, 50, 11, ASSET, 1_100_000, 0, now).unwrap();
    r.record_relayer_failure(ADMIN, 50).unwrap();
    let dash = r.get_relayer_dashboard(50, now);
    assert_eq!(dash.total_submissions, 2);
    assert_eq!(dash.failed_submissions, 1);
    assert_eq!(dash.success_rate_bps, 6_666);
}

#[test]
fn test_dashboard_percentile_rank_across_relayers() {
    let (mut c, mut r) = relayer_setup();
    let now = at(0, 0);
    r.add_relayer(ADMIN, 50, "A".to_string(), now).unwrap();
    r.add_relayer(ADMIN, 51, "B".to_string(), now).unwrap();
    r.add_relayer(ADMIN, 52, "C".to_string(), now).unwrap();
    c.add_source(ADMIN, SOURCE).unwrap();
    c.register_asset(ADMIN, ASSET).unwrap();
    r.submit_price_relayed(&mut c, 50, SOURCE, ASSET, 1_000_000, 0, now).unwrap();
    r.submit_price_relayed(&mut c, 50, SOURCE, ASSET, 1_000_001, 0, now).unwrap();
    r.submit_price_relayed(&mut c, 50, SOURCE, ASSET, 1_000_002, 0, now).unwrap();
    r.submit_price_relayed(&mut c, 51, SOURCE, ASSET, 1_000_003, 0, now).unwrap();
    assert_eq!(r.get_relayer_dashboard(50, now).percentile_rank, 100);
    assert_eq!(r.get_relayer_dashboard(51, now).percentile_rank, 66);
    assert_eq!(r.get_relayer_dashboard(52, now).percentile_rank, 33);
}

#[test]
fn test_dashboard_avg_latency_reflects_timestamp_gap() {
    let (mut c, mut r) = relayer_setup();
    let now = at(100, 1_000);
    r.add_relayer(ADMIN, 50, "R1".to_string(), now).unwrap();
    c.add_source(ADMIN, SOURCE).unwrap();
    c.register_asset(ADMIN, ASSET).unwrap();
    r.submit_price_relayed(&mut c, 50, SOURCE, ASSET, 1_000_000, 960, now).unwrap();
    assert_eq!(r.get_relayer_dashboard(50, now).avg_latency_seconds, 40);
}

#[test]
fn relayed_batch_is_atomic_and_fee_ordered() {
    let (mut c, mut r) = relayer_setup();
    let now = at(10, 1_000);
    r.add_relayer(ADMIN, 50, "R1".to_string(), now).unwrap();
    c.add_source(ADMIN, 10).unwrap();
    c.add_source(ADMIN, 11).unwrap();
    c.register_asset(ADMIN, ASSET).unwrap();
    let leg = |source: u64, price: i128, fee: u128| RelayedSubmission { source, asset: ASSET, price, timestamp: 1_000, priority_fee: fee };
    assert_eq!(r.submit_prices_relayed(&mut c, 50, &vec![], now), Err(ErrorCode::BatchEmpty));
    assert_eq!(r.submit_prices_relayed(&mut c, 50, &vec![leg(10, 5, 1), leg(11, 5, 2)], now), Err(ErrorCode::BatchNotFeePrioritized));
    assert_eq!(r.submit_prices_relayed(&mut c, 50, &vec![leg(10, 5, 2), leg(99, 5, 1)], now), Err(ErrorCode::SourceNotFound));
    assert!(c.get_source_price(ASSET, 10).is_err());
    assert_eq!(r.get_relayer_submission_count(50), 0);
    r.set_relayer_fee_per_submission(ADMIN, 3).unwrap();
    r.submit_prices_relayed(&mut c, 50, &vec![leg(10, 1_000, 7), leg(11, 1_200, 7)], now).unwrap();
    assert_eq!(r.get_relayer_submission_count(50), 2);
    assert_eq!(r.get_relayer_fee_balance(50), 20);
    assert_eq!(c.get_source_price(ASSET, 11).unwrap().price, 1_200);
    let too_many: Vec<RelayedSubmission> = (0..26).map(|_| leg(10, 5, 1)).collect();
    assert_eq!(r.submit_prices_relayed(&mut c, 50, &too_many, now), Err(ErrorCode::BatchTooLarge));
}
