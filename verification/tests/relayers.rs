//! Relayers: approval, relayed submissions, fees and counters.

use price_oracle::oracle::PriceOracleContract;
use price_oracle::relayer::Relayers;
use price_oracle::types::{ErrorCode, LedgerInfo};

const ADMIN: u64 = 1;
const ASSET: u64 = 100;
const NOW: LedgerInfo = LedgerInfo { sequence: 0, timestamp: 0 };

fn setup() -> (PriceOracleContract, Relayers) {
    (PriceOracleContract::initialize(ADMIN, 1, 10, 18, "Test Oracle".to_string()).unwrap(), Relayers::new(ADMIN))
}

fn with_feed(sources: &[u64]) -> (PriceOracleContract, Relayers) {
    let (mut c, r) = setup();
    for s in sources {
        c.add_source(ADMIN, *s).unwrap();
    }
    c.register_asset(ADMIN, ASSET).unwrap();
    (c, r)
}

#[test]
fn test_add_relayer_success() {
    let (_c, mut r) = setup();
    r.add_relayer(ADMIN, 50, "Hermes Relayer".to_string(), NOW).unwrap();
    assert!(r.is_relayer(50));
    assert_eq!(r.get_relayer_info(50).unwrap().name, "Hermes Relayer".to_string());
}

#[test]
fn test_add_relayer_stores_approved_at_ledger() {
    let (_c, mut r) = setup();
    r.add_relayer(ADMIN, 50, "R1".to_string(), LedgerInfo { sequence: 77, timestamp: 5 }).unwrap();
    assert_eq!(r.get_relayer_info(50).unwrap().approved_at_ledger, 77);
}

#[test]
fn test_add_relayer_already_exists() {
    let (_c, mut r) = setup();
    r.add_relayer(ADMIN, 50, "R1".to_string(), NOW).unwrap();
    assert_eq!(r.add_relayer(ADMIN, 50, "R1 duplicate".to_string(), NOW), Err(ErrorCode::RelayerAlreadyExists));
}

#[test]
fn test_add_relayer_not_admin() {
    let (_c, mut r) = setup();
    assert_eq!(r.add_relayer(9, 50, "Unauthorized Relayer".to_string(), NOW), Err(ErrorCode::NotAuthorized));
    assert!(!r.is_relayer(50));
}

#[test]
fn test_remove_relayer_success() {
    let (_c, mut r) = setup();
    r.add_relayer(ADMIN, 50, "R1".to_string(), NOW).unwrap();
    r.remove_relayer(ADMIN, 50).unwrap();
    assert!(!r.is_relayer(50));
}

#[test]
fn test_remove_relayer_not_registered() {
    let (_c, mut r) = setup();
    assert_eq!(r.remove_relayer(ADMIN, 50), Err(ErrorCode::RelayerNotAuthorized));
}

#[test]
fn test_remove_relayer_not_admin() {
    let (_c, mut r) = setup();
    r.add_relayer(ADMIN, 50, "R1".to_string(), NOW).unwrap();
    assert_eq!(r.remove_relayer(9, 50), Err(ErrorCode::NotAuthorized));
    assert!(r.is_relayer(50));
}

#[test]
fn test_is_relayer_unknown_address() {
    let (_c, r) = setup();
    assert!(!r.is_relayer(50));
}

#[test]
fn test_get_relayer_info_unknown_address() {
    let (_c, r) = setup();
    assert!(r.get_relayer_info(50).is_none());
}

#[test]
fn test_get_relayer_info_after_removal() {
    let (_c, mut r) = setup();
    r.add_relayer(ADMIN, 50, "R1".to_string(), NOW).unwrap();
    r.remove_relayer(ADMIN, 50).unwrap();
    assert!(r.get_relayer_info(50).is_none());
}

#[test]
fn test_submit_price_relayed_success() {
    let (mut c, mut r) = with_feed(&[10]);
    r.add_relayer(ADMIN, 50, "Hermes".to_string(), NOW).unwrap();
    r.submit_price_relayed(&mut c, 50, 10, ASSET, 1_000_000, 0, NOW).unwrap();
    let agg = c.get_price(ASSET, 0, NOW).unwrap().unwrap();
    assert_eq!(agg.price, 1_000_000);
    assert_eq!(agg.num_sources, 1);
}

#[test]
fn test_submit_price_relayed_aggregates_with_multiple_sources() {
    let (mut c, mut r) = with_feed(&[10, 11]);
    c.set_min_sources_required(ADMIN, 2).unwrap();
    r.add_relayer(ADMIN, 50, "Hermes".to_string(), NOW).unwrap();
    c.submit_price(10, ASSET, 1_000_000, 0, 1, NOW).unwrap();
    r.submit_price_relayed(&mut c, 50, 11, ASSET, 2_000_000, 0, NOW).unwrap();
    let agg = c.get_price(ASSET, 0, NOW).unwrap().unwrap();
    assert_eq!(agg.num_sources, 2);
    assert_eq!(agg.price, 1_500_000);
}

#[test]
fn test_relayer_can_submit_on_behalf_of_any_registered_source() {
    let (mut c, mut r) = with_feed(&[10, 11]);
    r.add_relayer(ADMIN, 50, "Hermes".to_string(), NOW).unwrap();
    r.submit_price_relayed(&mut c, 50, 10, ASSET, 500, 0, NOW).unwrap();
    r.submit_price_relayed(&mut c, 50, 11, ASSET, 800, 0, NOW).unwrap();
    assert_eq!(c.get_source_price(ASSET, 10).unwrap().price, 500);
    assert_eq!(c.get_source_price(ASSET, 11).unwrap().price, 800);
}

#[test]
fn test_submit_price_relayed_unapproved_relayer() {
    let (mut c, mut r) = with_feed(&[10]);
    assert_eq!(r.submit_price_relayed(&mut c, 60, 10, ASSET, 1_000, 0, NOW), Err(ErrorCode::RelayerNotAuthorized));
}

#[test]
fn test_submit_price_relayed_unregistered_source() {
    let (mut c, mut r) = with_feed(&[]);
    r.add_relayer(ADMIN, 50, "R1".to_string(), NOW).unwrap();
    assert_eq!(r.submit_price_relayed(&mut c, 50, 77, ASSET, 1_000, 0, NOW), Err(ErrorCode::SourceNotFound));
}

#[test]
fn test_submit_price_relayed_unregistered_asset() {
    let (mut c, mut r) = with_feed(&[10]);
    r.add_relayer(ADMIN, 50, "R1".to_string(), NOW).unwrap();
    assert_eq!(r.submit_price_relayed(&mut c, 50, 10, 999, 1_000, 0, NOW), Err(ErrorCode::AssetNotRegistered));
}

#[test]
fn test_submit_price_relayed_zero_price() {
    let (mut c, mut r) = with_feed(&[10]);
    r.add_relayer(ADMIN, 50, "R1".to_string(), NOW).unwrap();
    assert_eq!(r.submit_price_relayed(&mut c, 50, 10, ASSET, 0, 0, NOW), Err(ErrorCode::InvalidPrice));
}

#[test]
fn test_submit_price_relayed_negative_price() {
    let (mut c, mut r) = with_feed(&[10]);
    r.add_relayer(ADMIN, 50, "R1".to_string(), NOW).unwrap();
    assert_eq!(r.submit_price_relayed(&mut c, 50, 10, ASSET, -1, 0, NOW), Err(ErrorCode::InvalidPrice));
}

#[test]
fn test_submit_price_relayed_future_timestamp() {
    let (mut c, mut r) = with_feed(&[10]);
    r.add_relayer(ADMIN, 50, "R1".to_string(), NOW).unwrap();
    assert_eq!(r.submit_price_relayed(&mut c, 50, 10, ASSET, 1_000, 400, NOW), Err(ErrorCode::InvalidTimestamp));
}

#[test]
fn test_submit_price_relayed_when_paused() {
    let (mut c, mut r) = with_feed(&[10]);
    r.add_relayer(ADMIN, 50, "R1".to_string(), NOW).unwrap();
    c.pause(ADMIN).unwrap();
    assert_eq!(r.submit_price_relayed(&mut c, 50, 10, ASSET, 1_000, 0, NOW), Err(ErrorCode::ContractPaused));
}

#[test]
fn test_submit_price_relayed_after_removal() {
    let (mut c, mut r) = with_feed(&[10]);
    r.add_relayer(ADMIN, 50, "R1".to_string(), NOW).unwrap();
    r.remove_relayer(ADMIN, 50).unwrap();
    assert_eq!(r.submit_price_relayed(&mut c, 50, 10, ASSET, 1_000, 0, NOW), Err(ErrorCode::RelayerNotAuthorized));
}

#[test]
fn test_default_fee_is_zero() {
    let (_c, r) = setup();
    assert_eq!(r.get_relayer_fee_per_submission(), 0);
}

#[test]
fn test_set_and_get_relayer_fee() {
    let (_c, mut r) = setup();
    r.set_relayer_fee_per_submission(ADMIN, 5_000).unwrap();
    assert_eq!(r.get_relayer_fee_per_submission(), 5_000);
}

#[test]
fn test_set_relayer_fee_not_admin() {
    let (_c, mut r) = setup();
    assert_eq!(r.set_relayer_fee_per_submission(9, 1_000), Err(ErrorCode::NotAuthorized));
}

#[test]
fn test_fee_accrues_per_relayed_submission() {
    let (mut c, mut r) = with_feed(&[10]);
    r.add_relayer(ADMIN, 50, "Hermes".to_string(), NOW).unwrap();
    r.set_relayer_fee_per_submission(ADMIN, 1_000).unwrap();
    r.submit_price_relayed(&mut c, 50, 10, ASSET, 1_000_000, 0, NOW).unwrap();
    assert_eq!(r.get_relayer_fee_balance(50), 1_000);
    r.submit_price_relayed(&mut c, 50, 10, ASSET, 1_100_000, 0, NOW).unwrap();
    assert_eq!(r.get_relayer_fee_balance(50), 2_000);
}

#[test]
fn test_fee_does_not_accrue_when_fee_is_zero() {
    let (mut c, mut r) = with_feed(&[10]);
    r.add_relayer(ADMIN, 50, "Hermes".to_string(), NOW).unwrap();
    r.submit_price_relayed(&mut c, 50, 10, ASSET, 1_000_000, 0, NOW).unwrap();
    assert_eq!(r.get_relayer_fee_balance(50), 0);
}

#[test]
fn test_fee_balance_is_independent_per_relayer() {
    let (mut c, mut r) = with_feed(&[10, 11]);
    r.add_relayer(ADMIN, 50, "Relayer-A".to_string(), NOW).unwrap();
    r.add_relayer(ADMIN, 51, "Relayer-B".to_string(), NOW).unwrap();
    r.set_relayer_fee_per_submission(ADMIN, 500).unwrap();
    r.submit_price_relayed(&mut c, 50, 10, ASSET, 1_000_000, 0, NOW).unwrap();
    r.submit_price_relayed(&mut c, 50, 11, ASSET, 2_000_000, 0, NOW).unwrap();
    r.submit_price_relayed(&mut c, 51, 10, ASSET, 1_500_000, 0, NOW).unwrap();
    assert_eq!(r.get_relayer_fee_balance(50), 1_000);
    assert_eq!(r.get_relayer_fee_balance(51), 500);
}

#[test]
fn test_submission_count_starts_at_zero() {
    let (_c, mut r) = setup();
    r.add_relayer(ADMIN, 50, "R1".to_string(), NOW).unwrap();
    assert_eq!(r.get_relayer_submission_count(50), 0);
}

#[test]
fn test_submission_count_increments() {
    let (mut c, mut r) = with_feed(&[10]);
    r.add_relayer(ADMIN, 50, "Hermes".to_string(), NOW).unwrap();
    r.submit_price_relayed(&mut c, 50, 10, ASSET, 1_000, 0, NOW).unwrap();
    assert_eq!(r.get_relayer_submission_count(50), 1);
    r.submit_price_relayed(&mut c, 50, 10, ASSET, 2_000, 0, NOW).unwrap();
    assert_eq!(r.get_relayer_submission_count(50), 2);
}

#[test]
fn test_submission_count_is_independent_per_relayer() {
    let (mut c, mut r) = with_feed(&[10]);
    r.add_relayer(ADMIN, 50, "X".to_string(), NOW).unwrap();
    r.add_relayer(ADMIN, 51, "Y".to_string(), NOW).unwrap();
    r.submit_price_relayed(&mut c, 50, 10, ASSET, 1_000, 0, NOW).unwrap();
    r.submit_price_relayed(&mut c, 50, 10, ASSET, 2_000, 0, NOW).unwrap();
    r.submit_price_relayed(&mut c, 51, 10, ASSET, 3_000, 0, NOW).unwrap();
    assert_eq!(r.get_relayer_submission_count(50), 2);
    assert_eq!(r.get_relayer_submission_count(51), 1);
}

#[test]
fn test_relayed_price_stored_under_same_key_as_direct() {
    let (mut c, mut r) = with_feed(&[10]);
    r.add_relayer(ADMIN, 50, "R1".to_string(), NOW).unwrap();
    r.submit_price_relayed(&mut c, 50, 10, ASSET, 9_999, 0, NOW).unwrap();
    let entry = c.get_source_price(ASSET, 10).unwrap();
    assert_eq!(entry.price, 9_999);
    assert_eq!(entry.source, 10);
}

#[test]
fn test_get_price_returns_none_before_any_submission() {
    let (mut c, _r) = with_feed(&[]);
    assert!(c.get_price(ASSET, 0, NOW).unwrap().is_none());
}

#[test]
fn test_relayed_submission_triggers_aggregation() {
    let (mut c, mut r) = with_feed(&[10]);
    c.set_min_sources_required(ADMIN, 1).unwrap();
    r.add_relayer(ADMIN, 50, "R1".to_string(), NOW).unwrap();
    r.submit_price_relayed(&mut c, 50, 10, ASSET, 42_000, 0, NOW).unwrap();
    let agg = c.get_price(ASSET, 0, NOW).unwrap().unwrap();
    assert_eq!(agg.price, 42_000);
    assert!(!agg.is_override);
}

#[test]
fn test_direct_submit_still_works_alongside_relayer() {
    let (mut c, mut r) = with_feed(&[10]);
    r.add_relayer(ADMIN, 50, "R1".to_string(), NOW).unwrap();
    c.submit_price(10, ASSET, 7_777, 0, 1, NOW).unwrap();
    assert_eq!(c.get_price(ASSET, 0, NOW).unwrap().unwrap().price, 7_777);
}

#[test]
fn test_multiple_relayers_can_be_approved() {
    let (_c, mut r) = setup();
    r.add_relayer(ADMIN, 50, "Hermes".to_string(), NOW).unwrap();
    r.add_relayer(ADMIN, 51, "Egypt".to_string(), NOW).unwrap();
    r.add_relayer(ADMIN, 52, "Nexus".to_string(), NOW).unwrap();
    assert!(r.is_relayer(50) && r.is_relayer(51) && r.is_relayer(52));
    r.remove_relayer(ADMIN, 51).unwrap();
    assert!(!r.is_relayer(51));
    assert!(r.is_relayer(50) && r.is_relayer(52));
}
