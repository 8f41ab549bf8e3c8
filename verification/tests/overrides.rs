//! Manual price overrides and their precedence over aggregated prices.

use price_oracle::oracle::PriceOracleContract;
use price_oracle::types::{ErrorCode, LedgerInfo};

const ADMIN: u64 = 1;
const SOURCE: u64 = 10;
const ASSET: u64 = 100;

fn at(sequence: u32, timestamp: u64) -> LedgerInfo {
    LedgerInfo { sequence, timestamp }
}

fn setup() -> PriceOracleContract {
    let mut c = PriceOracleContract::initialize(ADMIN, 1, 100, 7, "Oracle".to_string()).unwrap();
    c.set_min_sources_required(ADMIN, 1).unwrap();
    c.add_source(ADMIN, SOURCE).unwrap();
    c.register_asset(ADMIN, ASSET).unwrap();
    c
}

#[test]
fn test_override_price_basic() {
    let now = at(100, 1234567890);
    let mut c = setup();
    c.submit_price(SOURCE, ASSET, 1000, 1234567890, 1, now).unwrap();
    let normal = c.get_price(ASSET, 0, now).unwrap().unwrap();
    assert_eq!(normal.price, 1000);
    assert!(!normal.is_override);

    c.override_price(ADMIN, ASSET, 9999, "Emergency override".to_string(), 200, now).unwrap();
    let ovr = c.get_price(ASSET, 0, now).unwrap().unwrap();
    assert_eq!(ovr.price, 9999);
    assert!(ovr.is_override);
    assert_eq!(ovr.num_sources, 0);
}

#[test]
fn test_get_price_override_query() {
    let now = at(100, 1234567890);
    let mut c = setup();
    assert!(c.get_price_override(ASSET).unwrap().is_none());
    c.override_price(ADMIN, ASSET, 5000, "Market halt".to_string(), 500, now).unwrap();
    let entry = c.get_price_override(ASSET).unwrap().unwrap();
    assert_eq!(entry.price, 5000);
    assert_eq!(entry.expiry_ledger, 500);
    assert_eq!(entry.set_ledger, 100);
    assert_eq!(entry.reason, "Market halt".to_string());
}

#[test]
fn test_remove_price_override() {
    let now = at(100, 1234567890);
    let mut c = setup();
    c.submit_price(SOURCE, ASSET, 1000, 1234567890, 1, now).unwrap();
    c.override_price(ADMIN, ASSET, 9999, "Temporary fix".to_string(), 300, now).unwrap();
    assert!(c.get_price(ASSET, 0, now).unwrap().unwrap().is_override);
    c.remove_price_override(ADMIN, ASSET).unwrap();
    assert!(c.get_price_override(ASSET).unwrap().is_none());
    let p = c.get_price(ASSET, 0, now).unwrap().unwrap();
    assert_eq!(p.price, 1000);
    assert!(!p.is_override);
}

#[test]
fn test_override_expires_after_ledger() {
    let now = at(100, 1234567890);
    let mut c = setup();
    c.submit_price(SOURCE, ASSET, 1000, 1234567890, 1, now).unwrap();
    c.override_price(ADMIN, ASSET, 9999, "Temp".to_string(), 150, now).unwrap();
    assert!(c.get_price(ASSET, 0, now).unwrap().unwrap().is_override);

    let later = at(200, 1234567890);
    let p = c.get_price(ASSET, 0, later).unwrap().unwrap();
    assert_eq!(p.price, 1000);
    assert!(!p.is_override);
    assert!(c.get_price_override(ASSET).unwrap().is_none());
}

#[test]
fn test_original_submissions_preserved_during_override() {
    let now = at(100, 1234567890);
    let mut c = setup();
    c.submit_price(SOURCE, ASSET, 1000, 1234567890, 1, now).unwrap();
    c.override_price(ADMIN, ASSET, 9999, "Override".to_string(), 300, now).unwrap();
    assert_eq!(c.get_source_price(ASSET, SOURCE).unwrap().price, 1000);
    c.submit_price(SOURCE, ASSET, 2000, 1234567890, 2, now).unwrap();
    assert_eq!(c.get_source_price(ASSET, SOURCE).unwrap().price, 2000);
    assert!(c.get_price(ASSET, 0, now).unwrap().unwrap().is_override);
}

#[test]
fn test_override_price_invalid_zero() {
    let now = at(100, 1234567890);
    let mut c = setup();
    assert_eq!(c.override_price(ADMIN, ASSET, 0, "Bad".to_string(), 300, now), Err(ErrorCode::InvalidPrice));
}

#[test]
fn test_override_price_expiry_in_past() {
    let now = at(200, 1234567890);
    let mut c = setup();
    assert_eq!(c.override_price(ADMIN, ASSET, 9999, "Bad".to_string(), 100, now), Err(ErrorCode::InvalidConfiguration));
}

#[test]
fn test_override_price_unauthorized() {
    let now = at(100, 1234567890);
    let mut c = setup();
    assert!(c.override_price(42, ASSET, 9999, "Unauthorized".to_string(), 300, now).is_err());
}

#[test]
fn test_remove_nonexistent_override() {
    let mut c = setup();
    assert_eq!(c.remove_price_override(ADMIN, ASSET), Err(ErrorCode::NoData));
}

#[test]
fn test_override_replaces_previous_override() {
    let now = at(100, 1234567890);
    let mut c = setup();
    c.override_price(ADMIN, ASSET, 1111, "First".to_string(), 300, now).unwrap();
    c.override_price(ADMIN, ASSET, 2222, "Second".to_string(), 400, now).unwrap();
    let entry = c.get_price_override(ASSET).unwrap().unwrap();
    assert_eq!(entry.price, 2222);
    assert_eq!(entry.expiry_ledger, 400);
}

#[test]
fn override_takes_precedence_until_expiry() {
    let now = at(100, 50);
    let mut c = setup();
    c.override_price(ADMIN, ASSET, 777, "Hold".to_string(), 120, now).unwrap();
    let p = c.get_price(ASSET, 0, at(120, 60)).unwrap().unwrap();
    assert_eq!(p.price, 777);
    assert!(p.is_override);
    assert_eq!(p.timestamp, 60);
}
