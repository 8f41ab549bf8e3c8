//! Per-asset decimals, price-update subscriptions, notification
//! preferences and the reentrancy guard.

use price_oracle::oracle::PriceOracleContract;
use price_oracle::registry::{AssetDecimals, Notifications, ReentrancyGuard, Subscriptions};
use price_oracle::types::{ErrorCode, LedgerInfo};

const ADMIN: u64 = 1;
const ASSET: u64 = 100;

fn oracle(decimals: u32) -> PriceOracleContract {
    let mut c = PriceOracleContract::initialize(ADMIN, 1, 100, decimals, "Oracle".to_string()).unwrap();
    c.register_asset(ADMIN, ASSET).unwrap();
    c
}

fn now() -> LedgerInfo {
    LedgerInfo { sequence: 50, timestamp: 1000 }
}

#[test]
fn test_set_and_get_per_asset_decimals() {
    let c = oracle(18);
    let mut d = AssetDecimals::new();
    d.set_asset_decimals(&c, ADMIN, ASSET, 8, now()).unwrap();
    assert_eq!(d.get_asset_decimals(&c, ASSET), 8);
}

#[test]
fn test_fallback_to_contract_decimals() {
    let c = oracle(18);
    let d = AssetDecimals::new();
    assert_eq!(d.get_asset_decimals(&c, ASSET), 18);
    assert_eq!(d.get_effective_decimals(&c, ASSET), 18);
}

#[test]
fn test_clear_asset_decimals() {
    let c = oracle(18);
    let mut d = AssetDecimals::new();
    d.set_asset_decimals(&c, ADMIN, ASSET, 8, now()).unwrap();
    assert_eq!(d.get_asset_decimals(&c, ASSET), 8);
    d.clear_asset_decimals(&c, ADMIN, ASSET).unwrap();
    assert_eq!(d.get_asset_decimals(&c, ASSET), 18);
}

#[test]
fn test_decimals_too_high() {
    let c = oracle(18);
    let mut d = AssetDecimals::new();
    assert_eq!(d.set_asset_decimals(&c, ADMIN, ASSET, 19, now()), Err(ErrorCode::InvalidConfiguration));
    assert_eq!(d.get_asset_decimals(&c, ASSET), 18);
}

#[test]
fn asset_decimals_errors() {
    let c = oracle(7);
    let mut d = AssetDecimals::new();
    assert_eq!(d.set_asset_decimals(&c, 2, ASSET, 8, now()), Err(ErrorCode::NotAuthorized));
    assert_eq!(d.set_asset_decimals(&c, ADMIN, 999, 8, now()), Err(ErrorCode::AssetNotRegistered));
    assert_eq!(d.clear_asset_decimals(&c, ADMIN, 999), Err(ErrorCode::AssetNotRegistered));
}

#[test]
fn subscriptions_are_idempotent_and_ordered() {
    let c = oracle(7);
    let mut s = Subscriptions::new();
    s.subscribe_price_updates(&c, 5, ASSET).unwrap();
    s.subscribe_price_updates(&c, 6, ASSET).unwrap();
    s.subscribe_price_updates(&c, 5, ASSET).unwrap();
    assert_eq!(s.get_subscribed_consumers(&c, ASSET).unwrap(), vec![5, 6]);
    assert!(s.is_subscribed_to_asset(5, ASSET));
    s.unsubscribe_price_updates(&c, 5, ASSET).unwrap();
    assert!(!s.is_subscribed_to_asset(5, ASSET));
    assert_eq!(s.get_subscribed_consumers(&c, ASSET).unwrap(), vec![6]);
    s.unsubscribe_price_updates(&c, 5, ASSET).unwrap();
    assert_eq!(s.get_subscribed_consumers(&c, ASSET).unwrap(), vec![6]);
}

#[test]
fn subscriptions_need_registered_asset() {
    let c = oracle(7);
    let mut s = Subscriptions::new();
    assert_eq!(s.subscribe_price_updates(&c, 5, 999), Err(ErrorCode::AssetNotRegistered));
    assert_eq!(s.unsubscribe_price_updates(&c, 5, 999), Err(ErrorCode::AssetNotRegistered));
    assert_eq!(s.get_subscribed_consumers(&c, 999), Err(ErrorCode::AssetNotRegistered));
}

#[test]
fn notification_preferences_without_duplicates() {
    let c = oracle(7);
    let mut n = Notifications::new();
    n.set_notification_preference(&c, ADMIN, 3, "webhook".to_string(), "https://a".to_string()).unwrap();
    n.set_notification_preference(&c, ADMIN, 3, "webhook".to_string(), "https://a".to_string()).unwrap();
    n.set_notification_preference(&c, ADMIN, 3, "email".to_string(), "ops@x".to_string()).unwrap();
    n.set_notification_preference(&c, ADMIN, 4, "email".to_string(), "ops@x".to_string()).unwrap();
    let prefs = n.list_notification_preferences(3);
    assert_eq!(prefs.len(), 2);
    assert_eq!(prefs[0].channel, "webhook".to_string());
    assert_eq!(prefs[1].target, "ops@x".to_string());
    assert_eq!(n.list_notification_event_types(), vec![3, 4]);
    n.clear_notification_preferences(&c, ADMIN, 3).unwrap();
    assert!(n.list_notification_preferences(3).is_empty());
    assert_eq!(n.list_notification_event_types(), vec![4]);
}

#[test]
fn notification_preference_errors() {
    let c = oracle(7);
    let mut n = Notifications::new();
    assert_eq!(n.set_notification_preference(&c, 2, 3, "a".to_string(), "b".to_string()), Err(ErrorCode::NotAuthorized));
    let long = "x".repeat(257);
    assert_eq!(n.set_notification_preference(&c, ADMIN, 3, long, "b".to_string()), Err(ErrorCode::NotificationConfigInvalid));
    assert_eq!(n.set_notification_preference(&c, ADMIN, 3, "a".to_string(), "y".repeat(256)), Ok(()));
    assert_eq!(n.clear_notification_preferences(&c, 2, 3), Err(ErrorCode::NotAuthorized));
}

#[test]
fn test_guard_enter_exit_normal() {
    let mut g = ReentrancyGuard::new();
    assert_eq!(g.enter(), Ok(()));
    g.exit();
}

#[test]
fn test_guard_reentrant_panics() {
    let mut g = ReentrancyGuard::new();
    g.enter().unwrap();
    assert_eq!(g.enter(), Err(ErrorCode::Reentrant));
}

#[test]
fn test_guard_cleared_after_exit() {
    let mut g = ReentrancyGuard::new();
    g.enter().unwrap();
    g.exit();
    assert_eq!(g.enter(), Ok(()));
    g.exit();
}
