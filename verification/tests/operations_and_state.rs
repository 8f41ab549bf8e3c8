//! Dependent operations, source rotation, health, storage estimates,
//! optimistic proposals, relayer delegations, market impact and OHLCV bars.

use ed25519_dalek::{Signer, SigningKey};
use price_oracle::health::{health_check, Heartbeats};
use price_oracle::heartbeat::compute_adaptive_interval;
use price_oracle::market_impact::{estimate_market_impact, get_market_impact_curve, SoroswapPool};
use price_oracle::ohlcv::OhlcvCache;
use price_oracle::operations::{OperationStatus, Operations};
use price_oracle::optimistic::{Optimistic, ProposalStatus};
use price_oracle::oracle::PriceOracleContract;
use price_oracle::relayer::Relayers;
use price_oracle::rotation::Rotation;
use price_oracle::stats::compute_median;
use price_oracle::types::{ErrorCode, LedgerInfo};

const ADMIN: u64 = 1;
const SOURCE: u64 = 10;
const ASSET: u64 = 100;

fn at(sequence: u32, timestamp: u64) -> LedgerInfo {
    LedgerInfo { sequence, timestamp }
}

fn feed() -> PriceOracleContract {
    let mut c = PriceOracleContract::initialize(ADMIN, 1, 100, 7, "Oracle".to_string()).unwrap();
    c.set_min_sources_required(ADMIN, 1).unwrap();
    c.add_source(ADMIN, SOURCE).unwrap();
    c.register_asset(ADMIN, ASSET).unwrap();
    c
}

#[test]
fn operation_executes_after_its_dependencies() {
    let mut ops = Operations::new();
    ops.create_operation("a".to_string(), vec![]).unwrap();
    ops.create_operation("b".to_string(), vec!["a".to_string()]).unwrap();
    assert_eq!(ops.create_operation("a".to_string(), vec![]), Err(ErrorCode::OperationAlreadyExists));
    assert_eq!(ops.execute_operation(&"b".to_string()), Err(ErrorCode::DependencyNotMet));
    ops.execute_operation(&"a".to_string()).unwrap();
    ops.execute_operation(&"b".to_string()).unwrap();
    assert_eq!(ops.get_operation_status(&"b".to_string()), Ok(OperationStatus::Executed));
    assert_eq!(ops.execute_operation(&"b".to_string()), Err(ErrorCode::InvalidOperationState));
    assert_eq!(ops.get_operation_dependencies(&"b".to_string()).unwrap(), vec!["a".to_string()]);
    assert_eq!(ops.execute_operation(&"zz".to_string()), Err(ErrorCode::OperationNotFound));
}

#[test]
fn operation_with_missing_dependency_is_not_found() {
    let mut ops = Operations::new();
    ops.create_operation("c".to_string(), vec!["ghost".to_string()]).unwrap();
    assert_eq!(ops.execute_operation(&"c".to_string()), Err(ErrorCode::OperationNotFound));
}

#[test]
fn cancel_spreads_to_dependents() {
    let mut ops = Operations::new();
    ops.create_operation("a".to_string(), vec![]).unwrap();
    ops.create_operation("b".to_string(), vec!["a".to_string()]).unwrap();
    ops.create_operation("c".to_string(), vec!["b".to_string()]).unwrap();
    ops.create_operation("d".to_string(), vec![]).unwrap();
    ops.cancel_operation(&"a".to_string()).unwrap();
    for id in ["a", "b", "c"] {
        assert_eq!(ops.get_operation_status(&id.to_string()), Ok(OperationStatus::Cancelled));
    }
    assert_eq!(ops.get_operation_status(&"d".to_string()), Ok(OperationStatus::Pending));
    assert_eq!(ops.cancel_operation(&"zz".to_string()), Err(ErrorCode::OperationNotFound));
}

#[test]
fn cancel_stops_at_cancelled_operations_and_survives_cycles() {
    let mut ops = Operations::new();
    ops.create_operation("x".to_string(), vec!["y".to_string()]).unwrap();
    ops.create_operation("y".to_string(), vec!["x".to_string()]).unwrap();
    ops.create_operation("z".to_string(), vec!["y".to_string()]).unwrap();
    ops.cancel_operation(&"x".to_string()).unwrap();
    assert_eq!(ops.get_operation_status(&"y".to_string()), Ok(OperationStatus::Cancelled));
    assert_eq!(ops.get_operation_status(&"z".to_string()), Ok(OperationStatus::Cancelled));
    let mut ops2 = Operations::new();
    ops2.create_operation("p".to_string(), vec![]).unwrap();
    ops2.create_operation("q".to_string(), vec!["p".to_string()]).unwrap();
    ops2.cancel_operation(&"q".to_string()).unwrap();
    ops2.cancel_operation(&"q".to_string()).unwrap();
    assert_eq!(ops2.get_operation_status(&"p".to_string()), Ok(OperationStatus::Pending));
}

#[test]
fn rotation_swaps_sets_when_due() {
    let mut r = Rotation::new(ADMIN);
    assert_eq!(r.set_source_schedule(ADMIN, ASSET, vec![], 10, 2, at(100, 0)), Err(ErrorCode::InvalidConfiguration));
    assert_eq!(r.set_source_schedule(ADMIN, ASSET, vec![1], 0, 2, at(100, 0)), Err(ErrorCode::InvalidConfiguration));
    assert_eq!(r.set_source_schedule(5, ASSET, vec![1], 10, 2, at(100, 0)), Err(ErrorCode::NotAuthorized));
    r.set_source_schedule(ADMIN, ASSET, vec![1, 2], 10, 2, at(100, 0)).unwrap();
    assert_eq!(r.get_rotation_schedule(ASSET).unwrap().next_rotation_ledger, 110);
    // no standby set: nothing rotates
    assert!(!r.attempt_rotation(ASSET, at(120, 0)));
    r.standby.insert(ASSET, vec![3]);
    assert!(!r.attempt_rotation(ASSET, at(109, 0)));
    assert!(r.attempt_rotation(ASSET, at(110, 0)));
    assert_eq!(r.get_active_sources(ASSET), vec![3]);
    assert_eq!(r.get_standby_sources(ASSET), vec![1, 2]);
    assert_eq!(r.get_rotation_schedule(ASSET).unwrap().next_rotation_ledger, 120);
    assert!(r.attempt_rotation(ASSET, at(120, 0)));
    assert_eq!(r.get_active_sources(ASSET), vec![1, 2]);
    r.disable_rotation(ADMIN, ASSET).unwrap();
    assert!(!r.attempt_rotation(ASSET, at(500, 0)));
}

#[test]
fn health_report_counts() {
    let mut c = feed();
    c.add_source(ADMIN, 11).unwrap();
    c.register_asset(ADMIN, 101).unwrap();
    c.set_resolution(ADMIN, 60).unwrap();
    c.set_heartbeat_interval(ADMIN, 500).unwrap();
    let mut hb = Heartbeats::new();
    hb.submit_heartbeat(&c, SOURCE, at(5, 1_000)).unwrap();
    assert_eq!(hb.submit_heartbeat(&c, 99, at(5, 1_000)), Err(ErrorCode::SourceNotFound));
    c.submit_price(SOURCE, ASSET, 500, 1_000, 1, at(5, 1_000)).unwrap();
    let now = at(6, 1_100);
    assert_eq!(hb.get_source_last_heartbeat(SOURCE), 1_000);
    assert!(!hb.is_source_inactive(&c, SOURCE, now));
    assert!(hb.is_source_inactive(&c, 11, now));
    let report = health_check(&c, &hb, now);
    assert_eq!(report.total_sources, 2);
    assert_eq!(report.suspended_source_count, 1);
    assert_eq!(report.active_sources, 1);
    assert_eq!(report.total_assets, 2);
    assert_eq!(report.assets_with_prices, 1);
    assert_eq!(report.stale_price_count, 1);
    assert_eq!(report.last_aggregation_ledger, 5);
    assert!(!report.is_aggregation_paused);
}

#[test]
fn storage_budget_totals() {
    let mut c = feed();
    c.submit_price(SOURCE, ASSET, 500, 10, 1, at(5, 10)).unwrap();
    c.submit_price(SOURCE, ASSET, 510, 20, 2, at(6, 20)).unwrap();
    let t = c.get_total_storage_budget();
    assert_eq!(t.asset_count, 1);
    assert_eq!(t.total_entry_count, 2);
    assert_eq!(t.total_estimated_bytes, 192);
    assert_eq!(t.total_estimated_ttl_costs, 4_000);
    assert_eq!(t.total_projected_monthly_cost, 4_800);
}

#[test]
fn active_proposals_finalize_expired_ones() {
    let mut c = feed();
    let mut o = Optimistic::new();
    let id1 = o.propose_price(&c, 7, ASSET, 1_000, 0, 100_000_000, at(10, 0)).unwrap();
    let id2 = o.propose_price(&c, 7, ASSET, 2_000, 0, 100_000_000, at(200, 0)).unwrap();
    let active = o.get_active_proposals(&mut c, at(250, 0));
    assert_eq!(active.len(), 1);
    assert_eq!(active[0].id, id2);
    let p1 = o.get_proposal(&mut c, id1, at(250, 0)).unwrap();
    assert_eq!(p1.status, ProposalStatus::Finalized);
    assert_eq!(c.get_price(ASSET, 0, at(250, 0)).unwrap().unwrap().price, 1_000);
}

#[test]
fn delegation_requires_a_valid_signature() {
    let c = feed();
    let mut r = Relayers::new(ADMIN);
    let sk = SigningKey::from_bytes(&[9u8; 32]);
    let pk = sk.verifying_key().to_bytes();
    let source_enc = b"GSOURCE".to_vec();
    let relayer_enc = b"GRELAYER".to_vec();
    let mut msg = b"source_relayer_delegation_v1".to_vec();
    msg.extend_from_slice(&1u64.to_le_bytes());
    msg.extend_from_slice(&source_enc);
    msg.extend_from_slice(&relayer_enc);
    msg.extend_from_slice(&500u32.to_le_bytes());
    let env = soroban_sdk::Env::default();
    let digest = env.crypto().sha256(&soroban_sdk::Bytes::from_slice(&env, &msg)).to_array();
    let sig = sk.sign(&digest).to_bytes();
    let now = at(100, 0);
    let mut bad = sig;
    bad[5] ^= 0x40;
    // A bad signature aborts the invocation and records nothing.
    assert_eq!(r.try_delegate_relayer(&c, SOURCE, 50, 1, 500, &source_enc, &relayer_enc, &pk, &bad, now), None);
    assert!(!r.has_valid_relayer_delegation(SOURCE, 50, 500));
    // Checks made before the signature still answer with their error.
    assert_eq!(r.try_delegate_relayer(&c, 99, 50, 1, 500, &source_enc, &relayer_enc, &pk, &bad, now), Some(Err(ErrorCode::NotAuthorized)));
    assert_eq!(r.try_delegate_relayer(&c, SOURCE, 50, 1, 500, &source_enc, &relayer_enc, &pk, &bad, at(501, 0)), Some(Err(ErrorCode::SignatureExpired)));
    assert_eq!(r.delegate_relayer(&c, 99, 50, 1, 500, &source_enc, &relayer_enc, &pk, &sig, now), Err(ErrorCode::NotAuthorized));
    assert_eq!(r.delegate_relayer(&c, SOURCE, 50, 1, 500, &source_enc, &relayer_enc, &pk, &sig, at(501, 0)), Err(ErrorCode::SignatureExpired));
    assert_eq!(r.try_delegate_relayer(&c, SOURCE, 50, 1, 500, &source_enc, &relayer_enc, &pk, &sig, now), Some(Ok(())));
    assert!(r.has_valid_relayer_delegation(SOURCE, 50, 500));
    assert!(!r.has_valid_relayer_delegation(SOURCE, 50, 501));
    assert_eq!(r.delegate_relayer(&c, SOURCE, 50, 1, 500, &source_enc, &relayer_enc, &pk, &sig, now), Err(ErrorCode::InvalidNonce));
}

#[test]
fn median_lies_between_extremes() {
    assert_eq!(compute_median(&vec![5, 1, 9]), 5);
    assert_eq!(compute_median(&vec![4, 1, 9, 2]), 3);
    assert_eq!(compute_median(&vec![-3, -8]), -5);
}

#[test]
fn adaptive_interval_bounds_and_growth() {
    assert_eq!(compute_adaptive_interval(100, 0, 4), 100);
    assert_eq!(compute_adaptive_interval(100, 4, 4), 200);
    assert_eq!(compute_adaptive_interval(100, 50, 4), 300);
    assert!(compute_adaptive_interval(100, 3, 4) <= compute_adaptive_interval(100, 7, 4));
}

fn pool(ra: i128, rb: i128) -> Vec<SoroswapPool> {
    vec![SoroswapPool { asset_a: 1, asset_b: 2, reserve_a: ra, reserve_b: rb, fee_bps: 30, enabled: true }]
}

#[test]
fn test_estimate_market_impact_direct_pool() {
    let e = estimate_market_impact(&pool(1_000_000, 2_000_000), 1, 2, 10_000).unwrap();
    assert_eq!(e.asset_in, 1);
    assert_eq!(e.asset_out, 2);
    assert!(e.amount_out > 0);
    assert!(e.price_impact_bps > 0);
    assert!(e.price_impact_bps < 500);
}

#[test]
fn test_estimate_market_impact_reversed_pool() {
    let e = estimate_market_impact(&pool(1_000_000, 2_000_000), 2, 1, 20_000).unwrap();
    assert_eq!(e.asset_in, 2);
    assert!(e.amount_out > 0 && e.amount_out < 10_000);
}

#[test]
fn test_larger_trade_has_more_impact() {
    let small = estimate_market_impact(&pool(1_000_000, 1_000_000), 1, 2, 1_000).unwrap();
    let large = estimate_market_impact(&pool(1_000_000, 1_000_000), 1, 2, 100_000).unwrap();
    assert!(large.price_impact_bps > small.price_impact_bps);
}

#[test]
fn test_impact_curve_default_steps() {
    let curve = get_market_impact_curve(&pool(1_000_000, 1_000_000), 1, 2, &vec![]).unwrap();
    assert_eq!(curve.len(), 5);
    let mut last = 0u32;
    for p in curve.iter() {
        assert!(p.price_impact_bps >= last);
        last = p.price_impact_bps;
    }
}

#[test]
fn test_no_pool_panics() {
    assert_eq!(estimate_market_impact(&vec![], 1, 2, 1_000), Err(ErrorCode::PoolNotFound));
}

#[test]
fn ohlcv_bars_by_hour() {
    let mut c = feed();
    let prices = [(100i128, 0u64), (110, 1_000), (90, 3_000), (200, 3_700), (210, 7_100)];
    for (i, (p, t)) in prices.iter().enumerate() {
        c.submit_price(SOURCE, ASSET, *p, *t, i as u64 + 1, at(i as u32 + 1, *t)).unwrap();
    }
    let mut cache = OhlcvCache::new();
    let bars = c.get_ohlcv(&mut cache, ASSET, 3_600, 0, 7_200, at(10, 10_000)).unwrap();
    assert_eq!(bars.len(), 2);
    assert_eq!((bars[0].bucket_start, bars[0].open, bars[0].high, bars[0].low, bars[0].close, bars[0].sample_count), (0, 100, 110, 90, 90, 3));
    assert_eq!((bars[1].bucket_start, bars[1].open, bars[1].close, bars[1].sample_count), (3_600, 200, 210, 2));
    assert_eq!(c.get_ohlcv(&mut cache, ASSET, 0, 0, 100, at(10, 10_000)), Err(ErrorCode::InvalidOhlcvRange));
}

#[test]
fn test_zero_bucket_seconds_panics() {
    let c = feed();
    let mut cache = OhlcvCache::new();
    assert_eq!(c.get_ohlcv(&mut cache, ASSET, 0, 0, 100, at(1, 0)), Err(ErrorCode::InvalidOhlcvRange));
    assert_eq!(c.get_ohlcv(&mut cache, 999, 60, 0, 100, at(1, 0)), Err(ErrorCode::AssetNotRegistered));
}

#[test]
fn closed_bucket_is_cached_open_bucket_is_not() {
    let mut c = feed();
    c.submit_price(SOURCE, ASSET, 100, 0, 1, at(1, 0)).unwrap();
    c.submit_price(SOURCE, ASSET, 105, 10, 2, at(2, 10)).unwrap();
    let mut cache = OhlcvCache::new();
    // the bucket [0, 3600) is still open at time 20
    let bars = c.get_ohlcv(&mut cache, ASSET, 3_600, 0, 3_600, at(3, 20)).unwrap();
    assert_eq!(bars.len(), 1);
    assert_eq!(cache.get_cached_ohlcv_bar(ASSET, 3_600, 0), None);
    // once time has moved past it, the bar is remembered
    let bars = c.get_ohlcv(&mut cache, ASSET, 3_600, 0, 3_600, at(10, 100_000)).unwrap();
    assert_eq!(bars.len(), 1);
    let cached = cache.get_cached_ohlcv_bar(ASSET, 3_600, 0).unwrap();
    assert_eq!(cached.close, 105);
    assert_eq!(cached, bars[0]);
    assert_eq!(cache.get_cached_ohlcv_bar(ASSET, 60, 0), None);
}
