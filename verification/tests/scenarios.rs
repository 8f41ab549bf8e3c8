//! Operational scenarios: configuration round trips, incident handling,
//! repeated reads, sequential aggregations, cross-oracle style feeds and
//! load.

use price_oracle::oracle::PriceOracleContract;
use price_oracle::types::{AggregatePrice, LedgerInfo};

const ADMIN: u64 = 1;

fn at(sequence: u32, timestamp: u64) -> LedgerInfo {
    LedgerInfo { sequence, timestamp }
}

/// A contract with the given minimum number of sources.
fn contract(min_sources: u32) -> PriceOracleContract {
    PriceOracleContract::initialize(ADMIN, min_sources, 100, 18, "Stellar Price Oracle Aggregator".to_string()).unwrap()
}

/// A contract with `sources` sources (ids 10, 11, ...) and `assets` assets
/// (ids 100, 101, ...).
fn feed(min_sources: u32, sources: u64, assets: u64) -> PriceOracleContract {
    let mut c = contract(min_sources);
    for s in 0..sources {
        c.add_source(ADMIN, 10 + s).unwrap();
    }
    for a in 0..assets {
        c.register_asset(ADMIN, 100 + a).unwrap();
    }
    c
}

fn price(c: &mut PriceOracleContract, asset: u64, now: LedgerInfo) -> Option<AggregatePrice> {
    c.get_price(asset, 0, now).unwrap()
}

// ── configuration ───────────────────────────────────────────────────────────

#[test]
fn test_get_oracle_decimals() {
    assert_eq!(contract(2).get_decimals(), 18);
}

#[test]
fn test_get_oracle_description() {
    assert_eq!(contract(2).get_description(), "Stellar Price Oracle Aggregator".to_string());
}

#[test]
fn test_oracle_health_check_no_data() {
    assert_eq!(contract(2).get_min_sources_required(), 2);
}

#[test]
fn test_oracle_health_check_sufficient_sources() {
    let mut c = feed(2, 2, 1);
    let now = at(100, 1_000);
    c.set_min_sources_required(ADMIN, 2).unwrap();
    c.submit_price(10, 100, 1_000_000, 1_000, 1, now).unwrap();
    c.submit_price(11, 100, 1_010_000, 1_000, 1, now).unwrap();
    assert!(price(&mut c, 100, now).is_some());
}

#[test]
fn test_oracle_resolution_setting() {
    let mut c = contract(2);
    c.set_resolution(ADMIN, 100).unwrap();
    assert_eq!(c.get_resolution(), 100);
    c.set_resolution(ADMIN, 50).unwrap();
    assert_eq!(c.get_resolution(), 50);
}

#[test]
fn test_timestamp_threshold_configuration() {
    let mut c = contract(2);
    c.set_timestamp_threshold(ADMIN, 3600).unwrap();
    assert_eq!(c.get_timestamp_threshold(), 3600);
}

#[test]
fn test_timestamp_threshold_affects_price_validity() {
    let mut c = feed(2, 0, 1);
    c.set_timestamp_threshold(ADMIN, 60).unwrap();
    assert_eq!(price(&mut c, 100, at(100, 1_000)), None);
    assert_eq!(c.get_timestamp_threshold(), 60);
}

#[test]
fn test_min_sources_required_configuration() {
    let mut c = contract(2);
    c.set_min_sources_required(ADMIN, 3).unwrap();
    assert_eq!(c.get_min_sources_required(), 3);
}

#[test]
fn test_max_history_length_configuration() {
    let mut c = contract(2);
    c.set_max_history_length(ADMIN, 50).unwrap();
    assert_eq!(c.get_max_history_length(), 50);
}

#[test]
fn test_max_history_enforced() {
    let mut c = feed(1, 1, 1);
    c.set_max_history_length(ADMIN, 3).unwrap();
    for i in 0..5u32 {
        let now = at(100 + i, 1_000 + i as u64);
        c.submit_price(10, 100, 1_000_000 + i as i128, 1_000 + i as u64, i as u64 + 1, now).unwrap();
    }
    assert_eq!(c.get_max_history_length(), 3);
    assert!(!c.has_historical_price(100, 101));
    assert!(c.has_historical_price(100, 102));
    assert!(c.has_historical_price(100, 104));
}

#[test]
fn test_fee_priority_high_priority_configuration() {
    let mut c = contract(2);
    c.set_decimals(ADMIN, 18).unwrap();
    assert_eq!(c.get_decimals(), 18);
}

#[test]
fn test_set_price_threshold_alert() {
    let mut c = contract(2);
    c.set_max_price_deviation(ADMIN, 1000).unwrap();
    assert_eq!(c.get_max_price_deviation(), 1000);
}

#[test]
fn test_alert_on_price_deviation_exceeds_threshold() {
    let mut c = feed(2, 1, 1);
    let now = at(100, 1_000);
    c.set_max_price_deviation(ADMIN, 500).unwrap();
    c.submit_price(10, 100, 1_000_000, 1_000, 1, now).unwrap();
    c.submit_price(10, 100, 1_150_000, 1_000, 2, now).unwrap();
    assert_eq!(c.get_max_price_deviation(), 500);
}

#[test]
fn test_heartbeat_interval_configuration() {
    let mut c = contract(2);
    c.set_heartbeat_interval(ADMIN, 300).unwrap();
    assert_eq!(c.get_heartbeat_interval(), 300);
}

#[test]
fn test_multiple_alert_thresholds() {
    let mut c = contract(2);
    c.set_max_price_deviation(ADMIN, 300).unwrap();
    assert_eq!(c.get_max_price_deviation(), 300);
    c.set_max_price_deviation(ADMIN, 500).unwrap();
    assert_eq!(c.get_max_price_deviation(), 500);
}

// ── incidents ───────────────────────────────────────────────────────────────

#[test]
fn test_source_removal_incident_response() {
    let mut c = feed(2, 1, 1);
    assert!(c.is_source(10));
    c.remove_source(ADMIN, 10).unwrap();
    assert!(!c.is_source(10));
}

#[test]
fn test_incident_severity_escalation_s0_response() {
    let mut c = feed(2, 1, 0);
    c.remove_source(ADMIN, 10).unwrap();
    assert!(!c.is_source(10));
}

#[test]
fn test_circuit_breaker_max_price_deviation_check() {
    let mut c = feed(2, 1, 1);
    c.set_min_sources_required(ADMIN, 1).unwrap();
    c.set_max_price_deviation(ADMIN, 1000).unwrap();
    c.submit_price(10, 100, 1_000_000, 1_000, 1, at(100, 1_000)).unwrap();
    assert_eq!(c.get_max_price_deviation(), 1000);
}

#[test]
fn test_heartbeat_interval_violation_detection() {
    let mut c = contract(2);
    c.set_heartbeat_interval(ADMIN, 600).unwrap();
    assert_eq!(c.get_heartbeat_interval(), 600);
}

#[test]
fn test_multi_source_compromise_incident_drill() {
    let mut c = feed(2, 3, 1);
    let now = at(100, 1_000);
    c.set_min_sources_required(ADMIN, 3).unwrap();
    for s in 10..13 {
        c.submit_price(s, 100, 1_000_000, 1_000, 1, now).unwrap();
    }
    c.remove_source(ADMIN, 10).unwrap();
    c.remove_source(ADMIN, 11).unwrap();
    assert!(!c.is_source(10));
    assert!(!c.is_source(11));
    assert!(c.is_source(12));
}

// ── reads and aggregation passes ────────────────────────────────────────────

#[test]
fn test_get_price_lazy_loads_only_aggregate() {
    let mut c = feed(1, 1, 1);
    let now = at(100, 1_000);
    c.submit_price(10, 100, 1_000_000, 500, 1, now).unwrap();
    assert!(price(&mut c, 100, now).is_some());
}

#[test]
fn test_submit_price_only_reads_necessary_state() {
    let mut c = feed(1, 1, 1);
    let now = at(100, 1_000);
    c.submit_price(10, 100, 1_500_000, 500, 1, now).unwrap();
    assert_eq!(price(&mut c, 100, now).unwrap().price, 1_500_000);
}

fn three_sources_submitted(prices: [i128; 3]) -> (PriceOracleContract, LedgerInfo) {
    let mut c = feed(1, 3, 1);
    let now = at(100, 1_000);
    for (i, p) in prices.iter().enumerate() {
        c.submit_price(10 + i as u64, 100, *p, 500, 1, now).unwrap();
    }
    (c, now)
}

#[test]
fn test_no_redundant_has_get_pairs() {
    let (mut c, now) = three_sources_submitted([1_000_000, 1_100_000, 1_050_000]);
    assert!(price(&mut c, 100, now).is_some());
}

#[test]
fn test_aggregation_reads_only_required_prices() {
    let (mut c, now) = three_sources_submitted([1_000_000, 1_100_000, 1_050_000]);
    c.trigger_aggregation(100, now).unwrap();
    assert!(price(&mut c, 100, now).is_some());
}

#[test]
fn test_cache_within_call_scope() {
    let mut c = feed(1, 1, 1);
    let now = at(100, 1_000);
    c.submit_price(10, 100, 2_000_000, 500, 1, now).unwrap();
    let first = price(&mut c, 100, now).unwrap().price;
    let second = price(&mut c, 100, now).unwrap().price;
    assert_eq!(first, second);
}

#[test]
fn test_multiple_assets_independent_reads() {
    let mut c = feed(1, 2, 2);
    let now = at(100, 1_000);
    c.submit_price(10, 100, 1_000_000, 500, 1, now).unwrap();
    c.submit_price(11, 101, 2_000_000, 500, 1, now).unwrap();
    assert_eq!(price(&mut c, 100, now).unwrap().price, 1_000_000);
    assert_eq!(price(&mut c, 101, now).unwrap().price, 2_000_000);
}

#[test]
fn test_aggregation_writes_aggregate_price() {
    let (mut c, now) = three_sources_submitted([1_000_000, 1_100_000, 1_050_000]);
    c.trigger_aggregation(100, now).unwrap();
    assert_eq!(price(&mut c, 100, now).unwrap().price, 1_050_000);
}

#[test]
fn test_aggregation_batches_multiple_writes() {
    let (mut c, now) = three_sources_submitted([1_000_000, 1_100_000, 1_050_000]);
    c.trigger_aggregation(100, now).unwrap();
    assert!(price(&mut c, 100, now).is_some());
}

#[test]
fn test_sequential_aggregations_maintain_state() {
    let (mut c, now) = three_sources_submitted([1_000_000, 1_100_000, 1_050_000]);
    c.trigger_aggregation(100, now).unwrap();
    let price1 = price(&mut c, 100, now).unwrap().price;
    let later = at(200, 2_000);
    for (i, p) in [1_100_000i128, 1_200_000, 1_150_000].iter().enumerate() {
        c.submit_price(10 + i as u64, 100, *p, 500, 2, later).unwrap();
    }
    c.trigger_aggregation(100, later).unwrap();
    let price2 = price(&mut c, 100, later).unwrap().price;
    assert_ne!(price1, price2);
}

#[test]
fn test_circuit_breaker_state_persisted_on_aggregation() {
    let (mut c, now) = three_sources_submitted([1_000_000, 1_100_000, 1_050_000]);
    c.trigger_aggregation(100, now).unwrap();
    assert!(price(&mut c, 100, now).is_some());
    assert!(!c.is_circuit_breaker_tripped(100));
}

#[test]
fn test_price_submission_without_excess_allocation() {
    let mut c = feed(1, 1, 1);
    let now = at(100, 1_000);
    c.submit_price(10, 100, 1_500_000, 500, 1, now).unwrap();
    assert!(price(&mut c, 100, now).is_some());
}

#[test]
fn test_aggregation_with_optimized_sorting() {
    let (mut c, now) = three_sources_submitted([1_000_000, 1_200_000, 1_100_000]);
    c.trigger_aggregation(100, now).unwrap();
    assert_eq!(price(&mut c, 100, now).unwrap().price, 1_100_000);
}

#[test]
fn test_median_calculation_with_vec_reuse() {
    let mut c = feed(1, 5, 1);
    let now = at(100, 1_000);
    for (i, p) in [1_000_000i128, 1_200_000, 1_100_000, 1_050_000, 1_150_000].iter().enumerate() {
        c.submit_price(10 + i as u64, 100, *p, 500, 1, now).unwrap();
    }
    c.trigger_aggregation(100, now).unwrap();
    assert_eq!(price(&mut c, 100, now).unwrap().price, 1_100_000);
}

#[test]
fn test_loop_allocation_optimization() {
    let mut c = feed(1, 5, 1);
    let now = at(100, 1_000);
    for s in 10..15 {
        c.submit_price(s, 100, 1_000_000, 500, 1, now).unwrap();
    }
    c.trigger_aggregation(100, now).unwrap();
    assert!(price(&mut c, 100, now).is_some());
}

#[test]
fn test_temporary_allocation_reuse_in_aggregation() {
    let (mut c, now) = three_sources_submitted([1_500_000, 1_600_000, 1_550_000]);
    c.trigger_aggregation(100, now).unwrap();
    assert!(price(&mut c, 100, now).is_some());
}

#[test]
fn test_no_excessive_allocations_on_repeated_queries() {
    let mut c = feed(1, 1, 1);
    let now = at(100, 1_000);
    c.submit_price(10, 100, 1_000_000, 500, 1, now).unwrap();
    for _ in 0..10 {
        assert!(price(&mut c, 100, now).is_some());
    }
}

#[test]
fn test_frequently_accessed_asset_ttl_extended() {
    let mut c = feed(1, 1, 1);
    let now = at(100, 1_000);
    c.submit_price(10, 100, 1_000_000, 500, 1, now).unwrap();
    for _ in 0..5 {
        let _ = price(&mut c, 100, now);
    }
    assert!(price(&mut c, 100, now).is_some());
}

#[test]
fn test_rarely_accessed_asset_ttl_shorter() {
    let mut c = feed(1, 1, 1);
    let now = at(100, 1_000);
    c.submit_price(10, 100, 1_000_000, 500, 1, now).unwrap();
    assert!(price(&mut c, 100, now).is_some());
}

#[test]
fn test_adaptive_ttl_on_asset_registration() {
    let mut c = feed(1, 0, 1);
    assert_eq!(price(&mut c, 100, at(100, 1_000)), None);
}

#[test]
fn test_multiple_assets_different_ttl_frequencies() {
    let mut c = feed(1, 2, 2);
    let now = at(100, 1_000);
    c.submit_price(10, 100, 1_000_000, 500, 1, now).unwrap();
    c.submit_price(11, 101, 2_000_000, 500, 1, now).unwrap();
    for _ in 0..10 {
        let _ = price(&mut c, 100, now);
    }
    let _ = price(&mut c, 101, now);
    assert!(price(&mut c, 100, now).is_some());
    assert!(price(&mut c, 101, now).is_some());
}

#[test]
fn test_adaptive_ttl_respects_max_entry_ttl() {
    let mut c = feed(1, 1, 1);
    let now = at(100, 1_000);
    c.submit_price(10, 100, 1_000_000, 500, 1, now).unwrap();
    for _ in 0..100 {
        let _ = price(&mut c, 100, now);
    }
    assert!(price(&mut c, 100, now).is_some());
}

#[test]
fn test_hot_key_gets_longer_ttl_than_cold_key() {
    let mut c = feed(1, 2, 2);
    let now = at(100, 1_000);
    c.submit_price(10, 100, 1_000_000, 500, 1, now).unwrap();
    c.submit_price(11, 101, 2_000_000, 500, 1, now).unwrap();
    for _ in 0..50 {
        let _ = price(&mut c, 100, now);
    }
    let _ = price(&mut c, 101, now);
    assert!(price(&mut c, 100, now).is_some());
    assert!(price(&mut c, 101, now).is_some());
}

#[test]
fn test_ttl_batching_with_access_frequency_tracking() {
    let (mut c, now) = three_sources_submitted([1_000_000, 1_100_000, 1_050_000]);
    for _ in 0..20 {
        let _ = price(&mut c, 100, now);
    }
    c.trigger_aggregation(100, now).unwrap();
    assert!(price(&mut c, 100, now).is_some());
}

// ── feeds followed by other chains and oracles ─────────────────────────────

#[test]
fn test_l2_sequencer_health_check_integration() {
    let mut c = feed(2, 1, 1);
    let now = at(1, 1000);
    c.set_min_sources_required(ADMIN, 1).unwrap();
    c.submit_price(10, 100, 10000, 1000, 1, now).unwrap();
    assert_eq!(price(&mut c, 100, now).unwrap().price, 10000);
}

#[test]
fn test_l2_sequencer_downtime_price_freeze() {
    let mut c = feed(2, 1, 1);
    c.set_min_sources_required(ADMIN, 1).unwrap();
    c.submit_price(10, 100, 50000, 1000, 1, at(1, 1000)).unwrap();
    assert_eq!(price(&mut c, 100, at(1, 1000)).unwrap().price, 50000);
    assert_eq!(price(&mut c, 100, at(10, 2000)).unwrap().price, 50000);
}

#[test]
fn test_l2_sequencer_recovery_and_unfreeze() {
    let mut c = feed(2, 1, 1);
    c.set_min_sources_required(ADMIN, 1).unwrap();
    c.submit_price(10, 100, 30000, 1000, 1, at(1, 1000)).unwrap();
    assert_eq!(price(&mut c, 100, at(1, 1000)).unwrap().price, 30000);
    c.submit_price(10, 100, 31000, 1500, 2, at(5, 1500)).unwrap();
    assert_eq!(price(&mut c, 100, at(5, 1500)).unwrap().price, 31000);
}

#[test]
fn test_l2_sequencer_status_transitions() {
    let mut c = feed(2, 2, 1);
    c.set_min_sources_required(ADMIN, 2).unwrap();
    c.submit_price(10, 100, 25000, 1000, 1, at(1, 1000)).unwrap();
    c.submit_price(11, 100, 25100, 1000, 1, at(1, 1000)).unwrap();
    assert_eq!(price(&mut c, 100, at(1, 1000)).unwrap().price, 25050);
    c.submit_price(10, 100, 26000, 2000, 2, at(10, 2000)).unwrap();
    c.submit_price(11, 100, 26100, 2000, 2, at(10, 2000)).unwrap();
    assert_eq!(price(&mut c, 100, at(10, 2000)).unwrap().price, 26050);
}

#[test]
fn test_secondary_oracle_registration() {
    let mut c = feed(2, 1, 1);
    c.set_min_sources_required(ADMIN, 1).unwrap();
    c.submit_price(10, 100, 15000, 1000, 1, at(1, 1000)).unwrap();
    assert_eq!(price(&mut c, 100, at(1, 1000)).unwrap().price, 15000);
}

#[test]
fn test_price_push_to_secondaries_on_aggregation() {
    let mut c = feed(2, 2, 1);
    c.set_min_sources_required(ADMIN, 2).unwrap();
    c.submit_price(10, 100, 50000, 1000, 1, at(1, 1000)).unwrap();
    c.submit_price(11, 100, 50200, 1000, 1, at(1, 1000)).unwrap();
    assert_eq!(price(&mut c, 100, at(1, 1000)).unwrap().price, 50100);
}

#[test]
fn test_sync_verification_secondary_confirms_receipt() {
    let mut c = feed(2, 1, 1);
    c.set_min_sources_required(ADMIN, 1).unwrap();
    c.submit_price(10, 100, 75000, 1000, 1, at(1, 1000)).unwrap();
    assert_eq!(price(&mut c, 100, at(1, 1000)).unwrap().price, 75000);
    c.submit_price(10, 100, 76000, 2000, 2, at(5, 2000)).unwrap();
    assert_eq!(price(&mut c, 100, at(5, 2000)).unwrap().price, 76000);
}

#[test]
fn test_multiple_secondary_oracle_sync() {
    let mut c = feed(2, 3, 1);
    c.set_min_sources_required(ADMIN, 3).unwrap();
    for (s, p) in [(10u64, 30000i128), (11, 30100), (12, 30050)] {
        c.submit_price(s, 100, p, 1000, 1, at(1, 1000)).unwrap();
    }
    assert_eq!(price(&mut c, 100, at(1, 1000)).unwrap().price, 30050);
}

#[test]
fn test_cross_contract_sync_mechanism() {
    let mut c = feed(2, 1, 1);
    c.set_min_sources_required(ADMIN, 1).unwrap();
    c.submit_price(10, 100, 45000, 1000, 1, at(1, 1000)).unwrap();
    assert_eq!(price(&mut c, 100, at(1, 1000)).unwrap().price, 45000);
    c.submit_price(10, 100, 46000, 5000, 2, at(10, 5000)).unwrap();
    assert_eq!(price(&mut c, 100, at(10, 5000)).unwrap().price, 46000);
}

#[test]
fn test_sdk_v27_price_submission() {
    let mut c = feed(2, 1, 1);
    c.set_min_sources_required(ADMIN, 1).unwrap();
    c.submit_price(10, 100, 1000, 100, 1, at(1, 100)).unwrap();
    assert_eq!(price(&mut c, 100, at(1, 100)).unwrap().price, 1000);
}

#[test]
fn test_sdk_v27_ledger_state_persistence() {
    let mut c = feed(2, 1, 1);
    c.set_min_sources_required(ADMIN, 1).unwrap();
    c.submit_price(10, 100, 5000, 200, 1, at(1, 200)).unwrap();
    let p = price(&mut c, 100, at(1, 200)).unwrap();
    assert_eq!(p.price, 5000);
    assert_eq!(p.timestamp, 200);
}

#[test]
fn test_sdk_v27_timestamp_handling() {
    let mut c = feed(2, 1, 1);
    c.set_min_sources_required(ADMIN, 1).unwrap();
    c.submit_price(10, 100, 2000, 1_000_000, 1, at(1, 1_000_000)).unwrap();
    assert_eq!(price(&mut c, 100, at(1, 1_000_000)).unwrap().timestamp, 1_000_000);
}

// ── load ────────────────────────────────────────────────────────────────────

struct LoadTestConfig {
    num_sources: u32,
    num_assets: u32,
    submissions_per_source: u32,
}

struct LoadTestResult {
    total_submissions: u32,
    successful_submissions: u32,
    aggregations_triggered: u32,
}

fn run_load_test(config: &LoadTestConfig) -> LoadTestResult {
    let mut c = PriceOracleContract::initialize(ADMIN, config.num_sources, 200, 18, "Load Test Oracle".to_string()).unwrap();
    c.set_max_assets(ADMIN, 1_000).unwrap();
    for s in 0..config.num_sources as u64 {
        c.add_source(ADMIN, 10 + s).unwrap();
    }
    for a in 0..config.num_assets as u64 {
        c.register_asset(ADMIN, 1_000 + a).unwrap();
    }
    let mut result = LoadTestResult { total_submissions: 0, successful_submissions: 0, aggregations_triggered: 0 };
    for round in 0..config.submissions_per_source {
        let now = at(100 + round, 1_000_000 + round as u64 * 1000);
        for ai in 0..config.num_assets as u64 {
            for si in 0..config.num_sources as u64 {
                let p = 100_000 + si as i128 * 10 + round as i128;
                result.total_submissions += 1;
                let nonce = round as u64 * config.num_assets as u64 + ai + 1;
                c.submit_price(10 + si, 1_000 + ai, p, now.timestamp, nonce, now).unwrap();
                result.successful_submissions += 1;
            }
            if price(&mut c, 1_000 + ai, now).is_some() {
                result.aggregations_triggered += 1;
            }
        }
    }
    result
}

#[test]
fn load_test_single_source_single_asset() {
    let r = run_load_test(&LoadTestConfig { num_sources: 1, num_assets: 1, submissions_per_source: 10 });
    assert_eq!(r.total_submissions, 10);
    assert_eq!(r.successful_submissions, 10);
}

#[test]
fn load_test_medium_scale() {
    let config = LoadTestConfig { num_sources: 5, num_assets: 5, submissions_per_source: 10 };
    let r = run_load_test(&config);
    let expected = config.num_sources * config.num_assets * config.submissions_per_source;
    assert_eq!(r.total_submissions, expected);
    assert_eq!(r.successful_submissions, expected);
    assert!(r.aggregations_triggered > 0);
}

#[test]
fn load_test_high_source_count() {
    let config = LoadTestConfig { num_sources: 10, num_assets: 10, submissions_per_source: 5 };
    let r = run_load_test(&config);
    let expected = config.num_sources * config.num_assets * config.submissions_per_source;
    assert_eq!(r.total_submissions, expected);
    assert_eq!(r.successful_submissions, expected);
}

#[test]
fn load_test_max_assets() {
    let config = LoadTestConfig { num_sources: 3, num_assets: 20, submissions_per_source: 5 };
    let r = run_load_test(&config);
    let expected = config.num_sources * config.num_assets * config.submissions_per_source;
    assert_eq!(r.total_submissions, expected);
    assert_eq!(r.successful_submissions, expected);
}

#[test]
fn load_test_aggregate_correctness() {
    let mut c = PriceOracleContract::initialize(ADMIN, 5, 100, 18, "Load Test Oracle".to_string()).unwrap();
    c.register_asset(ADMIN, 100).unwrap();
    let now = at(100, 1_000_000);
    for (i, p) in [100i128, 110, 120, 130, 140].iter().enumerate() {
        let src = 10 + i as u64;
        c.add_source(ADMIN, src).unwrap();
        c.submit_price(src, 100, *p, 1_000_000, 1, now).unwrap();
    }
    let agg = price(&mut c, 100, now).unwrap();
    assert_eq!(agg.price, 120);
    assert_eq!(agg.num_sources, 5);
}

#[test]
fn load_test_history_pruning() {
    let mut c = PriceOracleContract::initialize(ADMIN, 1, 5, 18, "Load Test Oracle".to_string()).unwrap();
    c.add_source(ADMIN, 10).unwrap();
    c.register_asset(ADMIN, 100).unwrap();
    for seq in 100u32..110 {
        let now = at(seq, seq as u64 * 1000);
        c.submit_price(10, 100, seq as i128 * 100, seq as u64 * 1000, seq as u64, now).unwrap();
    }
    for seq in 100u32..105 {
        assert!(!c.has_historical_price(100, seq), "ledger {} should have been pruned", seq);
    }
    for seq in 105u32..110 {
        assert!(c.has_historical_price(100, seq), "ledger {} should be present", seq);
    }
}
