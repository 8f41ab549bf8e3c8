//! Statistics, fixed-point math, history handling, commit-reveal,
//! multi-signature governance, reputation and rate limits.

use price_oracle::commit_reveal::compute_commit_hash;
use price_oracle::fixed::{exp2_fixed, log2_fixed};
use price_oracle::history::{
    compact_history, get_historical_price, get_historical_prices, get_historical_prices_paginated, get_storage_budget,
    ledger_to_bucket, prune_before_timestamp, prune_oldest, within_threshold,
};
use price_oracle::multisig::{MultiSig, OperationType};
use price_oracle::oracle::PriceOracleContract;
use price_oracle::rate_limiting::{QueryQuota, RateLimitTier, RateLimits};
use price_oracle::reputation::Reputation;
use price_oracle::timelock::{BatchOperation, Timelock};
use price_oracle::stats::{
    aggregate_bft_prices, aggregate_with_method, compute_mean, compute_median, compute_trimmed_mean, compute_vwap,
};
use price_oracle::types::{ErrorCode, LedgerInfo, PriceHistoryEntry};

const ADMIN: u64 = 1;
const ASSET: u64 = 100;
const SOURCE: u64 = 10;

fn at(sequence: u32) -> LedgerInfo {
    LedgerInfo { sequence, timestamp: 1_000 + sequence as u64 }
}

fn entry(ledger: u32, price: i128) -> PriceHistoryEntry {
    PriceHistoryEntry { price, timestamp: 10 * ledger as u64, ledger, num_sources: 1, is_interpolated: false }
}

// ── statistics ──────────────────────────────────────────────────────────────

#[test]
fn median_rounds_toward_zero() {
    assert_eq!(compute_median(&vec![3, 1, 2]), 2);
    assert_eq!(compute_median(&vec![4, 1, 3, 2]), 2);
    assert_eq!(compute_median(&vec![-3, -2]), -2);
    assert_eq!(compute_median(&vec![]), 0);
}

#[test]
fn mean_and_trimmed_mean() {
    assert_eq!(compute_mean(&vec![1, 2, 4]), 2);
    assert_eq!(compute_mean(&vec![i128::MAX, i128::MAX]), i128::MAX / 2);
    assert_eq!(compute_trimmed_mean(&vec![100, 1, 2, 3, 4, 5, 6, 7, 8, 9], 10), 5);
    assert_eq!(compute_trimmed_mean(&vec![1, 2, 30], 50), 2);
}

#[test]
fn volume_weighted_average() {
    assert_eq!(compute_vwap(&vec![100, 200], &vec![1, 3]), 175);
    assert_eq!(compute_vwap(&vec![100, 200], &vec![0, 0]), 150);
}

#[test]
fn aggregation_methods_by_number() {
    let p = vec![10, 20, 60];
    let v = vec![1, 1, 2];
    assert_eq!(aggregate_with_method(&p, &v, 0), 20);
    assert_eq!(aggregate_with_method(&p, &v, 1), 30);
    assert_eq!(aggregate_with_method(&p, &v, 3), 37);
}

#[test]
fn bft_aggregation_drops_outliers_and_trims() {
    assert_eq!(aggregate_bft_prices(&vec![10, 11, 12, 13, 1000], 1, 1), 11);
    assert_eq!(aggregate_bft_prices(&vec![42], 3, 0), 42);
    assert_eq!(aggregate_bft_prices(&vec![], 3, 0), 0);
}

// ── fixed point ─────────────────────────────────────────────────────────────

#[test]
fn log2_and_exp2_on_powers_of_two() {
    let one: i128 = 1 << 32;
    assert_eq!(log2_fixed(one), 0);
    assert_eq!(log2_fixed(1 << 40), 8 * one);
    assert_eq!(exp2_fixed(0), one);
    assert_eq!(exp2_fixed(8 * one), 1 << 40);
    assert_eq!(exp2_fixed(log2_fixed(1 << 50)), 1 << 50);
}

// ── history ─────────────────────────────────────────────────────────────────

#[test]
fn weekly_buckets() {
    assert_eq!(ledger_to_bucket(0), 0);
    assert_eq!(ledger_to_bucket(120_959), 0);
    assert_eq!(ledger_to_bucket(120_960), 1);
}

#[test]
fn threshold_in_basis_points() {
    assert!(within_threshold(10_000, 10_050, 50));
    assert!(!within_threshold(10_000, 10_051, 50));
    assert!(!within_threshold(0, 0, 50));
    assert!(!within_threshold(10_000, 10_000, 0));
}

#[test]
fn historical_price_exact_and_interpolated() {
    let h = vec![entry(10, 100), entry(20, 200)];
    assert_eq!(get_historical_price(&h, 10, false).unwrap().price, 100);
    assert_eq!(get_historical_price(&h, 15, false), Err(ErrorCode::NoData));
    let mid = get_historical_price(&h, 15, true).unwrap();
    assert_eq!(mid.price, 150);
    assert_eq!(mid.timestamp, 150);
    assert!(mid.is_interpolated);
    assert_eq!(get_historical_price(&h, 25, true), Err(ErrorCode::NoData));
}

#[test]
fn history_ranges_and_pages() {
    let h: Vec<PriceHistoryEntry> = (1..=5).map(|l| entry(l * 10, l as i128)).collect();
    let r = get_historical_prices(&h, 15, 40, 100).unwrap();
    assert_eq!(r.iter().map(|e| e.ledger).collect::<Vec<_>>(), vec![20, 30, 40]);
    assert_eq!(get_historical_prices(&h, 40, 15, 100), Err(ErrorCode::NoData));
    assert_eq!(get_historical_prices(&h, 0, 200, 100), Err(ErrorCode::NoData));
    let (page, next) = get_historical_prices_paginated(&h, 20, 2).unwrap();
    assert_eq!(page.iter().map(|e| e.ledger).collect::<Vec<_>>(), vec![20, 30]);
    assert_eq!(next, Some(40));
    let (page, next) = get_historical_prices_paginated(&h, 40, 2).unwrap();
    assert_eq!(page.len(), 2);
    assert_eq!(next, None);
    assert_eq!(get_historical_prices_paginated(&h, 0, 0), Err(ErrorCode::InvalidPageSize));
    assert_eq!(get_historical_prices_paginated(&h, 0, 51), Err(ErrorCode::InvalidPageSize));
}

#[test]
fn compaction_keeps_moves_beyond_threshold() {
    let h = vec![entry(1, 10_000), entry(2, 10_010), entry(3, 10_500), entry(4, 10_501), entry(5, 10_502)];
    let (kept, meta) = compact_history(&h, 50, 6);
    assert_eq!(kept.iter().map(|e| e.ledger).collect::<Vec<_>>(), vec![1, 3, 5]);
    assert_eq!(meta.original_count, 5);
    assert_eq!(meta.compacted_count, 3);
}

#[test]
fn pruning_history() {
    let h: Vec<PriceHistoryEntry> = (1..=5).map(|l| entry(l, 1)).collect();
    let (rest, removed) = prune_oldest(&h, 2, 2);
    assert_eq!(removed, 2);
    assert_eq!(rest.iter().map(|e| e.ledger).collect::<Vec<_>>(), vec![3, 4, 5]);
    let (rest, removed) = prune_before_timestamp(&h, 30);
    assert_eq!(removed, 2);
    assert_eq!(rest.first().unwrap().ledger, 3);
}

#[test]
fn storage_budget_estimate() {
    assert_eq!(get_storage_budget(0), (0, 0, 0));
    assert_eq!(get_storage_budget(11), (1056, 8_000, 9_600));
}

// ── commit-reveal ───────────────────────────────────────────────────────────

fn sha256(data: &[u8]) -> [u8; 32] {
    let env = soroban_sdk::Env::default();
    env.crypto().sha256(&soroban_sdk::Bytes::from_slice(&env, data)).to_array()
}

fn committed_feed() -> PriceOracleContract {
    let mut c = PriceOracleContract::initialize(ADMIN, 1, 100, 7, "Oracle".to_string()).unwrap();
    c.add_source(ADMIN, SOURCE).unwrap();
    c.register_asset(ADMIN, ASSET).unwrap();
    c
}

#[test]
fn commitment_is_sha256_of_price_salt_and_round() {
    let salt = vec![7u8, 8, 9];
    let mut pre = 1_500i128.to_le_bytes().to_vec();
    pre.extend_from_slice(&salt);
    pre.extend_from_slice(&100u32.to_le_bytes());
    assert_eq!(compute_commit_hash(1_500, &salt, 100), sha256(&pre));
    assert_ne!(compute_commit_hash(1_500, &salt, 100), compute_commit_hash(1_501, &salt, 100));
}

#[test]
fn commit_then_reveal_publishes_the_price() {
    let mut c = committed_feed();
    let salt = vec![1u8, 2, 3];
    assert_eq!(c.current_round_ledger(105), 100);
    c.commit_price(SOURCE, ASSET, compute_commit_hash(2_000, &salt, 100), at(105)).unwrap();
    assert_eq!(c.commit_price(SOURCE, ASSET, [0u8; 32], at(106)), Err(ErrorCode::AlreadyCommitted));
    assert_eq!(c.reveal_price(SOURCE, ASSET, 2_000, &salt, 100, at(110)), Err(ErrorCode::RevealWindowClosed));
    assert_eq!(c.reveal_price(SOURCE, ASSET, 2_001, &salt, 100, at(121)), Err(ErrorCode::CommitHashMismatch));
    let agg = c.reveal_price(SOURCE, ASSET, 2_000, &salt, 100, at(121)).unwrap();
    assert_eq!(agg.unwrap().price, 2_000);
    assert_eq!(c.reveal_price(SOURCE, ASSET, 2_000, &salt, 100, at(122)), Err(ErrorCode::AlreadyCommitted));
    assert!(c.get_commit(ASSET, SOURCE, 100).unwrap().revealed);
}

#[test]
fn reveal_errors() {
    let mut c = committed_feed();
    let salt = vec![4u8];
    assert_eq!(c.reveal_price(SOURCE, ASSET, 5, &salt, 100, at(125)), Err(ErrorCode::CommitNotFound));
    c.commit_price(SOURCE, ASSET, compute_commit_hash(5, &salt, 100), at(100)).unwrap();
    assert_eq!(c.reveal_price(SOURCE, ASSET, 5, &salt, 100, at(140)), Err(ErrorCode::CommitExpired));
    assert_eq!(c.reveal_price(SOURCE, 999, 5, &salt, 100, at(125)), Err(ErrorCode::AssetNotRegistered));
    assert_eq!(c.commit_price(99, ASSET, [0u8; 32], at(100)), Err(ErrorCode::SourceNotFound));
}

// ── multi-signature governance ──────────────────────────────────────────────

#[test]
fn multisig_queue_quorum_and_timelock() {
    let mut ms = MultiSig::new(ADMIN);
    assert_eq!(ms.set_governors(ADMIN, vec![2, 3, 4], 0), Err(ErrorCode::InvalidConfiguration));
    assert_eq!(ms.set_governors(9, vec![2, 3, 4], 2), Err(ErrorCode::NotAuthorized));
    ms.set_governors(ADMIN, vec![2, 3, 4], 2).unwrap();
    assert_eq!(ms.propose_ms_operation(9, OperationType::SetDecimals, vec![8], at(1)), Err(ErrorCode::NotAuthorized));
    let first = ms.propose_ms_operation(2, OperationType::SetDecimals, vec![8], at(1)).unwrap();
    let second = ms.propose_ms_operation(3, OperationType::SetResolution, vec![1], at(1)).unwrap();
    assert_eq!((first, second), (1, 2));
    assert_eq!(ms.get_ms_queue_head(), 1);
    ms.approve_operation(2, first, at(2)).unwrap();
    assert_eq!(ms.approve_operation(2, first, at(2)), Err(ErrorCode::AlreadyApproved));
    assert_eq!(ms.execute_ms_operation(2, first, at(3)).err(), Some(ErrorCode::MsQuorumNotReached));
    ms.approve_operation(3, first, at(5)).unwrap();
    ms.approve_operation(2, second, at(5)).unwrap();
    ms.approve_operation(4, second, at(5)).unwrap();
    assert_eq!(ms.execute_ms_operation(2, second, at(20)).err(), Some(ErrorCode::MsNotQueueHead));
    assert_eq!(ms.execute_ms_operation(2, first, at(14)).err(), Some(ErrorCode::TimelockNotReady));
    let done = ms.execute_ms_operation(2, first, at(15)).unwrap();
    assert_eq!(done.op_type, OperationType::SetDecimals);
    assert_eq!(done.data, vec![8]);
    assert_eq!(ms.get_ms_queue_head(), 2);
    assert_eq!(ms.get_ms_operation(first).err(), Some(ErrorCode::OperationNotFound));
}

#[test]
fn multisig_retract_and_cancel() {
    let mut ms = MultiSig::new(ADMIN);
    ms.set_governors(ADMIN, vec![2, 3], 2).unwrap();
    let id = ms.propose_ms_operation(2, OperationType::SetAdmin, vec![], at(1)).unwrap();
    ms.approve_operation(2, id, at(1)).unwrap();
    ms.retract_approval(2, id).unwrap();
    assert_eq!(ms.get_ms_operation(id).unwrap().approvals.len(), 0);
    ms.cancel_ms_operation(ADMIN, id).unwrap();
    assert_eq!(ms.get_ms_queue_head(), 0);
}

// ── reputation ──────────────────────────────────────────────────────────────

#[test]
fn reputation_follows_accuracy() {
    let mut r = Reputation::new(ADMIN);
    assert_eq!(r.get_reputation(SOURCE), 50);
    r.update_reputation_on_submission(SOURCE, 100, 100);
    assert_eq!(r.get_reputation(SOURCE), 52);
    r.update_reputation_on_submission(7, 130, 100);
    assert_eq!(r.get_reputation(7), 48);
    r.update_reputation_on_submission(8, 130, 0);
    assert_eq!(r.get_reputation(8), 50);
}

#[test]
fn reputation_decays_toward_neutral() {
    let mut r = Reputation::new(ADMIN);
    for _ in 0..30 {
        r.update_reputation_on_submission(SOURCE, 100, 100);
    }
    let high = r.get_reputation(SOURCE);
    assert!(high > 52);
    r.apply_reputation_decay(SOURCE);
    assert_eq!(r.get_reputation(SOURCE) as i128, high as i128 - (high as i128 - 50) * 5 / 100);
}

#[test]
fn staking_and_slashing() {
    let mut r = Reputation::new(ADMIN);
    assert_eq!(r.stake_source(SOURCE, 0, at(1)), Err(ErrorCode::InvalidPrice));
    r.stake_source(SOURCE, 1_000, at(1)).unwrap();
    assert_eq!(r.slash_source(ADMIN, SOURCE, false, at(2)), Err(ErrorCode::ReputationTooHighToSlash));
    assert_eq!(r.slash_source(9, SOURCE, true, at(2)), Err(ErrorCode::NotAuthorized));
    r.slash_source(ADMIN, SOURCE, true, at(2)).unwrap();
    assert_eq!(r.get_stake(SOURCE), 800);
    assert_eq!(r.get_treasury_balance(), 200);
    assert_eq!(r.sweep_treasury(ADMIN), Ok(0));
    r.set_stake_token_contract(ADMIN, 77).unwrap();
    assert_eq!(r.sweep_treasury(ADMIN), Ok(200));
    assert_eq!(r.get_treasury_balance(), 0);
    assert_eq!(r.unstake_source(SOURCE), Some(800));
    assert_eq!(r.unstake_source(SOURCE), None);
}

// ── rate limits ─────────────────────────────────────────────────────────────

#[test]
fn free_tier_allows_ten_queries_per_ledger() {
    let mut rl = RateLimits::new(ADMIN);
    for _ in 0..10 {
        assert!(!rl.check_rate_limit(5, 1));
    }
    assert!(rl.check_rate_limit(5, 1));
    assert!(!rl.check_rate_limit(5, 2));
}

#[test]
fn enterprise_tier_is_unlimited() {
    let mut rl = RateLimits::new(ADMIN);
    assert_eq!(rl.grant_enterprise_tier(9, 5), Err(ErrorCode::NotAuthorized));
    rl.grant_enterprise_tier(ADMIN, 5).unwrap();
    assert_eq!(rl.get_consumer_tier(5), RateLimitTier::Enterprise);
    for _ in 0..200 {
        assert!(!rl.check_rate_limit(5, 1));
    }
    rl.revoke_enterprise_tier(ADMIN, 5).unwrap();
    assert_eq!(rl.get_consumer_tier(5), RateLimitTier::Free);
    assert_eq!(RateLimitTier::Subscribed.request_limit(), 100);
}

#[test]
fn query_quota_defaults_to_one_hundred() {
    let mut q = QueryQuota::new();
    for _ in 0..100 {
        q.check_rate_limit_and_increment(5, false, 1).unwrap();
    }
    assert_eq!(q.check_rate_limit_and_increment(5, false, 1), Err(ErrorCode::RateLimitExceeded));
    assert_eq!(q.check_rate_limit_and_increment(5, true, 1), Ok(()));
    assert_eq!(q.check_rate_limit_and_increment(5, false, 2), Ok(()));
    q.limit = Some(1);
    assert_eq!(q.check_rate_limit_and_increment(6, false, 1), Ok(()));
    assert_eq!(q.check_rate_limit_and_increment(6, false, 1), Err(ErrorCode::RateLimitExceeded));
}

// ── timelocked operations ───────────────────────────────────────────────────

#[test]
fn timelocked_operation_waits_for_the_delay() {
    let mut t = Timelock::new(ADMIN);
    assert_eq!(t.get_timelock_duration(), 10);
    assert_eq!(t.propose_operation(ADMIN, 8, vec![], at(1)), Err(ErrorCode::InvalidOperationType));
    assert_eq!(t.propose_operation(9, 2, vec![3], at(1)), Err(ErrorCode::NotAuthorized));
    let id = t.propose_operation(ADMIN, 2, vec![3], at(100)).unwrap();
    assert_eq!(id, 1);
    assert_eq!(t.execute_operation(9, id, at(200)).err(), Some(ErrorCode::NotAuthorized));
    assert_eq!(t.execute_operation(ADMIN, id, at(109)).err(), Some(ErrorCode::TimelockNotReady));
    let op = t.execute_operation(ADMIN, id, at(110)).unwrap();
    assert_eq!(op.op_type, OperationType::SetMinSources);
    assert_eq!(op.data, vec![3]);
    assert_eq!(t.execute_operation(ADMIN, id, at(111)).err(), Some(ErrorCode::OperationNotFound));
}

#[test]
fn timelocked_operation_can_be_cancelled() {
    let mut t = Timelock::new(ADMIN);
    assert_eq!(t.set_timelock_duration(9, 5), Err(ErrorCode::NotAuthorized));
    t.set_timelock_duration(ADMIN, 0).unwrap();
    let a = t.propose_operation(ADMIN, 0, vec![], at(1)).unwrap();
    let b = t.propose_operation(ADMIN, 7, vec![], at(1)).unwrap();
    assert_eq!(b, a + 1);
    assert_eq!(t.cancel_operation(9, a), Err(ErrorCode::NotAuthorized));
    t.cancel_operation(ADMIN, a).unwrap();
    assert_eq!(t.cancel_operation(ADMIN, a), Err(ErrorCode::OperationNotFound));
    assert!(t.execute_operation(ADMIN, b, at(1)).is_ok());
}

#[test]
fn batches_run_together_after_the_delay() {
    let mut t = Timelock::new(ADMIN);
    let ops = vec![BatchOperation { op_type: 2, data: vec![1] }, BatchOperation { op_type: 5, data: vec![8] }];
    assert_eq!(t.propose_batch(9, ops.clone(), at(1)), Err(ErrorCode::NotAuthorized));
    let bad = vec![BatchOperation { op_type: 2, data: vec![] }, BatchOperation { op_type: 9, data: vec![] }];
    assert_eq!(t.propose_batch(ADMIN, bad, at(1)), Err(ErrorCode::InvalidOperationType));
    let id = t.propose_batch(ADMIN, ops, at(50)).unwrap();
    assert_eq!(id, 1);
    assert_eq!(t.execute_batch(ADMIN, id, at(59)).err(), Some(ErrorCode::TimelockNotReady));
    let batch = t.execute_batch(ADMIN, id, at(60)).unwrap();
    assert_eq!(batch.operations.len(), 2);
    assert_eq!(batch.operations[1].data, vec![8]);
    assert_eq!(t.execute_batch(ADMIN, id, at(61)).err(), Some(ErrorCode::OperationNotFound));
    let other = t.propose_batch(ADMIN, vec![], at(61)).unwrap();
    t.cancel_batch(ADMIN, other).unwrap();
    assert_eq!(t.cancel_batch(ADMIN, other), Err(ErrorCode::OperationNotFound));
}
