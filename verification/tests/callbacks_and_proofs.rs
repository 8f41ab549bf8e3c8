//! Price callbacks and submissions carrying an external proof.

use price_oracle::callbacks::Callbacks;
use price_oracle::oracle::PriceOracleContract;
use price_oracle::price_proof::{AssetProofRequirement, PriceProof, ProofRegistry, ProofType};
use price_oracle::types::{ErrorCode, LedgerInfo};

const ADMIN: u64 = 1;
const SOURCE: u64 = 10;
const ASSET: u64 = 100;
const ASSET2: u64 = 101;

fn now() -> LedgerInfo {
    LedgerInfo { sequence: 100, timestamp: 1_000_000 }
}

fn setup() -> PriceOracleContract {
    let mut c = PriceOracleContract::initialize(ADMIN, 1, 100, 7, "Oracle".to_string()).unwrap();
    c.set_min_sources_required(ADMIN, 1).unwrap();
    c.add_source(ADMIN, SOURCE).unwrap();
    c.register_asset(ADMIN, ASSET).unwrap();
    c.register_asset(ADMIN, ASSET2).unwrap();
    c
}

fn cex_proof() -> PriceProof {
    PriceProof { proof_type: ProofType::CexSignedResponse, payload_hash: vec![0u8; 32], signature: vec![1u8; 64], signer_count: 0 }
}

fn dex_proof() -> PriceProof {
    PriceProof { proof_type: ProofType::DexTrade, payload_hash: vec![2u8; 32], signature: vec![3u8; 20], signer_count: 0 }
}

fn multisig_proof() -> PriceProof {
    PriceProof { proof_type: ProofType::MultiSigAttestation, payload_hash: vec![4u8; 32], signature: vec![5u8; 64], signer_count: 3 }
}

#[test]
fn test_register_callback() {
    let c = setup();
    let mut cb = Callbacks::new();
    cb.register_price_callback(&c, 5, ASSET, 77, "priceupd".to_string()).unwrap();
    let regs = cb.get_price_callbacks(ASSET);
    assert_eq!(regs.len(), 1);
    assert_eq!(regs[0].consumer, 5);
    assert_eq!(regs[0].callback_contract, 77);
    assert!(regs[0].active);
}

#[test]
fn test_unregister_callback() {
    let c = setup();
    let mut cb = Callbacks::new();
    cb.register_price_callback(&c, 5, ASSET, 77, "priceupd".to_string()).unwrap();
    cb.unregister_price_callback(&c, 5, ASSET).unwrap();
    assert_eq!(cb.get_price_callbacks(ASSET).len(), 0);
}

#[test]
fn test_reregister_updates_entry() {
    let c = setup();
    let mut cb = Callbacks::new();
    cb.register_price_callback(&c, 5, ASSET, 77, "priceupd".to_string()).unwrap();
    cb.register_price_callback(&c, 5, ASSET, 78, "priceupd".to_string()).unwrap();
    let regs = cb.get_price_callbacks(ASSET);
    assert_eq!(regs.len(), 1);
    assert_eq!(regs[0].callback_contract, 78);
}

#[test]
fn test_multiple_consumers() {
    let c = setup();
    let mut cb = Callbacks::new();
    for i in 0..5u64 {
        cb.register_price_callback(&c, 20 + i, ASSET, 70 + i, "priceupd".to_string()).unwrap();
    }
    assert_eq!(cb.get_price_callbacks(ASSET).len(), 5);
}

#[test]
fn test_too_many_callbacks_panics() {
    let c = setup();
    let mut cb = Callbacks::new();
    for i in 0..10u64 {
        cb.register_price_callback(&c, 20 + i, ASSET, 70 + i, "priceupd".to_string()).unwrap();
    }
    assert_eq!(cb.register_price_callback(&c, 99, ASSET, 7, "priceupd".to_string()), Err(ErrorCode::TooManyCallbacks));
    assert_eq!(cb.get_price_callbacks(ASSET).len(), 10);
    // an existing consumer may still replace its registration
    assert_eq!(cb.register_price_callback(&c, 20, ASSET, 7, "other".to_string()), Ok(()));
}

#[test]
fn test_unregister_nonexistent_panics() {
    let c = setup();
    let mut cb = Callbacks::new();
    assert_eq!(cb.unregister_price_callback(&c, 5, ASSET), Err(ErrorCode::CallbackNotFound));
}

#[test]
fn test_callback_unregistered_asset_rejected() {
    let c = setup();
    let mut cb = Callbacks::new();
    assert_eq!(cb.register_price_callback(&c, 5, 999, 77, "priceupd".to_string()), Err(ErrorCode::AssetNotRegistered));
}

#[test]
fn test_empty_callbacks_returns_empty_vec() {
    let cb = Callbacks::new();
    assert_eq!(cb.get_price_callbacks(ASSET).len(), 0);
}

#[test]
fn test_aggregation_commits_despite_failed_callback() {
    let mut c = setup();
    let mut cb = Callbacks::new();
    cb.register_price_callback(&c, 5, ASSET, 77, "priceupd".to_string()).unwrap();
    c.submit_price(SOURCE, ASSET, 9_999, 1_000_000, 1, now()).unwrap();
    let p = c.get_price(ASSET, 0, now()).unwrap();
    assert!(p.is_some());
    assert_eq!(p.unwrap().price, 9_999);
    let due = cb.invoke_price_callbacks(ASSET);
    assert_eq!(due, vec![(77, "priceupd".to_string())]);
}

#[test]
fn test_callbacks_are_per_asset() {
    let c = setup();
    let mut cb = Callbacks::new();
    cb.register_price_callback(&c, 5, ASSET, 77, "priceupd".to_string()).unwrap();
    assert_eq!(cb.get_price_callbacks(ASSET).len(), 1);
    assert_eq!(cb.get_price_callbacks(ASSET2).len(), 0);
}

#[test]
fn test_cex_proof_accepted() {
    let mut c = setup();
    let mut reg = ProofRegistry::new();
    reg.submit_price_with_external_proof(&mut c, SOURCE, ASSET, 1_000, 1_000_000, cex_proof(), now()).unwrap();
    assert_eq!(c.get_price(ASSET, 0, now()).unwrap().unwrap().price, 1_000);
}

#[test]
fn test_dex_proof_accepted() {
    let mut c = setup();
    let mut reg = ProofRegistry::new();
    reg.submit_price_with_external_proof(&mut c, SOURCE, ASSET, 2_000, 1_000_000, dex_proof(), now()).unwrap();
    assert_eq!(c.get_price(ASSET, 0, now()).unwrap().unwrap().price, 2_000);
}

#[test]
fn test_multisig_proof_accepted() {
    let mut c = setup();
    let mut reg = ProofRegistry::new();
    reg.submit_price_with_external_proof(&mut c, SOURCE, ASSET, 3_000, 1_000_000, multisig_proof(), now()).unwrap();
    assert_eq!(c.get_price(ASSET, 0, now()).unwrap().unwrap().price, 3_000);
}

#[test]
fn test_cex_proof_short_payload_rejected() {
    let mut c = setup();
    let mut reg = ProofRegistry::new();
    let bad = PriceProof { proof_type: ProofType::CexSignedResponse, payload_hash: vec![0u8; 10], signature: vec![1u8; 64], signer_count: 0 };
    assert_eq!(reg.submit_price_with_external_proof(&mut c, SOURCE, ASSET, 1_000, 1_000_000, bad, now()), Err(ErrorCode::InvalidProof));
}

#[test]
fn test_dex_proof_empty_pool_rejected() {
    let mut c = setup();
    let mut reg = ProofRegistry::new();
    let bad = PriceProof { proof_type: ProofType::DexTrade, payload_hash: vec![2u8; 32], signature: vec![], signer_count: 0 };
    assert_eq!(reg.submit_price_with_external_proof(&mut c, SOURCE, ASSET, 1_000, 1_000_000, bad, now()), Err(ErrorCode::InvalidProof));
}

#[test]
fn test_multisig_too_few_signers_rejected() {
    let mut c = setup();
    let mut reg = ProofRegistry::new();
    let bad = PriceProof { proof_type: ProofType::MultiSigAttestation, payload_hash: vec![4u8; 32], signature: vec![5u8; 64], signer_count: 1 };
    assert_eq!(reg.submit_price_with_external_proof(&mut c, SOURCE, ASSET, 1_000, 1_000_000, bad, now()), Err(ErrorCode::InvalidProof));
}

#[test]
fn test_asset_requires_cex_rejects_dex() {
    let mut c = setup();
    let mut reg = ProofRegistry::new();
    reg.set_asset_proof_requirement(&c, ADMIN, ASSET, AssetProofRequirement::RequireCex).unwrap();
    assert_eq!(reg.submit_price_with_external_proof(&mut c, SOURCE, ASSET, 1_000, 1_000_000, dex_proof(), now()), Err(ErrorCode::ProofTypeMismatch));
}

#[test]
fn test_correct_proof_type_satisfies_requirement() {
    let mut c = setup();
    let mut reg = ProofRegistry::new();
    reg.set_asset_proof_requirement(&c, ADMIN, ASSET, AssetProofRequirement::RequireDex).unwrap();
    reg.submit_price_with_external_proof(&mut c, SOURCE, ASSET, 5_000, 1_000_000, dex_proof(), now()).unwrap();
    assert_eq!(c.get_price(ASSET, 0, now()).unwrap().unwrap().price, 5_000);
}

#[test]
fn test_get_submission_proof() {
    let mut c = setup();
    let mut reg = ProofRegistry::new();
    reg.submit_price_with_external_proof(&mut c, SOURCE, ASSET, 1_000, 1_000_000, cex_proof(), now()).unwrap();
    let p = reg.get_submission_proof(ASSET, SOURCE).unwrap();
    assert_eq!(p.proof_type, ProofType::CexSignedResponse);
    assert_eq!(p.payload_hash, vec![0u8; 32]);
}

#[test]
fn test_default_proof_requirement_is_any_or_none() {
    let reg = ProofRegistry::new();
    assert_eq!(reg.get_asset_proof_requirement(ASSET), AssetProofRequirement::AnyOrNone);
}

#[test]
fn proof_nonce_follows_the_ledger() {
    let mut c = setup();
    let mut reg = ProofRegistry::new();
    reg.submit_price_with_external_proof(&mut c, SOURCE, ASSET, 1_000, 1_000_000, cex_proof(), now()).unwrap();
    // the nonce used was max(0 + 1, 100) = 100, so a direct submission with nonce 100 is stale
    assert_eq!(c.submit_price(SOURCE, ASSET, 1_000, 1_000_000, 100, now()), Err(ErrorCode::InvalidNonce));
    assert!(c.submit_price(SOURCE, ASSET, 1_000, 1_000_000, 101, now()).is_ok());
}

#[test]
fn proof_requirement_errors() {
    let c = setup();
    let mut reg = ProofRegistry::new();
    assert_eq!(reg.set_asset_proof_requirement(&c, 2, ASSET, AssetProofRequirement::RequireCex), Err(ErrorCode::NotAuthorized));
    assert_eq!(reg.set_asset_proof_requirement(&c, ADMIN, 999, AssetProofRequirement::RequireCex), Err(ErrorCode::AssetNotRegistered));
}
