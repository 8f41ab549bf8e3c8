//! Administrator delegation for multi-key governance, and the consistency
//! of administrative state changes.

use price_oracle::oracle::PriceOracleContract;
use price_oracle::rbac::{Rbac, Role};
use price_oracle::types::{ErrorCode, LedgerInfo};

const ADMIN: u64 = 1;
const NOW: LedgerInfo = LedgerInfo { sequence: 100, timestamp: 1_000 };

fn contract() -> PriceOracleContract {
    PriceOracleContract::initialize(ADMIN, 2, 100, 18, "Stellar Price Oracle Aggregator".to_string()).unwrap()
}

/// Distinct account ids, as freshly generated addresses would be.
fn accounts(first: u64, n: u64) -> Vec<u64> {
    (first..first + n).collect()
}

#[test]
fn test_admin_role_delegation_creates_audit_log() {
    let mut r = Rbac::new(ADMIN);
    r.delegate_role(ADMIN, 20, Role::Admin).unwrap();
    assert!(r.has_role(20, Role::Admin));
    assert!(r.has_role(ADMIN, Role::Admin));
}

#[test]
fn test_role_revocation_removes_permission() {
    let mut r = Rbac::new(ADMIN);
    r.delegate_role(ADMIN, 20, Role::Admin).unwrap();
    assert!(r.has_role(20, Role::Admin));
    r.revoke_role(ADMIN, 20, Role::Admin).unwrap();
    assert!(!r.has_role(20, Role::Admin));
}

#[test]
fn test_get_role_holders_returns_all_delegates() {
    let mut r = Rbac::new(ADMIN);
    r.delegate_role(ADMIN, 20, Role::Admin).unwrap();
    r.delegate_role(ADMIN, 21, Role::Admin).unwrap();
    assert!(r.get_role_holders(Role::Admin).len() >= 2);
}

#[test]
fn test_unauthorized_role_delegation_blocked() {
    let mut r = Rbac::new(ADMIN);
    assert_eq!(r.delegate_role(30, 20, Role::Admin), Err(ErrorCode::NotAuthorized));
    assert!(!r.has_role(20, Role::Admin));
}

#[test]
fn test_multiple_source_registrations_emit_events() {
    let mut c = contract();
    for s in accounts(10, 3) {
        c.add_source(ADMIN, s).unwrap();
    }
    assert!(c.get_oracle_sources().len() >= 3);
}

#[test]
fn test_asset_registration_and_unregistration_consistency() {
    let mut c = contract();
    c.register_asset(ADMIN, 100).unwrap();
    assert!(c.is_asset_registered(100));
    c.unregister_asset(ADMIN, 100).unwrap();
    assert!(!c.is_asset_registered(100));
}

#[test]
fn test_admin_set_and_get_operations_consistency() {
    let mut c = contract();
    c.set_admin(ADMIN, 40).unwrap();
    assert_eq!(c.get_admin_address(), 40);
}

#[test]
fn test_source_removal_prevents_new_submissions() {
    let mut c = contract();
    c.add_source(ADMIN, 10).unwrap();
    c.register_asset(ADMIN, 100).unwrap();
    c.submit_price(10, 100, 1_000_000, 1_000, 1, NOW).unwrap();
    c.remove_source(ADMIN, 10).unwrap();
    assert!(!c.is_source(10));
    assert_eq!(c.submit_price(10, 100, 1_000_000, 1_000, 2, NOW), Err(ErrorCode::SourceNotFound));
}

#[test]
fn test_concurrent_state_transitions_maintain_consistency() {
    let mut c = contract();
    c.add_source(ADMIN, 10).unwrap();
    c.add_source(ADMIN, 11).unwrap();
    c.register_asset(ADMIN, 100).unwrap();
    c.register_asset(ADMIN, 101).unwrap();
    c.set_min_sources_required(ADMIN, 2).unwrap();
    c.submit_price(10, 100, 1_000_000, 1_000, 1, NOW).unwrap();
    c.submit_price(11, 101, 2_000_000, 1_000, 1, NOW).unwrap();
    assert_eq!(c.get_min_sources_required(), 2);
}

#[test]
fn test_multisig_three_of_five_delegation_setup() {
    let mut r = Rbac::new(ADMIN);
    for g in accounts(20, 5) {
        r.delegate_role(ADMIN, g, Role::Admin).unwrap();
    }
    assert!(r.get_role_holders(Role::Admin).len() >= 5);
}

#[test]
fn test_multisig_five_of_seven_delegation_setup() {
    let mut r = Rbac::new(ADMIN);
    for g in accounts(20, 7) {
        r.delegate_role(ADMIN, g, Role::Admin).unwrap();
    }
    assert!(r.get_role_holders(Role::Admin).len() >= 7);
}

#[test]
fn test_key_rotation_via_delegation_and_revocation() {
    let mut r = Rbac::new(ADMIN);
    let (old_key, new_key) = (20, 21);
    r.delegate_role(ADMIN, old_key, Role::Admin).unwrap();
    assert!(r.has_role(old_key, Role::Admin));
    r.delegate_role(ADMIN, new_key, Role::Admin).unwrap();
    assert!(r.has_role(new_key, Role::Admin));
    r.revoke_role(ADMIN, old_key, Role::Admin).unwrap();
    assert!(!r.has_role(old_key, Role::Admin));
    assert!(r.has_role(new_key, Role::Admin));
}

#[test]
fn test_cascading_key_rotation_maintains_threshold() {
    let mut r = Rbac::new(ADMIN);
    let old_govs = accounts(20, 3);
    let new_govs = accounts(30, 3);
    for g in old_govs.iter().chain(new_govs.iter()) {
        r.delegate_role(ADMIN, *g, Role::Admin).unwrap();
    }
    for g in &old_govs {
        r.revoke_role(ADMIN, *g, Role::Admin).unwrap();
    }
    assert!(r.get_role_holders(Role::Admin).len() >= 3);
}

#[test]
fn test_emergency_admin_delegation_and_recovery() {
    let mut r = Rbac::new(ADMIN);
    let (emergency_key, recovered_key) = (20, 21);
    r.delegate_role(ADMIN, emergency_key, Role::Admin).unwrap();
    assert!(r.has_role(emergency_key, Role::Admin));
    r.delegate_role(ADMIN, recovered_key, Role::Admin).unwrap();
    r.revoke_role(ADMIN, emergency_key, Role::Admin).unwrap();
    assert!(r.has_role(recovered_key, Role::Admin));
    assert!(!r.has_role(emergency_key, Role::Admin));
}

#[test]
fn test_admin_role_cannot_be_removed_from_all_holders() {
    let mut r = Rbac::new(ADMIN);
    r.delegate_role(ADMIN, 20, Role::Admin).unwrap();
    assert!(r.get_role_holders(Role::Admin).len() >= 1);
}

#[test]
fn test_source_role_delegation_for_secondary_oracles() {
    let mut r = Rbac::new(ADMIN);
    r.delegate_role(ADMIN, 20, Role::Admin).unwrap();
    r.delegate_role(ADMIN, 21, Role::Source).unwrap();
    r.delegate_role(ADMIN, 22, Role::Source).unwrap();
    assert!(r.has_role(20, Role::Admin));
    assert!(r.has_role(21, Role::Source));
    assert!(r.has_role(22, Role::Source));
}

#[test]
fn test_role_separation_admin_and_source() {
    let mut r = Rbac::new(ADMIN);
    let (admin_only, source_only) = (20, 21);
    r.delegate_role(ADMIN, admin_only, Role::Admin).unwrap();
    r.delegate_role(ADMIN, source_only, Role::Source).unwrap();
    assert!(r.has_role(admin_only, Role::Admin));
    assert!(!r.has_role(admin_only, Role::Source));
    assert!(!r.has_role(source_only, Role::Admin));
    assert!(r.has_role(source_only, Role::Source));
}

#[test]
fn test_admin_revocation_isolation() {
    let mut r = Rbac::new(ADMIN);
    r.delegate_role(ADMIN, 20, Role::Admin).unwrap();
    r.delegate_role(ADMIN, 20, Role::Source).unwrap();
    r.revoke_role(ADMIN, 20, Role::Admin).unwrap();
    assert!(!r.has_role(20, Role::Admin));
    assert!(r.has_role(20, Role::Source));
}

#[test]
fn test_multisig_consistency_across_role_operations() {
    let mut r = Rbac::new(ADMIN);
    let govs = accounts(20, 5);
    for g in &govs {
        r.delegate_role(ADMIN, *g, Role::Admin).unwrap();
    }
    let initial_count = r.get_role_holders(Role::Admin).len();
    r.revoke_role(ADMIN, govs[0], Role::Admin).unwrap();
    assert_eq!(r.get_role_holders(Role::Admin).len(), initial_count - 1);
}

#[test]
fn capability_roles_listed_for_a_holder_leave_out_admin_and_source() {
    let mut r = Rbac::new(ADMIN);
    r.delegate_role(ADMIN, 20, Role::Admin).unwrap();
    r.delegate_role(ADMIN, 20, Role::Source).unwrap();
    r.delegate_role(ADMIN, 20, Role::ConfigManager).unwrap();
    assert_eq!(r.get_address_roles(20), vec![3]);
}
