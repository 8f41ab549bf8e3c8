//! Role-based access control.

use price_oracle::rbac::{Rbac, Role};
use price_oracle::types::ErrorCode;

const ADMIN: u64 = 1;

#[test]
fn test_admin_has_all_roles() {
    let r = Rbac::new(ADMIN);
    assert!(r.has_role(ADMIN, Role::SourceManager));
    assert!(r.has_role(ADMIN, Role::AssetManager));
    assert!(r.has_role(ADMIN, Role::PriceUpdater));
    assert!(r.has_role(ADMIN, Role::ConfigManager));
    assert!(r.has_role(ADMIN, Role::UpgradeManager));
}

#[test]
fn test_delegate_role() {
    let mut r = Rbac::new(ADMIN);
    assert!(!r.has_role(7, Role::SourceManager));
    r.delegate_role(ADMIN, 7, Role::SourceManager).unwrap();
    assert!(r.has_role(7, Role::SourceManager));
}

#[test]
fn test_revoke_role() {
    let mut r = Rbac::new(ADMIN);
    r.delegate_role(ADMIN, 7, Role::AssetManager).unwrap();
    assert!(r.has_role(7, Role::AssetManager));
    r.revoke_role(ADMIN, 7, Role::AssetManager).unwrap();
    assert!(!r.has_role(7, Role::AssetManager));
}

#[test]
fn test_get_role_holders() {
    let mut r = Rbac::new(ADMIN);
    r.delegate_role(ADMIN, 7, Role::ConfigManager).unwrap();
    r.delegate_role(ADMIN, 8, Role::ConfigManager).unwrap();
    let holders = r.get_role_holders(Role::ConfigManager);
    assert!(holders.len() >= 2);
    assert_eq!(holders, vec![7, 8]);
}

#[test]
fn test_get_address_roles() {
    let mut r = Rbac::new(ADMIN);
    r.delegate_role(ADMIN, 7, Role::SourceManager).unwrap();
    r.delegate_role(ADMIN, 7, Role::AssetManager).unwrap();
    let roles = r.get_address_roles(7);
    assert!(roles.len() >= 2);
    assert_eq!(roles, vec![0, 1]);
}

#[test]
fn test_admin_has_all_roles_in_get_address_roles() {
    let r = Rbac::new(ADMIN);
    assert_eq!(r.get_address_roles(ADMIN).len(), 5);
}

#[test]
fn test_multiple_roles_per_address() {
    let mut r = Rbac::new(ADMIN);
    r.delegate_role(ADMIN, 7, Role::SourceManager).unwrap();
    r.delegate_role(ADMIN, 7, Role::AssetManager).unwrap();
    r.delegate_role(ADMIN, 7, Role::PriceUpdater).unwrap();
    assert!(r.has_role(7, Role::SourceManager));
    assert!(r.has_role(7, Role::AssetManager));
    assert!(r.has_role(7, Role::PriceUpdater));
    assert!(!r.has_role(7, Role::ConfigManager));
}

#[test]
fn test_role_isolation() {
    let mut r = Rbac::new(ADMIN);
    r.delegate_role(ADMIN, 7, Role::SourceManager).unwrap();
    r.delegate_role(ADMIN, 8, Role::AssetManager).unwrap();
    assert!(r.has_role(7, Role::SourceManager));
    assert!(!r.has_role(7, Role::AssetManager));
    assert!(!r.has_role(8, Role::SourceManager));
    assert!(r.has_role(8, Role::AssetManager));
}

#[test]
fn test_role_revoke_leaves_other_roles() {
    let mut r = Rbac::new(ADMIN);
    r.delegate_role(ADMIN, 7, Role::SourceManager).unwrap();
    r.delegate_role(ADMIN, 7, Role::AssetManager).unwrap();
    r.revoke_role(ADMIN, 7, Role::SourceManager).unwrap();
    assert!(!r.has_role(7, Role::SourceManager));
    assert!(r.has_role(7, Role::AssetManager));
}

#[test]
fn test_delegate_same_role_twice() {
    let mut r = Rbac::new(ADMIN);
    r.delegate_role(ADMIN, 7, Role::UpgradeManager).unwrap();
    r.delegate_role(ADMIN, 7, Role::UpgradeManager).unwrap();
    assert!(r.has_role(7, Role::UpgradeManager));
    assert_eq!(r.get_role_holders(Role::UpgradeManager), vec![7]);
}

#[test]
fn test_non_admin_cannot_delegate() {
    let mut r = Rbac::new(ADMIN);
    assert_eq!(r.delegate_role(9, 7, Role::SourceManager), Err(ErrorCode::NotAuthorized));
    assert_eq!(r.revoke_role(9, 7, Role::SourceManager), Err(ErrorCode::NotAuthorized));
    assert!(!r.has_role(7, Role::SourceManager));
}

#[test]
fn check_role_refuses_missing_role() {
    let mut r = Rbac::new(ADMIN);
    assert_eq!(r.check_role(7, Role::PriceUpdater), Err(ErrorCode::NotAuthorized));
    r.delegate_role(ADMIN, 7, Role::PriceUpdater).unwrap();
    assert_eq!(r.check_role(7, Role::PriceUpdater), Ok(()));
}

#[test]
fn revoke_removes_every_holder_entry() {
    let mut r = Rbac::new(ADMIN);
    r.delegate_role(ADMIN, 7, Role::ConfigManager).unwrap();
    r.delegate_role(ADMIN, 8, Role::ConfigManager).unwrap();
    r.revoke_role(ADMIN, 7, Role::ConfigManager).unwrap();
    assert_eq!(r.get_role_holders(Role::ConfigManager), vec![8]);
}
