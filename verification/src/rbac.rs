//! Role-based access control: the administrator holds every role and may
//! delegate single roles to other addresses, or take them back.

use vstd::prelude::*;
use std::collections::HashMap;
use crate::admin::{remove_all, without};
use crate::types::ErrorCode;

verus! {

broadcast use vstd::std_specs::hash::group_hash_axioms;

/// A delegable capability.
#[derive(Clone, Copy, Debug, PartialEq, Eq, Structural)]
pub enum Role {
    SourceManager,
    AssetManager,
    PriceUpdater,
    ConfigManager,
    UpgradeManager,
    Admin,
    Source,
}

/// Number of a role, in declaration order.
pub open spec fn role_num(role: Role) -> u32 {
    match role {
        Role::SourceManager => 0,
        Role::AssetManager => 1,
        Role::PriceUpdater => 2,
        Role::ConfigManager => 3,
        Role::UpgradeManager => 4,
        Role::Admin => 5,
        Role::Source => 6,
    }
}

/// Number of a role, in declaration order.
pub fn role_to_u32(role: Role) -> (r: u32)
    ensures
        r == role_num(role),
{
    match role {
        Role::SourceManager => 0,
        Role::AssetManager => 1,
        Role::PriceUpdater => 2,
        Role::ConfigManager => 3,
        Role::UpgradeManager => 4,
        Role::Admin => 5,
        Role::Source => 6,
    }
}

/// Key of a grant of role number `role` to `holder`.
pub open spec fn grant_key_spec(holder: u64, role: u32) -> u128 {
    (holder as int * 8 + role) as u128
}

fn grant_key(holder: u64, role: u32) -> (r: u128)
    requires
        role < 8,
    ensures
        r == grant_key_spec(holder, role),
{
    (holder as u128) * 8 + (role as u128)
}

/// Delegated roles.
pub struct Rbac {
    pub admin: u64,
    /// Grants, keyed by `grant_key(holder, role number)`.
    pub grants: HashMap<u128, u32>,
    /// Holders of each role number, in order of delegation.
    pub holders: HashMap<u32, Vec<u64>>,
}

impl Rbac {
    /// Whether role number `role` was delegated to `holder`.
    pub open spec fn granted(&self, holder: u64, role: u32) -> bool {
        self.grants@.contains_key(grant_key_spec(holder, role))
    }

    /// Whether `who` holds `role`: the administrator holds every role.
    pub open spec fn has_role_spec(&self, who: u64, role: Role) -> bool {
        who == self.admin || self.granted(who, role_num(role))
    }

    /// The holders of role number `role`, in order of delegation.
    pub open spec fn holders_of(&self, role: u32) -> Seq<u64> {
        if self.holders@.contains_key(role) { self.holders@[role]@ } else { Seq::empty() }
    }

    /// The role numbers below `n` delegated to `holder`, in increasing order.
    pub open spec fn granted_roles(&self, holder: u64, n: nat) -> Seq<u32>
        decreases n,
    {
        if n == 0 {
            Seq::empty()
        } else {
            let rest = self.granted_roles(holder, (n - 1) as nat);
            if self.granted(holder, (n - 1) as u32) { rest.push((n - 1) as u32) } else { rest }
        }
    }

    /// No role delegated.
    pub fn new(admin: u64) -> (r: Rbac)
        ensures
            r.admin == admin,
            forall|h: u64, role: u32| !#[trigger] r.granted(h, role),
            forall|role: u32| #[trigger] r.holders_of(role) == Seq::<u64>::empty(),
    {
        Rbac { admin, grants: HashMap::new(), holders: HashMap::new() }
    }

    /// Whether `caller` holds `role`.
    pub fn has_role(&self, caller: u64, role: Role) -> (r: bool)
        ensures
            r == self.has_role_spec(caller, role),
    {
        if caller == self.admin {
            return true;
        }
        let k = grant_key(caller, role_to_u32(role));
        match self.grants.get(&k) {
            Some(_) => true,
            None => false,
        }
    }

    /// Refuses a caller without `role`.
    pub fn check_role(&self, caller: u64, role: Role) -> (r: Result<(), ErrorCode>)
        ensures
            r == (if self.has_role_spec(caller, role) { Ok(()) } else { Err::<(), ErrorCode>(ErrorCode::NotAuthorized) }),
    {
        if !self.has_role(caller, role) {
            return Err(ErrorCode::NotAuthorized);
        }
        Ok(())
    }

    /// Delegates `role` to `delegatee` (administrator only); the delegatee
    /// joins the role's holders unless already among them.
    pub fn delegate_role(&mut self, caller: u64, delegatee: u64, role: Role) -> (r: Result<(), ErrorCode>)
        ensures
            r == (if caller == old(self).admin { Ok(()) } else { Err::<(), ErrorCode>(ErrorCode::NotAuthorized) }),
            forall|h: u64, n: u32| n < 8 ==> #[trigger] final(self).granted(h, n) == (old(self).granted(h, n)
                || (r.is_ok() && h == delegatee && n == role_num(role))),
            r.is_ok() ==> final(self).has_role_spec(delegatee, role),
            forall|n: u32| #[trigger] final(self).holders_of(n) == (if r.is_ok() && n == role_num(role)
                && !old(self).holders_of(n).contains(delegatee) {
                old(self).holders_of(n).push(delegatee)
            } else {
                old(self).holders_of(n)
            }),
            final(self).admin == old(self).admin,
    {
        if caller != self.admin {
            return Err(ErrorCode::NotAuthorized);
        }
        let n = role_to_u32(role);
        let k = grant_key(delegatee, n);
        proof {
            assert forall|h: u64, m: u32| m < 8 && grant_key_spec(h, m) == k implies h == delegatee && m == n by {
                assert(h as int * 8 + m == delegatee as int * 8 + n);
            }
        }
        self.grants.insert(k, 1);
        let mut list: Vec<u64> = match self.holders.remove(&n) {
            Some(v) => v,
            None => Vec::new(),
        };
        let ghost before = list@;
        let mut present = false;
        let mut i: usize = 0;
        while i < list.len()
            invariant
                list@ == before,
                0 <= i <= list@.len(),
                present <==> exists|j: int| 0 <= j < i && list@[j] == delegatee,
            decreases list@.len() - i,
        {
            if list[i] == delegatee {
                present = true;
            }
            i = i + 1;
        }
        if !present {
            list.push(delegatee);
        }
        self.holders.insert(n, list);
        Ok(())
    }

    /// Takes `role` back from `delegatee` (administrator only); every
    /// occurrence of the delegatee leaves the role's holders.
    pub fn revoke_role(&mut self, caller: u64, delegatee: u64, role: Role) -> (r: Result<(), ErrorCode>)
        ensures
            r == (if caller == old(self).admin { Ok(()) } else { Err::<(), ErrorCode>(ErrorCode::NotAuthorized) }),
            forall|h: u64, n: u32| n < 8 ==> #[trigger] final(self).granted(h, n) == (old(self).granted(h, n)
                && !(r.is_ok() && h == delegatee && n == role_num(role))),
            r.is_ok() && delegatee != old(self).admin ==> !final(self).has_role_spec(delegatee, role),
            forall|n: u32| #[trigger] final(self).holders_of(n) == (if r.is_ok() && n == role_num(role) {
                without(old(self).holders_of(n), delegatee)
            } else {
                old(self).holders_of(n)
            }),
            final(self).admin == old(self).admin,
    {
        if caller != self.admin {
            return Err(ErrorCode::NotAuthorized);
        }
        let n = role_to_u32(role);
        let k = grant_key(delegatee, n);
        proof {
            assert forall|h: u64, m: u32| m < 8 && grant_key_spec(h, m) == k implies h == delegatee && m == n by {
                assert(h as int * 8 + m == delegatee as int * 8 + n);
            }
        }
        self.grants.remove(&k);
        let list: Vec<u64> = match self.holders.get(&n) {
            Some(v) => remove_all(v, delegatee),
            None => {
                proof {
                    assert(without(Seq::<u64>::empty(), delegatee) == Seq::<u64>::empty());
                }
                Vec::new()
            },
        };
        self.holders.insert(n, list);
        Ok(())
    }

    /// The holders of `role`, in order of delegation.
    pub fn get_role_holders(&self, role: Role) -> (r: Vec<u64>)
        ensures
            r@ == self.holders_of(role_num(role)),
    {
        match self.holders.get(&role_to_u32(role)) {
            Some(v) => v.clone(),
            None => Vec::new(),
        }
    }

    /// The numbers of the five capability roles (`SourceManager` to
    /// `UpgradeManager`) that `holder` holds, in increasing order: all five
    /// for the administrator.
    pub fn get_address_roles(&self, holder: u64) -> (r: Vec<u32>)
        ensures
            holder == self.admin ==> r@ == seq![0u32, 1, 2, 3, 4],
            holder != self.admin ==> r@ == self.granted_roles(holder, 5),
    {
        let mut roles: Vec<u32> = Vec::new();
        if holder == self.admin {
            roles.push(0);
            roles.push(1);
            roles.push(2);
            roles.push(3);
            roles.push(4);
            return roles;
        }
        let mut n: u32 = 0;
        while n < 5
            invariant
                0 <= n <= 5,
                roles@ == self.granted_roles(holder, n as nat),
            decreases 5 - n,
        {
            let k = grant_key(holder, n);
            if self.grants.contains_key(&k) {
                roles.push(n);
            }
            n = n + 1;
        }
        roles
    }
}

} // verus!
