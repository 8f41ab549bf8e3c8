//! Cross-chain deliveries through a LayerZero endpoint: the administrator
//! configures the trusted endpoint, names the source chains and allow-lists
//! remote senders, each attributed to a registered oracle source. A
//! delivery is accepted only from the configured endpoint, for an
//! allow-listed pathway, with the pathway's next nonce (strict ordering: a
//! replay, a gap or a reordering is refused).

use vstd::prelude::*;
use std::collections::HashMap;
use crate::commit_reveal::digests_equal;
use crate::oracle::PriceOracleContract;
use crate::types::ErrorCode;

verus! {

broadcast use vstd::std_specs::hash::group_hash_axioms;

/// What is known of one `(src_eid, sender)` pathway.
#[derive(Clone, Copy, Debug)]
pub struct LzPathway {
    pub src_eid: u32,
    pub sender: [u8; 32],
    /// Oracle source that deliveries on this pathway are attributed to,
    /// while the pathway is trusted.
    pub bridge_source: Option<u64>,
    /// Last accepted nonce (0 before any).
    pub nonce: u64,
}

/// The LayerZero configuration and the pathways' nonces.
pub struct LayerZero {
    pub admin: u64,
    pub endpoint: Option<u64>,
    /// Source chain name per endpoint id.
    pub chain_names: HashMap<u32, String>,
    pub pathways: Vec<LzPathway>,
}

/// Position of the first record of the pathway at or after `i` (-1 when none).
pub open spec fn path_pos_from(s: Seq<LzPathway>, eid: u32, sender: Seq<u8>, i: int) -> int
    decreases s.len() - i,
{
    if i < 0 || i >= s.len() {
        -1
    } else if s[i].src_eid == eid && s[i].sender@ == sender {
        i
    } else {
        path_pos_from(s, eid, sender, i + 1)
    }
}

/// Position of the pathway's record (-1 when none).
pub open spec fn path_pos(s: Seq<LzPathway>, eid: u32, sender: Seq<u8>) -> int {
    path_pos_from(s, eid, sender, 0)
}

pub proof fn lemma_path_pos_range(s: Seq<LzPathway>, eid: u32, sender: Seq<u8>, i: int)
    ensures
        path_pos_from(s, eid, sender, i) == -1 || (i <= path_pos_from(s, eid, sender, i) < s.len()
            && s[path_pos_from(s, eid, sender, i)].src_eid == eid
            && s[path_pos_from(s, eid, sender, i)].sender@ == sender),
    decreases s.len() - i,
{
    if 0 <= i < s.len() && !(s[i].src_eid == eid && s[i].sender@ == sender) {
        lemma_path_pos_range(s, eid, sender, i + 1);
    }
}

pub proof fn lemma_path_pos_push(s: Seq<LzPathway>, r: LzPathway, eid: u32, sender: Seq<u8>, i: int)
    requires
        0 <= i,
    ensures
        path_pos_from(s.push(r), eid, sender, i) == (if path_pos_from(s, eid, sender, i) >= 0 {
            path_pos_from(s, eid, sender, i)
        } else if r.src_eid == eid && r.sender@ == sender && i <= s.len() {
            s.len() as int
        } else {
            -1
        }),
    decreases s.len() + 1 - i,
{
    if i == s.len() {
        assert(s.push(r)[i] == r);
        assert(path_pos_from(s.push(r), eid, sender, i + 1) == -1);
    }
    if i < s.len() {
        assert(s.push(r)[i] == s[i]);
        if !(s[i].src_eid == eid && s[i].sender@ == sender) {
            lemma_path_pos_push(s, r, eid, sender, i + 1);
        }
    }
}

pub proof fn lemma_path_pos_update(s: Seq<LzPathway>, p: int, r: LzPathway, eid: u32, sender: Seq<u8>, i: int)
    requires
        0 <= p < s.len(),
        r.src_eid == s[p].src_eid,
        r.sender@ == s[p].sender@,
    ensures
        path_pos_from(s.update(p, r), eid, sender, i) == path_pos_from(s, eid, sender, i),
    decreases s.len() - i,
{
    if 0 <= i < s.len() {
        if !(s[i].src_eid == eid && s[i].sender@ == sender) {
            lemma_path_pos_update(s, p, r, eid, sender, i + 1);
        }
    }
}

impl LayerZero {
    /// The oracle source that `(eid, sender)` deliveries are attributed to.
    pub open spec fn remote_of(&self, eid: u32, sender: Seq<u8>) -> Option<u64> {
        let p = path_pos(self.pathways@, eid, sender);
        if p >= 0 { self.pathways@[p].bridge_source } else { None }
    }

    /// Last accepted nonce of the pathway (0 before any).
    pub open spec fn nonce_of(&self, eid: u32, sender: Seq<u8>) -> u64 {
        let p = path_pos(self.pathways@, eid, sender);
        if p >= 0 { self.pathways@[p].nonce } else { 0 }
    }

    /// The chain name of endpoint id `eid`, by its characters.
    pub open spec fn chain_of(&self, eid: u32) -> Option<Seq<char>> {
        if self.chain_names@.contains_key(eid) { Some(self.chain_names@[eid]@) } else { None }
    }

    /// Nothing configured yet.
    pub fn new(admin: u64) -> (r: LayerZero)
        ensures
            r.admin == admin,
            r.endpoint.is_none(),
            forall|e: u32| #[trigger] r.chain_of(e).is_none(),
            forall|e: u32, s: Seq<u8>| #[trigger] r.remote_of(e, s).is_none(),
            forall|e: u32, s: Seq<u8>| #[trigger] r.nonce_of(e, s) == 0,
    {
        LayerZero { admin, endpoint: None, chain_names: HashMap::new(), pathways: Vec::new() }
    }

    fn find_pathway(&self, eid: u32, sender: &[u8; 32]) -> (r: Option<usize>)
        ensures
            match r {
                Some(p) => p as int == path_pos(self.pathways@, eid, sender@) && p < self.pathways@.len(),
                None => path_pos(self.pathways@, eid, sender@) == -1,
            },
    {
        let n = self.pathways.len();
        let mut i: usize = 0;
        while i < n
            invariant
                n == self.pathways@.len(),
                0 <= i <= n,
                path_pos(self.pathways@, eid, sender@) == path_pos_from(self.pathways@, eid, sender@, i as int),
            decreases n - i,
        {
            let rec = self.pathways[i];
            if rec.src_eid == eid && digests_equal(&rec.sender, sender) {
                return Some(i);
            }
            i = i + 1;
        }
        None
    }

    /// Sets the trusted endpoint (administrator only).
    pub fn set_layerzero_endpoint(&mut self, caller: u64, endpoint: u64) -> (r: Result<(), ErrorCode>)
        ensures
            r == (if caller == old(self).admin { Ok(()) } else { Err::<(), ErrorCode>(ErrorCode::NotAuthorized) }),
            final(self).endpoint == (if r.is_ok() { Some(endpoint) } else { old(self).endpoint }),
            final(self).admin == old(self).admin,
            final(self).chain_names@ == old(self).chain_names@,
            final(self).pathways@ == old(self).pathways@,
    {
        if caller != self.admin {
            return Err(ErrorCode::NotAuthorized);
        }
        self.endpoint = Some(endpoint);
        Ok(())
    }

    /// The trusted endpoint.
    pub fn get_layerzero_endpoint(&self) -> (r: Option<u64>)
        ensures
            r == self.endpoint,
    {
        self.endpoint
    }

    /// Names the source chain of endpoint id `src_eid` (administrator only).
    pub fn set_lz_chain_name(&mut self, caller: u64, src_eid: u32, chain: String) -> (r: Result<(), ErrorCode>)
        ensures
            r == (if caller == old(self).admin { Ok(()) } else { Err::<(), ErrorCode>(ErrorCode::NotAuthorized) }),
            forall|e: u32| #[trigger] final(self).chain_of(e) == (if r.is_ok() && e == src_eid {
                Some(chain@)
            } else {
                old(self).chain_of(e)
            }),
            final(self).admin == old(self).admin,
            final(self).endpoint == old(self).endpoint,
            final(self).pathways@ == old(self).pathways@,
    {
        if caller != self.admin {
            return Err(ErrorCode::NotAuthorized);
        }
        self.chain_names.insert(src_eid, chain);
        Ok(())
    }

    /// Allow-lists the pathway `(src_eid, sender)`, attributing its
    /// deliveries to `bridge_source`, which must be a registered oracle
    /// source (administrator only). The pathway's nonce is kept.
    pub fn set_trusted_remote(&mut self, oracle: &PriceOracleContract, caller: u64, src_eid: u32, sender: [u8; 32], bridge_source: u64) -> (r: Result<(), ErrorCode>)
        ensures
            r == (if caller != old(self).admin || !oracle.sources@.contains(bridge_source) {
                Err::<(), ErrorCode>(ErrorCode::NotAuthorized)
            } else {
                Ok(())
            }),
            forall|e: u32, s: Seq<u8>| #[trigger] final(self).remote_of(e, s) == (if r.is_ok() && e == src_eid && s == sender@ {
                Some(bridge_source)
            } else {
                old(self).remote_of(e, s)
            }),
            forall|e: u32, s: Seq<u8>| #[trigger] final(self).nonce_of(e, s) == old(self).nonce_of(e, s),
            final(self).admin == old(self).admin,
            final(self).endpoint == old(self).endpoint,
            final(self).chain_names@ == old(self).chain_names@,
    {
        if caller != self.admin {
            return Err(ErrorCode::NotAuthorized);
        }
        if !oracle.is_source(bridge_source) {
            return Err(ErrorCode::NotAuthorized);
        }
        self.put_remote(src_eid, sender, Some(bridge_source));
        Ok(())
    }

    /// Withdraws the trust in pathway `(src_eid, sender)` (administrator
    /// only). The pathway's nonce is kept.
    pub fn remove_trusted_remote(&mut self, caller: u64, src_eid: u32, sender: [u8; 32]) -> (r: Result<(), ErrorCode>)
        ensures
            r == (if caller == old(self).admin { Ok(()) } else { Err::<(), ErrorCode>(ErrorCode::NotAuthorized) }),
            forall|e: u32, s: Seq<u8>| #[trigger] final(self).remote_of(e, s) == (if r.is_ok() && e == src_eid && s == sender@ {
                None
            } else {
                old(self).remote_of(e, s)
            }),
            forall|e: u32, s: Seq<u8>| #[trigger] final(self).nonce_of(e, s) == old(self).nonce_of(e, s),
            final(self).admin == old(self).admin,
            final(self).endpoint == old(self).endpoint,
            final(self).chain_names@ == old(self).chain_names@,
    {
        if caller != self.admin {
            return Err(ErrorCode::NotAuthorized);
        }
        self.put_remote(src_eid, sender, None);
        Ok(())
    }

    /// Sets the attribution of pathway `(src_eid, sender)`, keeping its nonce.
    fn put_remote(&mut self, src_eid: u32, sender: [u8; 32], bridge_source: Option<u64>)
        ensures
            forall|e: u32, s: Seq<u8>| #[trigger] final(self).remote_of(e, s) == (if e == src_eid && s == sender@ {
                bridge_source
            } else {
                old(self).remote_of(e, s)
            }),
            forall|e: u32, s: Seq<u8>| #[trigger] final(self).nonce_of(e, s) == old(self).nonce_of(e, s),
            final(self).admin == old(self).admin,
            final(self).endpoint == old(self).endpoint,
            final(self).chain_names@ == old(self).chain_names@,
    {
        let ghost s0 = self.pathways@;
        match self.find_pathway(src_eid, &sender) {
            Some(p) => {
                let old_rec = self.pathways[p];
                let rec = LzPathway { src_eid, sender, bridge_source, nonce: old_rec.nonce };
                self.pathways.set(p, rec);
                proof {
                    lemma_path_pos_range(s0, src_eid, sender@, 0);
                    assert forall|e: u32, s: Seq<u8>| #[trigger] path_pos(self.pathways@, e, s) == path_pos(s0, e, s) by {
                        lemma_path_pos_update(s0, p as int, rec, e, s, 0);
                    }
                    assert forall|e: u32, s: Seq<u8>| #[trigger] self.remote_of(e, s) == (if e == src_eid && s == sender@ {
                        bridge_source
                    } else {
                        old(self).remote_of(e, s)
                    }) by {
                        lemma_path_pos_range(s0, e, s, 0);
                    }
                    assert forall|e: u32, s: Seq<u8>| #[trigger] self.nonce_of(e, s) == old(self).nonce_of(e, s) by {
                        lemma_path_pos_range(s0, e, s, 0);
                    }
                }
            },
            None => {
                let rec = LzPathway { src_eid, sender, bridge_source, nonce: 0 };
                self.pathways.push(rec);
                proof {
                    assert forall|e: u32, s: Seq<u8>| #[trigger] self.remote_of(e, s) == (if e == src_eid && s == sender@ {
                        bridge_source
                    } else {
                        old(self).remote_of(e, s)
                    }) by {
                        lemma_path_pos_push(s0, rec, e, s, 0);
                        lemma_path_pos_range(s0, e, s, 0);
                    }
                    assert forall|e: u32, s: Seq<u8>| #[trigger] self.nonce_of(e, s) == old(self).nonce_of(e, s) by {
                        lemma_path_pos_push(s0, rec, e, s, 0);
                        lemma_path_pos_range(s0, e, s, 0);
                    }
                }
            },
        }
    }

    /// Last accepted nonce of pathway `(src_eid, sender)`, 0 before any.
    pub fn get_inbound_nonce(&self, src_eid: u32, sender: [u8; 32]) -> (r: u64)
        ensures
            r == self.nonce_of(src_eid, sender@),
    {
        match self.find_pathway(src_eid, &sender) {
            Some(p) => self.pathways[p].nonce,
            None => 0,
        }
    }

    /// The outcome of a delivery, in the order the checks are made.
    pub open spec fn receive_check(&self, paused: bool, endpoint: u64, src_eid: u32, sender: Seq<u8>, nonce: u64) -> Result<(u64, Seq<char>), ErrorCode> {
        if paused {
            Err(ErrorCode::ContractPaused)
        } else if self.endpoint.is_none() {
            Err(ErrorCode::LzEndpointNotConfigured)
        } else if endpoint != self.endpoint.unwrap() {
            Err(ErrorCode::NotAuthorized)
        } else if self.nonce_of(src_eid, sender) == u64::MAX {
            Err(ErrorCode::ArithmeticOverflow)
        } else if nonce != self.nonce_of(src_eid, sender) + 1 {
            Err(ErrorCode::LzNonceOutOfOrder)
        } else if self.remote_of(src_eid, sender).is_none() {
            Err(ErrorCode::LzRemoteNotTrusted)
        } else if self.chain_of(src_eid).is_none() {
            Err(ErrorCode::LzChainNameNotConfigured)
        } else {
            Ok((self.remote_of(src_eid, sender).unwrap(), self.chain_of(src_eid).unwrap()))
        }
    }

    /// Accepts a delivery from `endpoint` on pathway `(src_eid, sender)`
    /// with `nonce`: the oracle must not be paused, `endpoint` must be the
    /// configured one, `nonce` must be the pathway's last nonce plus one,
    /// and the pathway must be trusted and its chain named. On success the
    /// nonce is recorded and the attributed source and the chain name are
    /// returned, for the message to be decoded and applied by the bridge.
    pub fn lz_receive(&mut self, oracle: &PriceOracleContract, endpoint: u64, src_eid: u32, sender: [u8; 32], nonce: u64) -> (r: Result<(u64, String), ErrorCode>)
        ensures
            match r {
                Ok((src, chain)) => old(self).receive_check(oracle.config.paused, endpoint, src_eid, sender@, nonce) == Ok::<(u64, Seq<char>), ErrorCode>((src, chain@)),
                Err(e) => old(self).receive_check(oracle.config.paused, endpoint, src_eid, sender@, nonce) == Err::<(u64, Seq<char>), ErrorCode>(e),
            },
            forall|e: u32, s: Seq<u8>| #[trigger] final(self).nonce_of(e, s) == (if r.is_ok() && e == src_eid && s == sender@ {
                nonce
            } else {
                old(self).nonce_of(e, s)
            }),
            forall|e: u32, s: Seq<u8>| #[trigger] final(self).remote_of(e, s) == old(self).remote_of(e, s),
            final(self).admin == old(self).admin,
            final(self).endpoint == old(self).endpoint,
            final(self).chain_names@ == old(self).chain_names@,
    {
        if oracle.config.paused {
            return Err(ErrorCode::ContractPaused);
        }
        let configured = match self.endpoint {
            Some(e) => e,
            None => {
                return Err(ErrorCode::LzEndpointNotConfigured);
            },
        };
        if endpoint != configured {
            return Err(ErrorCode::NotAuthorized);
        }
        let pos = self.find_pathway(src_eid, &sender);
        let (last, remote) = match pos {
            Some(p) => (self.pathways[p].nonce, self.pathways[p].bridge_source),
            None => (0u64, None),
        };
        if last == u64::MAX {
            return Err(ErrorCode::ArithmeticOverflow);
        }
        if nonce != last + 1 {
            return Err(ErrorCode::LzNonceOutOfOrder);
        }
        let source = match remote {
            Some(s) => s,
            None => {
                return Err(ErrorCode::LzRemoteNotTrusted);
            },
        };
        let chain = match self.chain_names.get(&src_eid) {
            Some(c) => c.clone(),
            None => {
                return Err(ErrorCode::LzChainNameNotConfigured);
            },
        };
        let p = pos.unwrap();
        let ghost s0 = self.pathways@;
        let rec = LzPathway { src_eid, sender, bridge_source: remote, nonce };
        self.pathways.set(p, rec);
        proof {
            lemma_path_pos_range(s0, src_eid, sender@, 0);
            assert forall|e: u32, s: Seq<u8>| #[trigger] path_pos(self.pathways@, e, s) == path_pos(s0, e, s) by {
                lemma_path_pos_update(s0, p as int, rec, e, s, 0);
            }
            assert forall|e: u32, s: Seq<u8>| #[trigger] self.remote_of(e, s) == old(self).remote_of(e, s) by {
                lemma_path_pos_range(s0, e, s, 0);
            }
            assert forall|e: u32, s: Seq<u8>| #[trigger] self.nonce_of(e, s) == (if e == src_eid && s == sender@ {
                nonce
            } else {
                old(self).nonce_of(e, s)
            }) by {
                lemma_path_pos_range(s0, e, s, 0);
            }
        }
        Ok((source, chain))
    }
}

} // verus!
