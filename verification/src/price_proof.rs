//! Submissions that carry an external proof: the proof's format is checked
//! (byte lengths and signer counts; its cryptography is left to off-chain
//! consumers), an asset may require one kind of proof, and an accepted
//! proof is kept per (asset, source) before the price goes through the
//! ordinary submission.

use vstd::prelude::*;
use std::collections::HashMap;
use crate::oracle::{pair_key, pair_key_spec, PriceOracleContract};
use crate::types::{AggregatePrice, ErrorCode, LedgerInfo};

verus! {

broadcast use vstd::std_specs::hash::group_hash_axioms;

/// Smallest payload hash of a proof, in bytes.
pub const MIN_PAYLOAD_HASH_LEN: usize = 32;
/// Smallest signature of an exchange-signed response, in bytes.
pub const CEX_MIN_SIG_LEN: usize = 16;
/// Fewest signers of a multi-signature attestation.
pub const MULTISIG_MIN_SIGNERS: u32 = 2;
/// Most signers of a multi-signature attestation.
pub const MULTISIG_MAX_SIGNERS: u32 = 20;

/// Kind of evidence behind a submitted price.
#[derive(Clone, Copy, Debug, PartialEq, Eq, Structural)]
pub enum ProofType {
    CexSignedResponse,
    DexTrade,
    MultiSigAttestation,
}

/// Kind of proof an asset's submissions must carry.
#[derive(Clone, Copy, Debug, PartialEq, Eq, Structural)]
pub enum AssetProofRequirement {
    AnyOrNone,
    RequireCex,
    RequireDex,
    RequireMultiSig,
}

/// Evidence attached to a submission.
pub struct PriceProof {
    pub proof_type: ProofType,
    pub payload_hash: Vec<u8>,
    /// The signature, or for a trade the pool's identification bytes.
    pub signature: Vec<u8>,
    pub signer_count: u32,
}

/// Whether a proof is well formed: an exchange response has a payload hash
/// of at least 32 bytes and a signature of at least 16; a trade a hash of
/// at least 32 bytes and a non-empty pool id; an attestation 2 to 20 signers
/// and a hash of at least 32 bytes.
pub open spec fn format_ok(t: ProofType, hash_len: nat, sig_len: nat, signer_count: u32) -> bool {
    match t {
        ProofType::CexSignedResponse => hash_len >= MIN_PAYLOAD_HASH_LEN && sig_len >= CEX_MIN_SIG_LEN,
        ProofType::DexTrade => hash_len >= MIN_PAYLOAD_HASH_LEN && sig_len > 0,
        ProofType::MultiSigAttestation => MULTISIG_MIN_SIGNERS <= signer_count <= MULTISIG_MAX_SIGNERS
            && hash_len >= MIN_PAYLOAD_HASH_LEN,
    }
}

/// Whether proof kind `t` satisfies requirement `req`.
pub open spec fn requirement_met(req: AssetProofRequirement, t: ProofType) -> bool {
    match req {
        AssetProofRequirement::AnyOrNone => true,
        AssetProofRequirement::RequireCex => t == ProofType::CexSignedResponse,
        AssetProofRequirement::RequireDex => t == ProofType::DexTrade,
        AssetProofRequirement::RequireMultiSig => t == ProofType::MultiSigAttestation,
    }
}

/// Checks the format of a proof.
pub fn validate_proof(proof: &PriceProof) -> (r: Result<(), ErrorCode>)
    ensures
        r == (if format_ok(proof.proof_type, proof.payload_hash@.len(), proof.signature@.len(), proof.signer_count) {
            Ok(())
        } else {
            Err::<(), ErrorCode>(ErrorCode::InvalidProof)
        }),
{
    let hash_len = proof.payload_hash.len();
    let sig_len = proof.signature.len();
    let ok = match proof.proof_type {
        ProofType::CexSignedResponse => hash_len >= MIN_PAYLOAD_HASH_LEN && sig_len >= CEX_MIN_SIG_LEN,
        ProofType::DexTrade => hash_len >= MIN_PAYLOAD_HASH_LEN && sig_len > 0,
        ProofType::MultiSigAttestation => MULTISIG_MIN_SIGNERS <= proof.signer_count
            && proof.signer_count <= MULTISIG_MAX_SIGNERS && hash_len >= MIN_PAYLOAD_HASH_LEN,
    };
    if ok { Ok(()) } else { Err(ErrorCode::InvalidProof) }
}

/// Nonce of a proof-carrying submission: one past the previous one
/// (saturating), but at least the ledger sequence.
pub open spec fn proof_nonce_spec(last: u64, ledger: u32) -> u64 {
    let next: int = if last == u64::MAX { u64::MAX as int } else { last + 1 };
    if next >= ledger { next as u64 } else { ledger as u64 }
}

/// `after` is `before` once `submit_price` with these arguments returned `r`.
pub open spec fn submitted(before: &PriceOracleContract, after: &PriceOracleContract, source: u64, asset: u64, price: i128, timestamp: u64, nonce: u64, now: LedgerInfo, r: Result<Option<AggregatePrice>, ErrorCode>) -> bool {
    &&& after.wf()
    &&& (r is Err <==> before.submit_check(source, asset, price, timestamp, nonce, now) is Err)
    &&& (r matches Err(e) ==> before.submit_check(source, asset, price, timestamp, nonce, now) == Err::<(), ErrorCode>(e)
        && after.config == before.config && after.same_data(before))
    &&& (r matches Ok(agg) ==> {
        let entry = crate::submission::submitted_entry(price, timestamp, source, before.config.decimals, now.sequence, now.timestamp, None);
        let subs = before.submissions@.insert(pair_key_spec(asset, source), entry);
        &&& after.submissions@ == subs
        &&& after.nonces@ == before.nonces@.insert(source, nonce)
        &&& after.total_submissions == crate::aggregation::inc_sat(before.total_submissions)
        &&& after.source_submission_counts@ == before.source_submission_counts@.insert(source,
            crate::aggregation::inc_sat(before.submission_count(source)))
        &&& before.guarded_outcome(subs, after, asset, now.sequence, agg)
        &&& after.same_settings(before)
        &&& after.last_submission@ == before.last_submission@
    })
}

/// Proof requirements and the accepted proofs.
pub struct ProofRegistry {
    pub requirements: HashMap<u64, AssetProofRequirement>,
    /// Latest accepted proof per `pair_key(asset, source)`, by its parts.
    pub proofs: HashMap<u128, (ProofType, Vec<u8>, Vec<u8>, u32)>,
    /// Latest proof-carrying submission nonce per `pair_key(asset, source)`.
    pub nonces: HashMap<u128, u64>,
}

impl ProofRegistry {
    /// The requirement of `asset` (none when unset).
    pub open spec fn requirement_of(&self, asset: u64) -> AssetProofRequirement {
        if self.requirements@.contains_key(asset) { self.requirements@[asset] } else { AssetProofRequirement::AnyOrNone }
    }

    /// Nonce of the latest proof-carrying submission of `source` for `asset`.
    pub open spec fn nonce_of(&self, asset: u64, source: u64) -> u64 {
        let k = pair_key_spec(asset, source);
        if self.nonces@.contains_key(k) { self.nonces@[k] } else { 0 }
    }

    /// The latest accepted proof of `source` for `asset`, by its parts.
    pub open spec fn proof_of(&self, asset: u64, source: u64) -> Option<(ProofType, Seq<u8>, Seq<u8>, u32)> {
        let k = pair_key_spec(asset, source);
        if self.proofs@.contains_key(k) {
            let p = self.proofs@[k];
            Some((p.0, p.1@, p.2@, p.3))
        } else {
            None
        }
    }

    /// No requirement and no proof.
    pub fn new() -> (r: ProofRegistry)
        ensures
            forall|a: u64| #[trigger] r.requirement_of(a) == AssetProofRequirement::AnyOrNone,
            forall|a: u64, s: u64| #[trigger] r.proof_of(a, s).is_none(),
            forall|a: u64, s: u64| #[trigger] r.nonce_of(a, s) == 0,
    {
        ProofRegistry { requirements: HashMap::new(), proofs: HashMap::new(), nonces: HashMap::new() }
    }

    /// The proof requirement of `asset`.
    pub fn get_asset_proof_requirement(&self, asset: u64) -> (r: AssetProofRequirement)
        ensures
            r == self.requirement_of(asset),
    {
        match self.requirements.get(&asset) {
            Some(q) => *q,
            None => AssetProofRequirement::AnyOrNone,
        }
    }

    /// Sets the proof requirement of the registered `asset` (administrator only).
    pub fn set_asset_proof_requirement(&mut self, oracle: &PriceOracleContract, caller: u64, asset: u64, requirement: AssetProofRequirement) -> (r: Result<(), ErrorCode>)
        ensures
            r == (if caller != oracle.config.admin {
                Err(ErrorCode::NotAuthorized)
            } else if !oracle.assets@.contains(asset) {
                Err(ErrorCode::AssetNotRegistered)
            } else {
                Ok(())
            }),
            final(self).requirements@ == (if r.is_ok() { old(self).requirements@.insert(asset, requirement) } else { old(self).requirements@ }),
            final(self).proofs@ == old(self).proofs@,
            final(self).nonces@ == old(self).nonces@,
    {
        if caller != oracle.config.admin {
            return Err(ErrorCode::NotAuthorized);
        }
        if !oracle.is_asset_registered(asset) {
            return Err(ErrorCode::AssetNotRegistered);
        }
        self.requirements.insert(asset, requirement);
        Ok(())
    }

    /// The latest accepted proof of `source` for `asset`.
    pub fn get_submission_proof(&self, asset: u64, source: u64) -> (r: Option<PriceProof>)
        ensures
            match r {
                Some(p) => self.proof_of(asset, source) == Some((p.proof_type, p.payload_hash@, p.signature@, p.signer_count)),
                None => self.proof_of(asset, source).is_none(),
            },
    {
        match self.proofs.get(&pair_key(asset, source)) {
            Some(p) => Some(PriceProof { proof_type: p.0, payload_hash: p.1.clone(), signature: p.2.clone(), signer_count: p.3 }),
            None => None,
        }
    }

    /// The outcome of the proof checks of a submission.
    pub open spec fn proof_check(&self, asset: u64, proof: &PriceProof) -> Result<(), ErrorCode> {
        if !format_ok(proof.proof_type, proof.payload_hash@.len(), proof.signature@.len(), proof.signer_count) {
            Err(ErrorCode::InvalidProof)
        } else if !requirement_met(self.requirement_of(asset), proof.proof_type) {
            Err(ErrorCode::ProofTypeMismatch)
        } else {
            Ok(())
        }
    }

    /// Submits `price` with `proof`: the proof must be well formed and of the
    /// kind `asset` requires; the price then goes through `submit_price` with
    /// the next proof nonce of the pair. When that succeeds the proof and the
    /// nonce are kept.
    pub fn submit_price_with_external_proof(&mut self, oracle: &mut PriceOracleContract, source: u64, asset: u64, price: i128, timestamp: u64, proof: PriceProof, now: LedgerInfo) -> (r: Result<Option<AggregatePrice>, ErrorCode>)
        requires
            old(oracle).wf(),
            old(oracle).sources@.len() <= u32::MAX,
        ensures
            final(oracle).wf(),
            old(self).proof_check(asset, &proof) matches Err(e) ==> r == Err::<Option<AggregatePrice>, ErrorCode>(e)
                && *final(oracle) == *old(oracle),
            old(self).proof_check(asset, &proof) is Ok ==> submitted(old(oracle), final(oracle), source, asset, price, timestamp,
                proof_nonce_spec(old(self).nonce_of(asset, source), now.sequence), now, r),
            r.is_ok() ==> final(self).proofs@ == old(self).proofs@.insert(pair_key_spec(asset, source),
                (proof.proof_type, proof.payload_hash, proof.signature, proof.signer_count)),
            r.is_ok() ==> final(self).nonces@ == old(self).nonces@.insert(pair_key_spec(asset, source),
                proof_nonce_spec(old(self).nonce_of(asset, source), now.sequence)),
            r.is_err() ==> final(self).proofs@ == old(self).proofs@ && final(self).nonces@ == old(self).nonces@,
            final(self).requirements@ == old(self).requirements@,
    {
        match validate_proof(&proof) {
            Err(e) => {
                return Err(e);
            },
            Ok(()) => {},
        }
        let req = self.get_asset_proof_requirement(asset);
        let met = match req {
            AssetProofRequirement::AnyOrNone => true,
            AssetProofRequirement::RequireCex => proof.proof_type == ProofType::CexSignedResponse,
            AssetProofRequirement::RequireDex => proof.proof_type == ProofType::DexTrade,
            AssetProofRequirement::RequireMultiSig => proof.proof_type == ProofType::MultiSigAttestation,
        };
        if !met {
            return Err(ErrorCode::ProofTypeMismatch);
        }
        let k = pair_key(asset, source);
        let last: u64 = match self.nonces.get(&k) {
            Some(n) => *n,
            None => 0,
        };
        let next: u64 = if last == u64::MAX { u64::MAX } else { last + 1 };
        let nonce: u64 = if next >= now.sequence as u64 { next } else { now.sequence as u64 };
        let r = oracle.submit_price(source, asset, price, timestamp, nonce, now);
        if r.is_ok() {
            self.proofs.insert(k, (proof.proof_type, proof.payload_hash, proof.signature, proof.signer_count));
            self.nonces.insert(k, nonce);
        }
        r
    }
}

} // verus!
