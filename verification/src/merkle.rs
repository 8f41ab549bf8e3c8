//! Batch submission under a Merkle root: every leaf (a source's price for
//! an asset) comes with its path to the root; all paths and leaves are
//! checked before anything is stored, then all prices are stored and each
//! asset concerned is aggregated once.
//!
//! Hashing: `leaf = sha256(price_le16 || timestamp_le8)`,
//! `parent = sha256(left || right)`.

use vstd::prelude::*;
use crate::crypto::{i128_le_bytes, sha256, sha256_digest, u64_le_bytes};
use crate::commit_reveal::{digests_equal, push_i128_le};
use crate::oracle::{pair_key, pair_key_spec, PriceOracleContract};
use crate::types::{AggregatePrice, ErrorCode, LedgerInfo, PriceEntry};

verus! {

broadcast use vstd::std_specs::hash::group_hash_axioms;

/// One source's price for one asset.
#[derive(Clone, Copy, Debug, PartialEq, Eq, Structural)]
pub struct MerkleLeaf {
    pub source: u64,
    pub asset: u64,
    pub price: i128,
    pub timestamp: u64,
}

/// A leaf and its path to the root.
pub struct MerkleProof {
    pub leaf: MerkleLeaf,
    /// Sibling hashes from the leaf level up.
    pub siblings: Vec<[u8; 32]>,
    /// Bit `i` is 1 where the sibling at level `i` is on the left.
    pub left_bitmap: u32,
}

/// Digest of a leaf.
pub open spec fn leaf_digest(leaf: MerkleLeaf) -> Seq<u8> {
    sha256_digest(i128_le_bytes(leaf.price) + u64_le_bytes(leaf.timestamp))
}

/// Whether the sibling at level `i` is on the left.
pub open spec fn sibling_left(bits: u32, i: int) -> bool {
    (bits >> (i as u32)) & 1u32 == 1u32
}

/// The node reached after the first `n` levels.
pub open spec fn climb(node: Seq<u8>, siblings: Seq<[u8; 32]>, bits: u32, n: nat) -> Seq<u8>
    decreases n,
{
    if n == 0 {
        node
    } else {
        let cur = climb(node, siblings, bits, (n - 1) as nat);
        if sibling_left(bits, n - 1) {
            sha256_digest(siblings[n - 1]@ + cur)
        } else {
            sha256_digest(cur + siblings[n - 1]@)
        }
    }
}

/// Whether `p` leads to `root`.
pub open spec fn proof_valid(root: Seq<u8>, p: MerkleProof) -> bool {
    climb(leaf_digest(p.leaf), p.siblings@, p.left_bitmap, p.siblings@.len()) == root
}

/// Submissions after the leaves of `ps` are stored in order.
pub open spec fn merkle_subs(subs: Map<u128, PriceEntry>, ps: Seq<MerkleProof>, decimals: u32, now: LedgerInfo) -> Map<u128, PriceEntry>
    decreases ps.len(),
{
    if ps.len() == 0 {
        subs
    } else {
        let l = ps.last().leaf;
        merkle_subs(subs, ps.drop_last(), decimals, now).insert(pair_key_spec(l.asset, l.source), PriceEntry {
            price: l.price,
            timestamp: l.timestamp,
            source: l.source,
            decimals,
            last_updated: now.sequence,
            ledger_timestamp: now.timestamp,
            volume: None,
        })
    }
}

/// The assets of the leaves of `ps`, each once, in order of first occurrence.
pub open spec fn distinct_assets(ps: Seq<MerkleProof>) -> Seq<u64>
    decreases ps.len(),
{
    if ps.len() == 0 {
        Seq::empty()
    } else {
        let rest = distinct_assets(ps.drop_last());
        if rest.contains(ps.last().leaf.asset) { rest } else { rest.push(ps.last().leaf.asset) }
    }
}

/// `after` is `before` once `aggregate_asset(asset, ledger)` returned `r`.
pub open spec fn asset_aggregated(before: PriceOracleContract, after: PriceOracleContract, asset: u64, ledger: u32, r: Option<AggregatePrice>) -> bool {
    &&& after.wf()
    &&& after.non_compliant@ == crate::aggregation::flag_all(before.non_compliant@, asset, before.aggregation_overdue(asset, ledger))
    &&& (r is Some <==> before.enough(before.aggregation_entries(asset, ledger)))
    &&& (r matches Some(agg) ==> {
        &&& agg == before.aggregate_of(asset, before.aggregation_entries(asset, ledger))
        &&& after.aggregates@ == before.aggregates@.insert(asset, agg)
        &&& after.history(asset) == before.history_after(asset, agg, ledger)
    })
    &&& (r is None ==> after.aggregates@ == before.aggregates@ && after.histories@ == before.histories@
        && after.compaction_meta@ == before.compaction_meta@)
    &&& (forall|a: u64| a != asset ==> after.histories@.contains_key(a) == before.histories@.contains_key(a)
        && (before.histories@.contains_key(a) ==> after.histories@[a] == before.histories@[a]))
    &&& after.config == before.config
    &&& after.sources@ == before.sources@
    &&& after.assets@ == before.assets@
    &&& after.submissions@ == before.submissions@
    &&& after.last_submission@ == before.last_submission@
    &&& after.overrides@ == before.overrides@
    &&& after.asset_min_interval@ == before.asset_min_interval@
    &&& after.asset_resolution@ == before.asset_resolution@
    &&& after.price_bounds@ == before.price_bounds@
    &&& after.tripped@ == before.tripped@
    &&& after.paused_assets@ == before.paused_assets@
    &&& after.last_trigger@ == before.last_trigger@
    &&& after.nonces@ == before.nonces@
    &&& after.source_submission_counts@ == before.source_submission_counts@
    &&& after.total_submissions == before.total_submissions
    &&& after.commits@ == before.commits@
    &&& after.description@ == before.description@
}

/// Each state of `states` is the previous one after the aggregation of the
/// next asset of `assets` at `ledger`, with outcome in `rs`.
pub open spec fn merkle_chain(states: Seq<PriceOracleContract>, rs: Seq<Option<AggregatePrice>>, assets: Seq<u64>, ledger: u32) -> bool {
    &&& states.len() == assets.len() + 1
    &&& rs.len() == assets.len()
    &&& forall|i: int| 0 <= i < assets.len() ==> #[trigger] asset_aggregated(states[i], states[i + 1], assets[i], ledger, rs[i])
}

impl PriceOracleContract {
    /// Outcome of the checks on one proof.
    pub open spec fn merkle_item_check(&self, root: Seq<u8>, p: MerkleProof, now: LedgerInfo) -> Result<(), ErrorCode> {
        if !proof_valid(root, p) {
            Err(ErrorCode::InvalidConfiguration)
        } else if !self.is_asset_spec(p.leaf.asset) {
            Err(ErrorCode::AssetNotRegistered)
        } else if p.leaf.price <= 0 {
            Err(ErrorCode::InvalidPrice)
        } else if p.leaf.timestamp > now.timestamp + self.config.timestamp_threshold {
            Err(ErrorCode::InvalidTimestamp)
        } else {
            Ok(())
        }
    }

    /// Outcome of the checks on the proofs: the first failure.
    pub open spec fn merkle_items_check(&self, root: Seq<u8>, ps: Seq<MerkleProof>, now: LedgerInfo) -> Result<(), ErrorCode>
        decreases ps.len(),
    {
        if ps.len() == 0 {
            Ok(())
        } else {
            let pre = self.merkle_items_check(root, ps.drop_last(), now);
            if pre is Err { pre } else { self.merkle_item_check(root, ps.last(), now) }
        }
    }

    /// Outcome of the checks on a Merkle batch.
    pub open spec fn merkle_check(&self, source: u64, root: Seq<u8>, ps: Seq<MerkleProof>, now: LedgerInfo) -> Result<(), ErrorCode> {
        if self.config.paused {
            Err(ErrorCode::ContractPaused)
        } else if !self.is_source_spec(source) {
            Err(ErrorCode::NotAuthorized)
        } else {
            self.merkle_items_check(root, ps, now)
        }
    }

    /// `stored` is `self` with only the submissions replaced by `subs`.
    pub open spec fn with_submissions(&self, stored: &PriceOracleContract, subs: Map<u128, PriceEntry>) -> bool {
        &&& stored.submissions@ == subs
        &&& stored.config == self.config
        &&& stored.same_settings(self)
        &&& stored.last_submission@ == self.last_submission@
        &&& stored.non_compliant@ == self.non_compliant@
        &&& stored.aggregates@ == self.aggregates@
        &&& stored.histories@ == self.histories@
        &&& stored.nonces@ == self.nonces@
        &&& stored.source_submission_counts@ == self.source_submission_counts@
        &&& stored.total_submissions == self.total_submissions
        &&& stored.compaction_meta@ == self.compaction_meta@
    }
}

/// The root the proof `p` leads to.
pub fn proof_root(p: &MerkleProof) -> (r: [u8; 32])
    requires
        p.siblings@.len() <= 32,
    ensures
        r@ == climb(leaf_digest(p.leaf), p.siblings@, p.left_bitmap, p.siblings@.len()),
{
    let mut data: Vec<u8> = Vec::new();
    push_i128_le(&mut data, p.leaf.price);
    crate::crypto::push_le(&mut data, p.leaf.timestamp as u128, 8);
    proof {
        assert(Seq::new(8, |i: int| ((p.leaf.timestamp as u128 as int / crate::crypto::pow256(i)) % 256) as u8)
            =~= u64_le_bytes(p.leaf.timestamp));
    }
    let mut current = sha256(data.as_slice());
    let n = p.siblings.len();
    let mut i: usize = 0;
    while i < n
        invariant
            n == p.siblings@.len() <= 32,
            0 <= i <= n,
            current@ == climb(leaf_digest(p.leaf), p.siblings@, p.left_bitmap, i as nat),
        decreases n - i,
    {
        let sibling = p.siblings[i];
        let bit = (p.left_bitmap >> (i as u32)) & 1u32;
        let mut buf: Vec<u8> = Vec::new();
        if bit == 1 {
            push_array(&mut buf, &sibling);
            push_array(&mut buf, &current);
        } else {
            push_array(&mut buf, &current);
            push_array(&mut buf, &sibling);
        }
        current = sha256(buf.as_slice());
        i = i + 1;
    }
    current
}

/// Appends the 32 bytes of `src`.
fn push_array(out: &mut Vec<u8>, src: &[u8; 32])
    ensures
        final(out)@ == old(out)@ + src@,
{
    let ghost start = old(out)@;
    let mut i: usize = 0;
    while i < 32
        invariant
            0 <= i <= 32,
            src@.len() == 32,
            out@ == start + src@.subrange(0, i as int),
        decreases 32 - i,
    {
        out.push(src[i]);
        i = i + 1;
        assert(out@ =~= start + src@.subrange(0, i as int));
    }
    assert(src@.subrange(0, 32) =~= src@);
}

pub proof fn lemma_merkle_first_error(c: &PriceOracleContract, root: Seq<u8>, ps: Seq<MerkleProof>, i: int, now: LedgerInfo)
    requires
        0 < i <= ps.len(),
        c.merkle_items_check(root, ps.subrange(0, i), now) is Err,
    ensures
        c.merkle_items_check(root, ps, now) == c.merkle_items_check(root, ps.subrange(0, i), now),
    decreases ps.len() - i,
{
    if i < ps.len() {
        assert(ps.subrange(0, i + 1).drop_last() =~= ps.subrange(0, i));
        lemma_merkle_first_error(c, root, ps, i + 1, now);
    } else {
        assert(ps.subrange(0, i) =~= ps);
    }
}

impl PriceOracleContract {
    /// Submits a batch of prices proven under `root` (see the module
    /// documentation). `source` signs the batch and must be registered.
    /// Every proof must lead to `root`, and its leaf name a registered
    /// asset, a positive price and a timestamp not too far ahead; one
    /// failure refuses the whole batch, leaving the state unchanged.
    pub fn submit_price_merkle(&mut self, source: u64, root: [u8; 32], proofs: &Vec<MerkleProof>, now: LedgerInfo) -> (r: Result<(), ErrorCode>)
        requires
            old(self).wf(),
            old(self).sources@.len() <= u32::MAX,
            forall|i: int| 0 <= i < proofs@.len() ==> #[trigger] proofs@[i].siblings@.len() <= 32,
        ensures
            final(self).wf(),
            r == old(self).merkle_check(source, root@, proofs@, now),
            r is Err ==> final(self).config == old(self).config && final(self).same_data(old(self)),
            r is Ok ==> exists|states: Seq<PriceOracleContract>, rs: Seq<Option<AggregatePrice>>| {
                &&& #[trigger] merkle_chain(states, rs, distinct_assets(proofs@), now.sequence)
                &&& old(self).with_submissions(&states[0], merkle_subs(old(self).submissions@, proofs@, old(self).config.decimals, now))
                &&& states.last() == *final(self)
            },
    {
        if self.config.paused {
            return Err(ErrorCode::ContractPaused);
        }
        if !self.is_source(source) {
            return Err(ErrorCode::NotAuthorized);
        }
        let n = proofs.len();
        let mut i: usize = 0;
        while i < n
            invariant
                n == proofs@.len(),
                0 <= i <= n,
                *self == *old(self),
                old(self).wf(),
                !old(self).config.paused,
                old(self).is_source_spec(source),
                forall|k: int| 0 <= k < proofs@.len() ==> #[trigger] proofs@[k].siblings@.len() <= 32,
                self.merkle_items_check(root@, proofs@.subrange(0, i as int), now) is Ok,
            decreases n - i,
        {
            proof {
                assert(proofs@.subrange(0, i + 1).drop_last() =~= proofs@.subrange(0, i as int));
                assert(proofs@.subrange(0, i + 1).last() == proofs@[i as int]);
            }
            let p = &proofs[i];
            let got = proof_root(p);
            let mut res: Result<(), ErrorCode> = Ok(());
            if !digests_equal(&got, &root) {
                res = Err(ErrorCode::InvalidConfiguration);
            } else if !self.is_asset_registered(p.leaf.asset) {
                res = Err(ErrorCode::AssetNotRegistered);
            } else if p.leaf.price <= 0 {
                res = Err(ErrorCode::InvalidPrice);
            } else if p.leaf.timestamp > now.timestamp.saturating_add(self.config.timestamp_threshold) {
                res = Err(ErrorCode::InvalidTimestamp);
            }
            assert(res == self.merkle_item_check(root@, proofs@[i as int], now));
            if res.is_err() {
                proof {
                    lemma_merkle_first_error(self, root@, proofs@, (i + 1) as int, now);
                }
                return res;
            }
            i = i + 1;
        }
        proof {
            assert(proofs@.subrange(0, n as int) =~= proofs@);
        }
        let ghost start = *self;
        let mut j: usize = 0;
        while j < n
            invariant
                n == proofs@.len(),
                0 <= j <= n,
                self.wf(),
                start.wf(),
                start == *old(self),
                start.sources@.len() <= u32::MAX,
                start.with_submissions(self, merkle_subs(start.submissions@, proofs@.subrange(0, j as int), start.config.decimals, now)),
            decreases n - j,
        {
            proof {
                assert(proofs@.subrange(0, j + 1).drop_last() =~= proofs@.subrange(0, j as int));
                assert(proofs@.subrange(0, j + 1).last() == proofs@[j as int]);
            }
            let leaf = proofs[j].leaf;
            let entry = PriceEntry {
                price: leaf.price,
                timestamp: leaf.timestamp,
                source: leaf.source,
                decimals: self.config.decimals,
                last_updated: now.sequence,
                ledger_timestamp: now.timestamp,
                volume: None,
            };
            self.submissions.insert(pair_key(leaf.asset, leaf.source), entry);
            j = j + 1;
        }
        proof {
            assert(proofs@.subrange(0, n as int) =~= proofs@);
        }
        let mut assets: Vec<u64> = Vec::new();
        let mut k: usize = 0;
        while k < n
            invariant
                n == proofs@.len(),
                0 <= k <= n,
                assets@ == distinct_assets(proofs@.subrange(0, k as int)),
            decreases n - k,
        {
            proof {
                assert(proofs@.subrange(0, k + 1).drop_last() =~= proofs@.subrange(0, k as int));
                assert(proofs@.subrange(0, k + 1).last() == proofs@[k as int]);
            }
            let a = proofs[k].leaf.asset;
            let mut seen = false;
            let mut q: usize = 0;
            while q < assets.len()
                invariant
                    0 <= q <= assets@.len(),
                    seen <==> exists|t: int| 0 <= t < q && assets@[t] == a,
                decreases assets@.len() - q,
            {
                if assets[q] == a {
                    seen = true;
                }
                q = q + 1;
            }
            if !seen {
                assets.push(a);
            }
            k = k + 1;
        }
        proof {
            assert(proofs@.subrange(0, n as int) =~= proofs@);
        }
        let ghost all = assets@;
        let ghost stored = *self;
        let ghost mut states: Seq<PriceOracleContract> = seq![*self];
        let ghost mut rs: Seq<Option<AggregatePrice>> = Seq::empty();
        let m = assets.len();
        let mut t: usize = 0;
        while t < m
            invariant
                m == assets@.len(),
                all == assets@,
                0 <= t <= m,
                self.wf(),
                self.sources@.len() <= u32::MAX,
                states.len() == t + 1,
                rs.len() == t,
                states.last() == *self,
                states[0] == stored,
                old(self).with_submissions(&stored, merkle_subs(old(self).submissions@, proofs@, old(self).config.decimals, now)),
                all == distinct_assets(proofs@),
                forall|x: int| 0 <= x < t ==> #[trigger] asset_aggregated(states[x], states[x + 1], all[x], now.sequence, rs[x]),
            decreases m - t,
        {
            let ghost before = *self;
            let agg = self.aggregate_asset(assets[t], now.sequence);
            proof {
                assert(asset_aggregated(before, *self, all[t as int], now.sequence, agg));
                let s0 = states;
                states = states.push(*self);
                rs = rs.push(agg);
                assert forall|x: int| 0 <= x < t + 1 implies #[trigger] asset_aggregated(states[x], states[x + 1], all[x], now.sequence, rs[x]) by {
                    if x < t {
                        assert(states[x] == s0[x]);
                        assert(states[x + 1] == s0[x + 1]);
                    } else {
                        assert(states[x] == s0.last());
                    }
                }
            }
            t = t + 1;
        }
        proof {
            assert(merkle_chain(states, rs, distinct_assets(proofs@), now.sequence));
        }
        Ok(())
    }
}

} // verus!
