//! Prices of Cosmos/IBC assets, verified through a light client: the
//! administrator configures the counterparty chain, consensus states are
//! accepted once validators holding the trusted share of voting power have
//! signed their header, and a price packet is stored once a Merkle proof
//! ties it to the application hash of a trusted consensus state.
//!
//! Merkle hashing: `leaf = sha256(0x00 || data)`,
//! `parent = sha256(0x01 || left || right)`.

use vstd::prelude::*;
use std::collections::HashMap;
use crate::arith::{clamp_i128, div_trunc, sat_mul};
use crate::crypto::{ed25519_valid, ed25519_verify, lemma_pow256_pos, pow256, push_le, sha256, sha256_digest};
use crate::commit_reveal::digests_equal;
use crate::types::ErrorCode;

verus! {

broadcast use vstd::std_specs::hash::group_hash_axioms;

/// Configuration of the light client of the counterparty chain.
pub struct IbcClientState {
    pub chain_id: String,
    /// Share of the total voting power, in percent, that must sign a header.
    pub trust_threshold_pct: u32,
    /// How long, in seconds, a consensus state stays trusted.
    pub trusting_period: u64,
    /// Highest revision height of an accepted consensus state.
    pub latest_height: u64,
    /// Voting power of the chain's whole validator set; the signed power
    /// of a header is measured against it.
    pub total_voting_power: u64,
}

/// A header of the counterparty chain.
#[derive(Clone, Copy, Debug)]
pub struct IbcConsensusState {
    pub revision_number: u64,
    pub revision_height: u64,
    pub app_hash: [u8; 32],
    pub next_validators_hash: [u8; 32],
    pub timestamp: u64,
}

/// A validator of the counterparty chain.
#[derive(Clone, Copy, Debug)]
pub struct TendermintValidator {
    pub pubkey: [u8; 32],
    pub voting_power: u64,
}

/// A price committed on the counterparty chain.
pub struct IbcPricePacket {
    pub denom: String,
    pub price: i128,
    pub decimals: u32,
    pub timestamp: u64,
    pub revision_height: u64,
    pub sequence: u64,
}

/// A verified price, normalized to the oracle's decimals.
#[derive(Clone, Copy, Debug, PartialEq, Eq, Structural)]
pub struct IbcPrice {
    pub asset: u64,
    pub price: i128,
    pub decimals: u32,
    pub timestamp: u64,
    pub revision_height: u64,
}

/// The latest verified price of a denom, as handed to callers.
pub struct IbcPriceEntry {
    pub denom: String,
    pub asset: u64,
    pub price: i128,
    pub decimals: u32,
    pub timestamp: u64,
    pub revision_height: u64,
}

/// What is known of one mapped denom.
pub struct DenomRecord {
    pub denom: String,
    pub asset: u64,
    /// Sequence of the latest accepted packet (0 before any).
    pub last_sequence: u64,
    pub latest: Option<IbcPrice>,
}

/// The light client and the verified prices.
pub struct IbcOracle {
    pub admin: u64,
    pub client: Option<IbcClientState>,
    /// Trusted consensus states by revision height.
    pub consensus: HashMap<u64, IbcConsensusState>,
    pub denoms: Vec<DenomRecord>,
}

// ── byte encodings and hashing ─────────────────────────────────────────────

/// The `n` little-endian bytes of the unsigned value `x`.
pub open spec fn le_bytes(x: int, n: nat) -> Seq<u8> {
    Seq::new(n, |i: int| ((x / pow256(i)) % 256) as u8)
}

/// Bytes of a packet that the leaf commits to: the price (16 bytes, a
/// negative price counted as 0), the decimals (4), the timestamp (8) and the
/// sequence (8), all little-endian. The denom is not part of the leaf.
pub open spec fn packet_bytes(price: i128, decimals: u32, timestamp: u64, sequence: u64) -> Seq<u8> {
    le_bytes(if price >= 0 { price as int } else { 0 }, 16) + le_bytes(decimals as int, 4)
        + le_bytes(timestamp as int, 8) + le_bytes(sequence as int, 8)
}

/// Bytes of a header that validators sign (through its digest): the
/// revision height (8 bytes), the application hash, the next validators'
/// hash and the timestamp (8 bytes).
pub open spec fn header_bytes(cs: IbcConsensusState) -> Seq<u8> {
    le_bytes(cs.revision_height as int, 8) + cs.app_hash@ + cs.next_validators_hash@
        + le_bytes(cs.timestamp as int, 8)
}

/// Hash of a Merkle leaf.
pub open spec fn leaf_hash_spec(data: Seq<u8>) -> Seq<u8> {
    sha256_digest(seq![0u8] + data)
}

/// Hash of a Merkle node.
pub open spec fn node_hash_spec(left: Seq<u8>, right: Seq<u8>) -> Seq<u8> {
    sha256_digest(seq![1u8] + left + right)
}

/// Whether the path turns right at level `i` (the current node is the right child).
pub open spec fn turns_right(path_bits: u32, i: int) -> bool {
    (path_bits >> (i as u32)) & 1u32 == 1u32
}

/// The node reached from `leaf` after the first `n` levels of the proof.
pub open spec fn merkle_root(leaf: Seq<u8>, proof: Seq<[u8; 32]>, path_bits: u32, n: nat) -> Seq<u8>
    decreases n,
{
    if n == 0 {
        leaf
    } else {
        let cur = merkle_root(leaf, proof, path_bits, (n - 1) as nat);
        let sibling = proof[n - 1]@;
        if turns_right(path_bits, n - 1) {
            node_hash_spec(sibling, cur)
        } else {
            node_hash_spec(cur, sibling)
        }
    }
}

/// `10^n`.
pub open spec fn pow10(n: nat) -> int
    decreases n,
{
    if n == 0 {
        1
    } else {
        10 * pow10((n - 1) as nat)
    }
}

/// A price with `src` decimals expressed with `tgt` decimals: scaled up
/// with saturation, or divided rounding toward zero.
pub open spec fn normalize_spec(raw: i128, src: u32, tgt: u32) -> int {
    if src == tgt {
        raw as int
    } else if src < tgt {
        clamp_i128(raw * pow10((tgt - src) as nat))
    } else {
        div_trunc(raw as int, pow10((src - tgt) as nat))
    }
}

/// Total voting power of the first `n` validators.
pub open spec fn total_power(vals: Seq<TendermintValidator>, n: nat) -> int
    decreases n,
{
    if n == 0 {
        0
    } else {
        total_power(vals, (n - 1) as nat) + vals[n - 1].voting_power
    }
}

/// Whether every validator's signature of `msg` is valid.
pub open spec fn all_signed(vals: Seq<TendermintValidator>, sigs: Seq<[u8; 64]>, msg: Seq<u8>) -> bool {
    forall|i: int| 0 <= i < vals.len() ==> #[trigger] ed25519_valid(vals[i].pubkey@, msg, sigs[i]@)
}

/// Position of the first record of `denom` at or after `i` (-1 when none).
pub open spec fn denom_pos_from(s: Seq<DenomRecord>, denom: Seq<char>, i: int) -> int
    decreases s.len() - i,
{
    if i < 0 || i >= s.len() {
        -1
    } else if s[i].denom@ == denom {
        i
    } else {
        denom_pos_from(s, denom, i + 1)
    }
}

/// Position of the record of `denom` (-1 when none).
pub open spec fn denom_pos(s: Seq<DenomRecord>, denom: Seq<char>) -> int {
    denom_pos_from(s, denom, 0)
}

pub proof fn lemma_denom_pos_from_range(s: Seq<DenomRecord>, denom: Seq<char>, i: int)
    ensures
        denom_pos_from(s, denom, i) == -1 || (i <= denom_pos_from(s, denom, i) < s.len()
            && s[denom_pos_from(s, denom, i)].denom@ == denom),
    decreases s.len() - i,
{
    if 0 <= i < s.len() && s[i].denom@ != denom {
        lemma_denom_pos_from_range(s, denom, i + 1);
    }
}

pub proof fn lemma_denom_pos_push(s: Seq<DenomRecord>, r: DenomRecord, denom: Seq<char>, i: int)
    requires
        0 <= i,
    ensures
        denom_pos_from(s.push(r), denom, i) == (if denom_pos_from(s, denom, i) >= 0 {
            denom_pos_from(s, denom, i)
        } else if r.denom@ == denom && i <= s.len() {
            s.len() as int
        } else {
            -1
        }),
    decreases s.len() + 1 - i,
{
    if i == s.len() {
        assert(s.push(r)[i] == r);
        assert(denom_pos_from(s.push(r), denom, i + 1) == -1);
    }
    if i < s.len() {
        assert(s.push(r)[i] == s[i]);
        if s[i].denom@ != denom {
            lemma_denom_pos_push(s, r, denom, i + 1);
        }
    }
}

pub proof fn lemma_denom_pos_update(s: Seq<DenomRecord>, p: int, r: DenomRecord, denom: Seq<char>, i: int)
    requires
        0 <= p < s.len(),
        r.denom@ == s[p].denom@,
    ensures
        denom_pos_from(s.update(p, r), denom, i) == denom_pos_from(s, denom, i),
    decreases s.len() - i,
{
    if 0 <= i < s.len() {
        if s[i].denom@ != denom {
            lemma_denom_pos_update(s, p, r, denom, i + 1);
        }
    }
}

impl IbcOracle {
    /// The asset `denom` is mapped to.
    pub open spec fn asset_of(&self, denom: Seq<char>) -> Option<u64> {
        let p = denom_pos(self.denoms@, denom);
        if p >= 0 {
            Some(self.denoms@[p].asset)
        } else {
            None
        }
    }

    /// Sequence of the latest accepted packet of `denom` (0 before any).
    pub open spec fn last_sequence(&self, denom: Seq<char>) -> u64 {
        let p = denom_pos(self.denoms@, denom);
        if p >= 0 {
            self.denoms@[p].last_sequence
        } else {
            0
        }
    }

    /// Latest verified price of `denom`.
    pub open spec fn price_of(&self, denom: Seq<char>) -> Option<IbcPrice> {
        let p = denom_pos(self.denoms@, denom);
        if p >= 0 {
            self.denoms@[p].latest
        } else {
            None
        }
    }

    /// The configured client, field by field (the chain id by its characters).
    pub open spec fn client_view(&self) -> Option<(Seq<char>, u32, u64, u64, u64)> {
        match self.client {
            Some(c) => Some((c.chain_id@, c.trust_threshold_pct, c.trusting_period, c.latest_height, c.total_voting_power)),
            None => None,
        }
    }

    /// Well-formedness: a configured trust threshold lies in `1..=100`.
    pub open spec fn wf(&self) -> bool {
        match self.client {
            Some(c) => 1 <= c.trust_threshold_pct <= 100,
            None => true,
        }
    }

    /// A light client with nothing configured.
    pub fn new(admin: u64) -> (r: IbcOracle)
        ensures
            r.wf(),
            r.admin == admin,
            r.client.is_none(),
            r.consensus@ == Map::<u64, IbcConsensusState>::empty(),
            forall|d: Seq<char>| #[trigger] r.asset_of(d) == None::<u64>,
            forall|d: Seq<char>| #[trigger] r.price_of(d) == None::<IbcPrice>,
            forall|d: Seq<char>| #[trigger] r.last_sequence(d) == 0,
    {
        IbcOracle { admin, client: None, consensus: HashMap::new(), denoms: Vec::new() }
    }

    /// Position of `denom` among the records.
    fn find_denom(&self, denom: &String) -> (r: Option<usize>)
        ensures
            match r {
                Some(p) => p as int == denom_pos(self.denoms@, denom@) && p < self.denoms@.len(),
                None => denom_pos(self.denoms@, denom@) == -1,
            },
    {
        let n = self.denoms.len();
        let mut i: usize = 0;
        while i < n
            invariant
                n == self.denoms@.len(),
                0 <= i <= n,
                denom_pos(self.denoms@, denom@) == denom_pos_from(self.denoms@, denom@, i as int),
            decreases n - i,
        {
            if self.denoms[i].denom == *denom {
                return Some(i);
            }
            i = i + 1;
        }
        None
    }

    /// Configures (or reconfigures) the light client. Administrator only;
    /// the trust threshold must lie in `1..=100`.
    pub fn update_light_client(&mut self, caller: u64, client_state: IbcClientState) -> (r: Result<(), ErrorCode>)
        requires
            old(self).wf(),
        ensures
            final(self).wf(),
            caller != old(self).admin ==> r == Err::<(), ErrorCode>(ErrorCode::NotAuthorized),
            caller == old(self).admin && (client_state.trust_threshold_pct == 0 || client_state.trust_threshold_pct > 100)
                ==> r == Err::<(), ErrorCode>(ErrorCode::InvalidConfiguration),
            r.is_ok() <==> (caller == old(self).admin && 1 <= client_state.trust_threshold_pct <= 100),
            r.is_ok() ==> final(self).client == Some(client_state),
            r.is_err() ==> final(self).client == old(self).client,
            final(self).consensus@ == old(self).consensus@,
            final(self).admin == old(self).admin,
            final(self).denoms@ == old(self).denoms@,
    {
        if caller != self.admin {
            return Err(ErrorCode::NotAuthorized);
        }
        if client_state.trust_threshold_pct == 0 || client_state.trust_threshold_pct > 100 {
            return Err(ErrorCode::InvalidConfiguration);
        }
        self.client = Some(client_state);
        Ok(())
    }

    /// The configured light client.
    pub fn get_light_client(&self) -> (r: Option<IbcClientState>)
        ensures
            match r {
                Some(c) => self.client_view() == Some((c.chain_id@, c.trust_threshold_pct, c.trusting_period, c.latest_height, c.total_voting_power)),
                None => self.client.is_none(),
            },
    {
        match &self.client {
            Some(c) => Some(IbcClientState {
                chain_id: c.chain_id.clone(),
                trust_threshold_pct: c.trust_threshold_pct,
                trusting_period: c.trusting_period,
                latest_height: c.latest_height,
                total_voting_power: c.total_voting_power,
            }),
            None => None,
        }
    }

    /// The trusted consensus state at `revision_height`.
    pub fn get_consensus_state(&self, revision_height: u64) -> (r: Option<IbcConsensusState>)
        ensures
            r == (if self.consensus@.contains_key(revision_height) {
                Some(self.consensus@[revision_height])
            } else {
                None
            }),
    {
        match self.consensus.get(&revision_height) {
            Some(cs) => Some(*cs),
            None => None,
        }
    }
}

/// Appends the 32 bytes of `src` to `out`.
fn push_bytes32(out: &mut Vec<u8>, src: &[u8; 32])
    ensures
        final(out)@ == old(out)@ + src@,
{
    let ghost start = old(out)@;
    let mut i: usize = 0;
    while i < 32
        invariant
            0 <= i <= 32,
            src@.len() == 32,
            out@ == start + src@.subrange(0, i as int),
        decreases 32 - i,
    {
        out.push(src[i]);
        i = i + 1;
        assert(out@ =~= start + src@.subrange(0, i as int));
    }
    assert(src@.subrange(0, 32) =~= src@);
}

/// Appends the `n` little-endian bytes of `x`.
fn push_le_bytes(out: &mut Vec<u8>, x: u128, n: usize)
    requires
        n <= 16,
    ensures
        final(out)@ == old(out)@ + le_bytes(x as int, n as nat),
{
    push_le(out, x, n);
    assert(final(out)@ =~= old(out)@ + le_bytes(x as int, n as nat));
}

/// The bytes a price packet's leaf commits to.
pub fn serialize_packet(packet: &IbcPricePacket) -> (r: Vec<u8>)
    ensures
        r@ == packet_bytes(packet.price, packet.decimals, packet.timestamp, packet.sequence),
{
    let price: u128 = if packet.price >= 0 { packet.price as u128 } else { 0 };
    let mut out: Vec<u8> = Vec::new();
    push_le_bytes(&mut out, price, 16);
    push_le_bytes(&mut out, packet.decimals as u128, 4);
    push_le_bytes(&mut out, packet.timestamp as u128, 8);
    push_le_bytes(&mut out, packet.sequence as u128, 8);
    out
}

/// The bytes of a header that validators sign through its digest.
pub fn serialize_header(cs: &IbcConsensusState) -> (r: Vec<u8>)
    ensures
        r@ == header_bytes(*cs),
{
    let mut out: Vec<u8> = Vec::new();
    push_le_bytes(&mut out, cs.revision_height as u128, 8);
    push_bytes32(&mut out, &cs.app_hash);
    push_bytes32(&mut out, &cs.next_validators_hash);
    push_le_bytes(&mut out, cs.timestamp as u128, 8);
    out
}

/// Hash of a Merkle leaf holding `data`.
pub fn merkle_leaf_hash(data: &Vec<u8>) -> (r: [u8; 32])
    ensures
        r@ == leaf_hash_spec(data@),
{
    let mut buf: Vec<u8> = Vec::new();
    buf.push(0u8);
    let n = data.len();
    let mut i: usize = 0;
    while i < n
        invariant
            n == data@.len(),
            0 <= i <= n,
            buf@ == seq![0u8] + data@.subrange(0, i as int),
        decreases n - i,
    {
        buf.push(data[i]);
        i = i + 1;
        assert(buf@ =~= seq![0u8] + data@.subrange(0, i as int));
    }
    assert(data@.subrange(0, n as int) =~= data@);
    sha256(buf.as_slice())
}

/// Hash of a Merkle node with children `left` and `right`.
pub fn merkle_node_hash(left: &[u8; 32], right: &[u8; 32]) -> (r: [u8; 32])
    ensures
        r@ == node_hash_spec(left@, right@),
{
    let mut buf: Vec<u8> = Vec::new();
    buf.push(1u8);
    push_bytes32(&mut buf, left);
    push_bytes32(&mut buf, right);
    assert(buf@ =~= seq![1u8] + left@ + right@);
    sha256(buf.as_slice())
}

pub proof fn lemma_pow10_grows(n: nat)
    ensures
        1 <= pow10(n) <= pow10(n + 1),
    decreases n,
{
    if n > 0 {
        lemma_pow10_grows((n - 1) as nat);
    }
}

pub proof fn lemma_pow10_le(a: nat, b: nat)
    requires
        a <= b,
    ensures
        pow10(a) <= pow10(b),
    decreases b - a,
{
    lemma_pow10_grows(a);
    if a < b {
        lemma_pow10_le(a + 1, b);
    }
}

/// `10^n` as an `i128`.
fn pow10_i128(n: u32) -> (r: i128)
    requires
        n <= 38,
    ensures
        r == pow10(n as nat),
{
    proof {
        reveal_with_fuel(pow10, 39);
        assert(pow10(38) == 100_000_000_000_000_000_000_000_000_000_000_000_000int);
    }
    let mut f: i128 = 1;
    let mut k: u32 = 0;
    while k < n
        invariant
            k <= n <= 38,
            f == pow10(k as nat),
            pow10(38) == 100_000_000_000_000_000_000_000_000_000_000_000_000int,
        decreases n - k,
    {
        proof {
            lemma_pow10_le((k + 1) as nat, 38);
            assert(pow10((k + 1) as nat) == 10 * pow10(k as nat));
            lemma_pow10_grows(k as nat);
        }
        f = f * 10;
        k = k + 1;
    }
    f
}

/// Re-expresses `raw_price` from `source_decimals` to `target_decimals`:
/// multiplied (saturating) by the power of ten between them, or divided by
/// it rounding toward zero.
pub fn normalize_decimals(raw_price: i128, source_decimals: u32, target_decimals: u32) -> (r: i128)
    requires
        source_decimals <= target_decimals + 38,
        target_decimals <= source_decimals + 38,
    ensures
        r == normalize_spec(raw_price, source_decimals, target_decimals),
{
    if source_decimals == target_decimals {
        return raw_price;
    }
    if source_decimals < target_decimals {
        let factor = pow10_i128(target_decimals - source_decimals);
        sat_mul(raw_price, factor)
    } else {
        let factor = pow10_i128(source_decimals - target_decimals);
        proof {
            lemma_pow10_grows((source_decimals - target_decimals) as nat);
        }
        raw_price / factor
    }
}

} // verus!

verus! {

/// The root that the first `n` proof levels reach from the leaf of `packet`.
pub fn compute_merkle_root(leaf: [u8; 32], proof: &Vec<[u8; 32]>, path_bits: u32) -> (r: [u8; 32])
    requires
        proof@.len() <= 32,
    ensures
        r@ == merkle_root(leaf@, proof@, path_bits, proof@.len()),
{
    let n = proof.len();
    let mut current = leaf;
    let mut i: usize = 0;
    while i < n
        invariant
            n == proof@.len() <= 32,
            0 <= i <= n,
            current@ == merkle_root(leaf@, proof@, path_bits, i as nat),
        decreases n - i,
    {
        let sibling = proof[i];
        let bit = (path_bits >> (i as u32)) & 1u32;
        if bit == 0 {
            current = merkle_node_hash(&current, &sibling);
        } else {
            proof {
                assert(bit <= 1) by (bit_vector)
                    requires bit == (path_bits >> (i as u32)) & 1u32;
            }
            current = merkle_node_hash(&sibling, &current);
        }
        i = i + 1;
    }
    current
}

/// Total voting power of the first `n` validators fits easily in a `u128`.
proof fn lemma_total_power_bound(vals: Seq<TendermintValidator>, n: nat)
    requires
        n <= vals.len(),
    ensures
        0 <= total_power(vals, n) <= n * 0xffff_ffff_ffff_ffff,
    decreases n,
{
    if n > 0 {
        lemma_total_power_bound(vals, (n - 1) as nat);
    }
}

/// Whether `signed` voting power reaches the quorum: at least `pct` percent
/// of the whole validator set's power `full`, which must not be zero.
pub open spec fn quorum_met(signed: int, full: u64, pct: u32) -> bool {
    full != 0 && signed * 100 >= full * pct
}

impl IbcOracle {
    /// The checks of a consensus update that come before its signatures are
    /// verified, in the order they are made.
    pub open spec fn consensus_precheck(&self, caller: u64, vals: Seq<TendermintValidator>, sigs: Seq<[u8; 64]>) -> Result<(), ErrorCode> {
        if caller != self.admin {
            Err(ErrorCode::NotAuthorized)
        } else if self.client.is_none() {
            Err(ErrorCode::IbcClientNotSet)
        } else if vals.len() != sigs.len() || vals.len() == 0 {
            Err(ErrorCode::IbcQuorumNotMet)
        } else {
            Ok(())
        }
    }

    /// The outcome of a consensus update whose signatures all verify.
    pub open spec fn consensus_check(&self, caller: u64, vals: Seq<TendermintValidator>, sigs: Seq<[u8; 64]>) -> Result<(), ErrorCode> {
        if self.consensus_precheck(caller, vals, sigs) is Err {
            self.consensus_precheck(caller, vals, sigs)
        } else if !quorum_met(total_power(vals, vals.len()), self.client.unwrap().total_voting_power, self.client.unwrap().trust_threshold_pct) {
            Err(ErrorCode::IbcQuorumNotMet)
        } else {
            Ok(())
        }
    }

    /// Accepts a consensus state whose listed validators have all signed the
    /// SHA-256 digest of its header, once they together hold at least the
    /// client's trust threshold of the whole validator set's voting power
    /// (every signature being valid, the signed power is the listed
    /// validators' power). The state is stored under its revision height,
    /// and the client's latest height is raised to it. Administrator only.
    /// The host aborts the whole invocation on an invalid signature, so that
    /// case is not an outcome of this function
    /// (`try_submit_consensus_state` verifies the signatures first).
    pub fn submit_consensus_state(&mut self, caller: u64, consensus_state: IbcConsensusState, validators: &Vec<TendermintValidator>, signatures: &Vec<[u8; 64]>) -> (r: Result<(), ErrorCode>)
        requires
            old(self).wf(),
            validators@.len() <= u32::MAX,
            old(self).consensus_precheck(caller, validators@, signatures@) is Ok
                ==> all_signed(validators@, signatures@, sha256_digest(header_bytes(consensus_state))),
        ensures
            final(self).wf(),
            r == old(self).consensus_check(caller, validators@, signatures@),
            r.is_ok() ==> final(self).consensus@ == old(self).consensus@.insert(consensus_state.revision_height, consensus_state),
            r.is_ok() ==> final(self).client_view() == Some((
                old(self).client_view().unwrap().0,
                old(self).client_view().unwrap().1,
                old(self).client_view().unwrap().2,
                if consensus_state.revision_height > old(self).client_view().unwrap().3 {
                    consensus_state.revision_height
                } else {
                    old(self).client_view().unwrap().3
                },
                old(self).client_view().unwrap().4,
            )),
            r.is_err() ==> final(self).consensus@ == old(self).consensus@ && final(self).client == old(self).client,
            final(self).admin == old(self).admin,
            final(self).denoms@ == old(self).denoms@,
    {
        if caller != self.admin {
            return Err(ErrorCode::NotAuthorized);
        }
        let (pct, full) = match &self.client {
            Some(c) => (c.trust_threshold_pct, c.total_voting_power),
            None => {
                return Err(ErrorCode::IbcClientNotSet);
            },
        };
        let n = validators.len();
        if n != signatures.len() || n == 0 {
            return Err(ErrorCode::IbcQuorumNotMet);
        }
        let mut total: u128 = 0;
        let mut i: usize = 0;
        while i < n
            invariant
                n == validators@.len(),
                n <= u32::MAX,
                0 <= i <= n,
                total as int == total_power(validators@, i as nat),
            decreases n - i,
        {
            let v = validators[i];
            proof {
                lemma_total_power_bound(validators@, (i + 1) as nat);
                assert((i + 1) * 0xffff_ffff_ffff_ffffint <= 0x1_0000_0000 * 0xffff_ffff_ffff_ffffint) by (nonlinear_arith)
                    requires i + 1 <= 0x1_0000_0000;
            }
            total = total + v.voting_power as u128;
            i = i + 1;
        }
        proof {
            lemma_total_power_bound(validators@, n as nat);
            assert(n * 0xffff_ffff_ffff_ffffint <= 0x1_0000_0000 * 0xffff_ffff_ffff_ffffint) by (nonlinear_arith)
                requires n <= 0x1_0000_0000;
        }
        assert(1 <= pct <= 100);
        assert(total * pct <= 0x1_0000_0000 * 0xffff_ffff_ffff_ffffint * 100) by (nonlinear_arith)
            requires total <= 0x1_0000_0000 * 0xffff_ffff_ffff_ffffint, pct <= 100, total >= 0, pct >= 0;
        let signed: u128 = total;
        assert((full as int) * (pct as int) <= 0xffff_ffff_ffff_ffffint * 100) by (nonlinear_arith)
            requires full <= 0xffff_ffff_ffff_ffffint, pct <= 100, full >= 0, pct >= 0;
        if full == 0 || signed * 100 < (full as u128) * (pct as u128) {
            return Err(ErrorCode::IbcQuorumNotMet);
        }
        let height = consensus_state.revision_height;
        self.consensus.insert(height, consensus_state);
        match &mut self.client {
            Some(c) => {
                if height > c.latest_height {
                    c.latest_height = height;
                }
            },
            None => {},
        }
        Ok(())
    }

    /// Whether every validator's signature of `digest` verifies, checked in
    /// order.
    fn signatures_verify(validators: &Vec<TendermintValidator>, signatures: &Vec<[u8; 64]>, digest: &[u8; 32]) -> (r: bool)
        requires
            validators@.len() == signatures@.len(),
        ensures
            r == all_signed(validators@, signatures@, digest@),
    {
        let n = validators.len();
        let mut i: usize = 0;
        while i < n
            invariant
                n == validators@.len() == signatures@.len(),
                0 <= i <= n,
                forall|j: int| 0 <= j < i ==> #[trigger] ed25519_valid(validators@[j].pubkey@, digest@, signatures@[j]@),
            decreases n - i,
        {
            let v = validators[i];
            if !ed25519_verify(&v.pubkey, digest.as_slice(), &signatures[i]) {
                return false;
            }
            i = i + 1;
        }
        true
    }

    /// A consensus update as the host runs it: once the checks before the
    /// signatures pass, each validator's signature of the header digest is
    /// verified, and an invalid one aborts the invocation, given here as
    /// `None` with nothing changed. Otherwise the outcome is that of
    /// `submit_consensus_state`.
    pub fn try_submit_consensus_state(&mut self, caller: u64, consensus_state: IbcConsensusState, validators: &Vec<TendermintValidator>, signatures: &Vec<[u8; 64]>) -> (r: Option<Result<(), ErrorCode>>)
        requires
            old(self).wf(),
            validators@.len() <= u32::MAX,
        ensures
            final(self).wf(),
            r == (if old(self).consensus_precheck(caller, validators@, signatures@) is Ok
                && !all_signed(validators@, signatures@, sha256_digest(header_bytes(consensus_state))) {
                None
            } else {
                Some(old(self).consensus_check(caller, validators@, signatures@))
            }),
            r matches Some(Ok(())) ==> final(self).consensus@ == old(self).consensus@.insert(consensus_state.revision_height, consensus_state),
            !(r matches Some(Ok(()))) ==> final(self).consensus@ == old(self).consensus@ && final(self).client == old(self).client,
            final(self).admin == old(self).admin,
            final(self).denoms@ == old(self).denoms@,
    {
        if caller == self.admin && self.client.is_some() && validators.len() == signatures.len() && validators.len() != 0 {
            let header = serialize_header(&consensus_state);
            let digest = sha256(header.as_slice());
            if !Self::signatures_verify(validators, signatures, &digest) {
                return None;
            }
        }
        Some(self.submit_consensus_state(caller, consensus_state, validators, signatures))
    }
}

} // verus!

verus! {

/// `a - b`, or 0 when `b` is larger.
pub open spec fn sub_floor(a: u64, b: u64) -> int {
    if a >= b { a - b } else { 0 }
}

impl IbcOracle {
    /// Maps `denom` to the registered oracle asset `asset` (replacing an
    /// earlier mapping of the denom). Administrator only; `asset` must be
    /// among `registered_assets`.
    pub fn register_ibc_asset_mapping(&mut self, caller: u64, denom: String, asset: u64, registered_assets: &Vec<u64>) -> (r: Result<(), ErrorCode>)
        ensures
            r == (if caller != old(self).admin {
                Err(ErrorCode::NotAuthorized)
            } else if !registered_assets@.contains(asset) {
                Err(ErrorCode::AssetNotRegistered)
            } else {
                Ok(())
            }),
            forall|d: Seq<char>| #[trigger] final(self).asset_of(d) == (if r.is_ok() && d == denom@ {
                Some(asset)
            } else {
                old(self).asset_of(d)
            }),
            forall|d: Seq<char>| #[trigger] final(self).last_sequence(d) == old(self).last_sequence(d),
            forall|d: Seq<char>| #[trigger] final(self).price_of(d) == old(self).price_of(d),
            final(self).admin == old(self).admin,
            final(self).client == old(self).client,
            final(self).consensus@ == old(self).consensus@,
    {
        if caller != self.admin {
            return Err(ErrorCode::NotAuthorized);
        }
        let mut found = false;
        let mut k: usize = 0;
        while k < registered_assets.len()
            invariant
                0 <= k <= registered_assets@.len(),
                found <==> exists|j: int| 0 <= j < k && registered_assets@[j] == asset,
            decreases registered_assets@.len() - k,
        {
            if registered_assets[k] == asset {
                found = true;
            }
            k = k + 1;
        }
        if !found {
            return Err(ErrorCode::AssetNotRegistered);
        }
        let ghost s0 = self.denoms@;
        match self.find_denom(&denom) {
            Some(p) => {
                let rec = DenomRecord {
                    denom: self.denoms[p].denom.clone(),
                    asset,
                    last_sequence: self.denoms[p].last_sequence,
                    latest: self.denoms[p].latest,
                };
                self.denoms.set(p, rec);
                proof {
                    lemma_denom_pos_from_range(s0, denom@, 0);
                    assert forall|d: Seq<char>| #[trigger] denom_pos(self.denoms@, d) == denom_pos(s0, d) by {
                        lemma_denom_pos_update(s0, p as int, rec, d, 0);
                        lemma_denom_pos_from_range(s0, d, 0);
                    }
                    assert forall|d: Seq<char>| #[trigger] self.last_sequence(d) == old(self).last_sequence(d) by {
                        lemma_denom_pos_from_range(s0, d, 0);
                    }
                    assert forall|d: Seq<char>| #[trigger] self.price_of(d) == old(self).price_of(d) by {
                        lemma_denom_pos_from_range(s0, d, 0);
                    }
                    assert forall|d: Seq<char>| #[trigger] self.asset_of(d) == (if d == denom@ {
                        Some(asset)
                    } else {
                        old(self).asset_of(d)
                    }) by {
                        lemma_denom_pos_from_range(s0, d, 0);
                    }
                }
            },
            None => {
                let rec = DenomRecord { denom, asset, last_sequence: 0, latest: None };
                self.denoms.push(rec);
                proof {
                    assert forall|d: Seq<char>| #[trigger] denom_pos(self.denoms@, d) == (if denom_pos(s0, d) >= 0 {
                        denom_pos(s0, d)
                    } else if rec.denom@ == d {
                        s0.len() as int
                    } else {
                        -1
                    }) by {
                        lemma_denom_pos_push(s0, rec, d, 0);
                    }
                    assert forall|d: Seq<char>| #[trigger] self.last_sequence(d) == old(self).last_sequence(d) by {
                        lemma_denom_pos_from_range(s0, d, 0);
                    }
                    assert forall|d: Seq<char>| #[trigger] self.price_of(d) == old(self).price_of(d) by {
                        lemma_denom_pos_from_range(s0, d, 0);
                    }
                    assert forall|d: Seq<char>| #[trigger] self.asset_of(d) == (if d == rec.denom@ {
                        Some(asset)
                    } else {
                        old(self).asset_of(d)
                    }) by {
                        lemma_denom_pos_from_range(s0, d, 0);
                    }
                }
            },
        }
        Ok(())
    }

    /// The oracle asset `denom` is mapped to.
    pub fn get_ibc_asset(&self, denom: &String) -> (r: Option<u64>)
        ensures
            r == self.asset_of(denom@),
    {
        match self.find_denom(denom) {
            Some(p) => Some(self.denoms[p].asset),
            None => None,
        }
    }

    /// The latest verified price of `denom`.
    pub fn get_ibc_price(&self, denom: &String) -> (r: Option<IbcPriceEntry>)
        ensures
            match r {
                Some(e) => e.denom@ == denom@ && self.price_of(denom@) == Some(IbcPrice {
                    asset: e.asset,
                    price: e.price,
                    decimals: e.decimals,
                    timestamp: e.timestamp,
                    revision_height: e.revision_height,
                }),
                None => self.price_of(denom@).is_none(),
            },
    {
        match self.find_denom(denom) {
            Some(p) => match self.denoms[p].latest {
                Some(x) => Some(IbcPriceEntry {
                    denom: denom.clone(),
                    asset: x.asset,
                    price: x.price,
                    decimals: x.decimals,
                    timestamp: x.timestamp,
                    revision_height: x.revision_height,
                }),
                None => None,
            },
            None => None,
        }
    }

    /// The outcome of a price packet, in the order the checks are made.
    pub open spec fn packet_check(&self, packet: IbcPricePacket, proof: Seq<[u8; 32]>, path_bits: u32, now: u64) -> Result<(), ErrorCode> {
        let cs = self.consensus@[packet.revision_height];
        if self.asset_of(packet.denom@).is_none() {
            Err(ErrorCode::IbcDenomNotMapped)
        } else if self.client.is_none() {
            Err(ErrorCode::IbcClientNotSet)
        } else if !self.consensus@.contains_key(packet.revision_height) {
            Err(ErrorCode::IbcConsensusStateNotFound)
        } else if sub_floor(now, cs.timestamp) > self.client.unwrap().trusting_period {
            Err(ErrorCode::IbcClientExpired)
        } else if packet.price <= 0 {
            Err(ErrorCode::InvalidPrice)
        } else if packet.sequence <= self.last_sequence(packet.denom@) {
            Err(ErrorCode::IbcPacketReplayed)
        } else if proof.len() == 0 {
            Err(ErrorCode::IbcInvalidProof)
        } else if merkle_root(
            leaf_hash_spec(packet_bytes(packet.price, packet.decimals, packet.timestamp, packet.sequence)),
            proof,
            path_bits,
            proof.len(),
        ) != cs.app_hash@ {
            Err(ErrorCode::IbcInvalidProof)
        } else {
            Ok(())
        }
    }

    /// Verifies a price packet against the trusted consensus state at its
    /// revision height and stores its price, normalized to
    /// `target_decimals`, as the denom's latest price. `now` is the ledger
    /// time. `proof` lists the sibling hashes from the leaf up; bit `i` of
    /// `path_bits` is 1 where the current node is the right child.
    pub fn verify_and_submit_price(&mut self, packet: &IbcPricePacket, proof: &Vec<[u8; 32]>, path_bits: u32, now: u64, target_decimals: u32) -> (r: Result<(), ErrorCode>)
        requires
            proof@.len() <= 32,
            packet.decimals <= target_decimals + 38,
            target_decimals <= packet.decimals + 38,
        ensures
            r == old(self).packet_check(*packet, proof@, path_bits, now),
            forall|d: Seq<char>| #[trigger] final(self).price_of(d) == (if r.is_ok() && d == packet.denom@ {
                Some(IbcPrice {
                    asset: old(self).asset_of(d).unwrap(),
                    price: normalize_spec(packet.price, packet.decimals, target_decimals) as i128,
                    decimals: target_decimals,
                    timestamp: packet.timestamp,
                    revision_height: packet.revision_height,
                })
            } else {
                old(self).price_of(d)
            }),
            forall|d: Seq<char>| #[trigger] final(self).last_sequence(d) == (if r.is_ok() && d == packet.denom@ {
                packet.sequence
            } else {
                old(self).last_sequence(d)
            }),
            forall|d: Seq<char>| #[trigger] final(self).asset_of(d) == old(self).asset_of(d),
            final(self).admin == old(self).admin,
            final(self).client == old(self).client,
            final(self).consensus@ == old(self).consensus@,
    {
        let p = match self.find_denom(&packet.denom) {
            Some(p) => p,
            None => {
                return Err(ErrorCode::IbcDenomNotMapped);
            },
        };
        let period = match &self.client {
            Some(c) => c.trusting_period,
            None => {
                return Err(ErrorCode::IbcClientNotSet);
            },
        };
        let cs = match self.consensus.get(&packet.revision_height) {
            Some(cs) => *cs,
            None => {
                return Err(ErrorCode::IbcConsensusStateNotFound);
            },
        };
        let age: u64 = if now >= cs.timestamp { now - cs.timestamp } else { 0 };
        if age > period {
            return Err(ErrorCode::IbcClientExpired);
        }
        if packet.price <= 0 {
            return Err(ErrorCode::InvalidPrice);
        }
        if packet.sequence <= self.denoms[p].last_sequence {
            return Err(ErrorCode::IbcPacketReplayed);
        }
        if proof.len() == 0 {
            return Err(ErrorCode::IbcInvalidProof);
        }
        let bytes = serialize_packet(packet);
        let leaf = merkle_leaf_hash(&bytes);
        let root = compute_merkle_root(leaf, proof, path_bits);
        if !digests_equal(&root, &cs.app_hash) {
            return Err(ErrorCode::IbcInvalidProof);
        }
        let price = normalize_decimals(packet.price, packet.decimals, target_decimals);
        let ghost s0 = self.denoms@;
        let rec = DenomRecord {
            denom: self.denoms[p].denom.clone(),
            asset: self.denoms[p].asset,
            last_sequence: packet.sequence,
            latest: Some(IbcPrice {
                asset: self.denoms[p].asset,
                price,
                decimals: target_decimals,
                timestamp: packet.timestamp,
                revision_height: packet.revision_height,
            }),
        };
        self.denoms.set(p, rec);
        proof {
            lemma_denom_pos_from_range(s0, packet.denom@, 0);
            assert forall|d: Seq<char>| #[trigger] denom_pos(self.denoms@, d) == denom_pos(s0, d) by {
                lemma_denom_pos_update(s0, p as int, rec, d, 0);
            }
            assert forall|d: Seq<char>| #[trigger] self.last_sequence(d) == (if d == packet.denom@ {
                packet.sequence
            } else {
                old(self).last_sequence(d)
            }) by {
                lemma_denom_pos_from_range(s0, d, 0);
            }
            assert forall|d: Seq<char>| #[trigger] self.price_of(d) == (if d == packet.denom@ {
                Some(IbcPrice {
                    asset: old(self).asset_of(d).unwrap(),
                    price: normalize_spec(packet.price, packet.decimals, target_decimals) as i128,
                    decimals: target_decimals,
                    timestamp: packet.timestamp,
                    revision_height: packet.revision_height,
                })
            } else {
                old(self).price_of(d)
            }) by {
                lemma_denom_pos_from_range(s0, d, 0);
            }
            assert forall|d: Seq<char>| #[trigger] self.asset_of(d) == old(self).asset_of(d) by {
                lemma_denom_pos_from_range(s0, d, 0);
            }
        }
        Ok(())
    }
}

} // verus!
