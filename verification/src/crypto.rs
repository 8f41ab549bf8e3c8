//! Hashing through the Soroban host, and byte encodings of integers used to
//! build the hashed messages.

use vstd::prelude::*;

verus! {

/// The SHA-256 digest of `data` as computed by the Soroban host.
pub uninterp spec fn sha256_digest(data: Seq<u8>) -> Seq<u8>;

/// Calls `soroban_sdk::crypto::Crypto::sha256` on `data` in a fresh host
/// environment (without a resource budget, and without writing test
/// snapshots). Claims that the 32-byte result is the digest that
/// `sha256_digest` names for the same bytes.
#[verifier::external_body]
pub(crate) fn sha256(data: &[u8]) -> (r: [u8; 32])
    ensures
        r@ == sha256_digest(data@),
{
    let env = soroban_sdk::Env::new_with_config(soroban_sdk::testutils::EnvTestConfig { capture_snapshot_at_drop: false });
    env.cost_estimate().budget().reset_unlimited();
    let bytes = soroban_sdk::Bytes::from_slice(&env, data);
    env.crypto().sha256(&bytes).to_array()
}

/// Whether `signature` is a valid Ed25519 signature of `message` under
/// `public_key`, by the strict verification rule (canonical encodings, no
/// small-order points) that the Soroban host applies.
pub uninterp spec fn ed25519_valid(public_key: Seq<u8>, message: Seq<u8>, signature: Seq<u8>) -> bool;

/// Strict Ed25519 verification through `ed25519_dalek`: decodes the key with
/// `VerifyingKey::from_bytes` and checks the signature with
/// `VerifyingKey::verify_strict`, the same two steps the Soroban host takes in
/// `verify_sig_ed25519`. A key that does not decode is reported as `false`.
/// Claims that the answer is the one `ed25519_valid` names for the same bytes.
#[verifier::external_body]
pub(crate) fn ed25519_verify(public_key: &[u8; 32], message: &[u8], signature: &[u8; 64]) -> (r: bool)
    ensures
        r == ed25519_valid(public_key@, message@, signature@),
{
    match ed25519_dalek::VerifyingKey::from_bytes(public_key) {
        Ok(key) => key.verify_strict(message, &ed25519_dalek::Signature::from_bytes(signature)).is_ok(),
        Err(_) => false,
    }
}

/// Little-endian value of the first four bytes of `b`.
pub open spec fn le_u32_spec(b: Seq<u8>) -> int {
    b[0] as int + b[1] as int * 256 + b[2] as int * 65536 + b[3] as int * 16777216
}

/// Little-endian bytes of a `u32`.
pub open spec fn u32_le_bytes(x: u32) -> Seq<u8> {
    seq![(x % 256) as u8, ((x / 256) % 256) as u8, ((x / 65536) % 256) as u8, (x / 16777216) as u8]
}

/// Little-endian bytes of a `u64`.
pub open spec fn u64_le_bytes(x: u64) -> Seq<u8> {
    Seq::new(8, |i: int| ((x as int / pow256(i)) % 256) as u8)
}

/// Little-endian bytes of an `i128` in two's complement.
pub open spec fn i128_le_bytes(x: i128) -> Seq<u8> {
    let u = if x < 0 { x + 0x1_0000_0000_0000_0000_0000_0000_0000_0000int } else { x as int };
    Seq::new(16, |i: int| ((u / pow256(i)) % 256) as u8)
}

/// `256^i`.
pub open spec fn pow256(i: int) -> int
    decreases i,
{
    if i <= 0 {
        1
    } else {
        256 * pow256(i - 1)
    }
}

/// Little-endian bytes of a `u32`.
pub fn u32_to_le(x: u32) -> (r: Vec<u8>)
    ensures
        r@ == u32_le_bytes(x),
{
    let mut v: Vec<u8> = Vec::new();
    v.push((x % 256) as u8);
    v.push(((x / 256) % 256) as u8);
    v.push(((x / 65536) % 256) as u8);
    v.push((x / 16777216) as u8);
    v
}

/// Appends the little-endian bytes of `x` (`n` bytes of the unsigned value `x`) to `out`.
pub fn push_le(out: &mut Vec<u8>, x: u128, n: usize)
    requires
        n <= 16,
    ensures
        final(out)@ == old(out)@ + Seq::new(n as nat, |i: int| ((x as int / pow256(i)) % 256) as u8),
{
    let ghost start = old(out)@;
    let mut i: usize = 0;
    let mut rest: u128 = x;
    while i < n
        invariant
            i <= n <= 16,
            rest as int == x as int / pow256(i as int),
            out@ == start + Seq::new(i as nat, |k: int| ((x as int / pow256(k)) % 256) as u8),
        decreases n - i,
    {
        out.push((rest % 256) as u8);
        proof {
            assert(pow256(i + 1) == 256 * pow256(i as int));
            lemma_pow256_pos(i as int);
            vstd::arithmetic::div_mod::lemma_div_denominator(x as int, pow256(i as int), 256);
            assert(x as int / pow256(i as int) / 256 == x as int / (pow256(i as int) * 256));
        }
        rest = rest / 256;
        i = i + 1;
        assert(out@ =~= start + Seq::new(i as nat, |k: int| ((x as int / pow256(k)) % 256) as u8));
    }
}

pub proof fn lemma_pow256_pos(i: int)
    ensures
        pow256(i) >= 1,
    decreases i,
{
    if i > 0 {
        lemma_pow256_pos(i - 1);
    }
}

/// Seed of the source sampling: the first four digest bytes of the
/// little-endian ledger sequence, read little-endian.
pub open spec fn sampling_seed_spec(ledger: u32) -> int {
    le_u32_spec(sha256_digest(u32_le_bytes(ledger)))
}

/// Seed of the source sampling for `ledger` (see `sampling_seed_spec`).
pub fn sampling_seed(ledger: u32) -> (r: u32)
    ensures
        r == sampling_seed_spec(ledger),
{
    let bytes = u32_to_le(ledger);
    let digest = sha256(bytes.as_slice());
    assert(digest@.len() == 32);
    (digest[0] as u32) + (digest[1] as u32) * 256 + (digest[2] as u32) * 65536 + (digest[3] as u32) * 16777216
}

} // verus!
