//! LayerZero deliveries, IBC light-client prices and Merkle batches.

use ed25519_dalek::{Signer, SigningKey};
use price_oracle::ibc::{
    merkle_leaf_hash, merkle_node_hash, normalize_decimals, serialize_header, serialize_packet, IbcClientState,
    IbcConsensusState, IbcOracle, IbcPricePacket, TendermintValidator,
};
use price_oracle::layerzero::LayerZero;
use price_oracle::merkle::{MerkleLeaf, MerkleProof};
use price_oracle::oracle::PriceOracleContract;
use price_oracle::types::{ErrorCode, LedgerInfo};

const ADMIN: u64 = 1;
const SOURCE: u64 = 10;
const ASSET: u64 = 100;
const ETH_EID: u32 = 30101;
const ENDPOINT: u64 = 500;

fn oracle() -> PriceOracleContract {
    let mut c = PriceOracleContract::initialize(ADMIN, 1, 100, 7, "Oracle".to_string()).unwrap();
    c.set_min_sources_required(ADMIN, 1).unwrap();
    c.add_source(ADMIN, SOURCE).unwrap();
    c.register_asset(ADMIN, ASSET).unwrap();
    c
}

fn wired_lz(c: &PriceOracleContract, sender: [u8; 32]) -> LayerZero {
    let mut lz = LayerZero::new(ADMIN);
    lz.set_layerzero_endpoint(ADMIN, ENDPOINT).unwrap();
    lz.set_lz_chain_name(ADMIN, ETH_EID, "ethereum".to_string()).unwrap();
    lz.set_trusted_remote(c, ADMIN, ETH_EID, sender, SOURCE).unwrap();
    lz
}

fn sha256(data: &[u8]) -> [u8; 32] {
    let env = soroban_sdk::Env::default();
    env.crypto().sha256(&soroban_sdk::Bytes::from_slice(&env, data)).to_array()
}

#[test]
fn test_lz_receive_updates_price_and_nonce() {
    let c = oracle();
    let sender = [21u8; 32];
    let mut lz = wired_lz(&c, sender);
    let (source, chain) = lz.lz_receive(&c, ENDPOINT, ETH_EID, sender, 1).unwrap();
    assert_eq!(source, SOURCE);
    assert_eq!(chain, "ethereum".to_string());
    assert_eq!(lz.get_inbound_nonce(ETH_EID, sender), 1);
}

#[test]
fn test_lz_receive_rejects_out_of_order_nonce() {
    let c = oracle();
    let sender = [23u8; 32];
    let mut lz = wired_lz(&c, sender);
    assert_eq!(lz.lz_receive(&c, ENDPOINT, ETH_EID, sender, 2), Err(ErrorCode::LzNonceOutOfOrder));
    assert_eq!(lz.get_inbound_nonce(ETH_EID, sender), 0);
}

#[test]
fn test_lz_receive_rejects_untrusted_endpoint() {
    let c = oracle();
    let sender = [25u8; 32];
    let mut lz = wired_lz(&c, sender);
    assert_eq!(lz.lz_receive(&c, 999, ETH_EID, sender, 1), Err(ErrorCode::NotAuthorized));
}

#[test]
fn lz_replay_is_refused() {
    let c = oracle();
    let sender = [27u8; 32];
    let mut lz = wired_lz(&c, sender);
    lz.lz_receive(&c, ENDPOINT, ETH_EID, sender, 1).unwrap();
    assert_eq!(lz.lz_receive(&c, ENDPOINT, ETH_EID, sender, 1), Err(ErrorCode::LzNonceOutOfOrder));
    assert!(lz.lz_receive(&c, ENDPOINT, ETH_EID, sender, 2).is_ok());
}

#[test]
fn lz_configuration_errors() {
    let mut c = oracle();
    let sender = [29u8; 32];
    let mut lz = LayerZero::new(ADMIN);
    assert_eq!(lz.lz_receive(&c, ENDPOINT, ETH_EID, sender, 1), Err(ErrorCode::LzEndpointNotConfigured));
    assert_eq!(lz.set_layerzero_endpoint(2, ENDPOINT), Err(ErrorCode::NotAuthorized));
    lz.set_layerzero_endpoint(ADMIN, ENDPOINT).unwrap();
    assert_eq!(lz.get_layerzero_endpoint(), Some(ENDPOINT));
    assert_eq!(lz.lz_receive(&c, ENDPOINT, ETH_EID, sender, 1), Err(ErrorCode::LzRemoteNotTrusted));
    assert_eq!(lz.set_trusted_remote(&c, ADMIN, ETH_EID, sender, 77), Err(ErrorCode::NotAuthorized));
    lz.set_trusted_remote(&c, ADMIN, ETH_EID, sender, SOURCE).unwrap();
    assert_eq!(lz.lz_receive(&c, ENDPOINT, ETH_EID, sender, 1), Err(ErrorCode::LzChainNameNotConfigured));
    lz.remove_trusted_remote(ADMIN, ETH_EID, sender).unwrap();
    assert_eq!(lz.lz_receive(&c, ENDPOINT, ETH_EID, sender, 1), Err(ErrorCode::LzRemoteNotTrusted));
    c.pause(ADMIN).unwrap();
    assert_eq!(lz.lz_receive(&c, ENDPOINT, ETH_EID, sender, 1), Err(ErrorCode::ContractPaused));
}

fn client_state() -> IbcClientState {
    IbcClientState { chain_id: "cosmoshub-4".to_string(), trust_threshold_pct: 67, trusting_period: 3600, latest_height: 0, total_voting_power: 100 }
}

fn signed(cs: &IbcConsensusState, seed: u8, power: u64) -> (Vec<TendermintValidator>, Vec<[u8; 64]>) {
    let sk = SigningKey::from_bytes(&[seed; 32]);
    let digest = sha256(&serialize_header(cs));
    let sig = sk.sign(&digest).to_bytes();
    (vec![TendermintValidator { pubkey: sk.verifying_key().to_bytes(), voting_power: power }], vec![sig])
}

#[test]
fn test_full_ibc_price_flow() {
    let mut ibc = IbcOracle::new(ADMIN);
    ibc.update_light_client(ADMIN, client_state()).unwrap();
    ibc.register_ibc_asset_mapping(ADMIN, "ibc/TESTDENOM".to_string(), ASSET, &vec![ASSET]).unwrap();
    let packet = IbcPricePacket {
        denom: "ibc/TESTDENOM".to_string(),
        price: 12_500_000,
        decimals: 6,
        timestamp: 1_000,
        revision_height: 42,
        sequence: 1,
    };
    let leaf = merkle_leaf_hash(&serialize_packet(&packet));
    let sibling = [7u8; 32];
    let root = merkle_node_hash(&leaf, &sibling);
    let cs = IbcConsensusState { revision_number: 1, revision_height: 42, app_hash: root, next_validators_hash: [0u8; 32], timestamp: 900 };
    let (vals, sigs) = signed(&cs, 1, 100);
    ibc.submit_consensus_state(ADMIN, cs, &vals, &sigs).unwrap();
    assert_eq!(ibc.get_light_client().unwrap().latest_height, 42);
    ibc.verify_and_submit_price(&packet, &vec![sibling], 0, 1_000, 7).unwrap();
    let stored = ibc.get_ibc_price(&"ibc/TESTDENOM".to_string()).unwrap();
    assert_eq!(stored.price, 125_000_000);
    assert_eq!(stored.asset, ASSET);
}

#[test]
fn test_quorum_not_met_rejected() {
    let mut ibc = IbcOracle::new(ADMIN);
    ibc.update_light_client(ADMIN, client_state()).unwrap();
    let cs = IbcConsensusState { revision_number: 1, revision_height: 1, app_hash: [1u8; 32], next_validators_hash: [0u8; 32], timestamp: 900 };
    let (vals, sigs) = signed(&cs, 2, 30);
    // The signer holds 30 of the set's 100 voting power, below the 67% threshold.
    assert_eq!(ibc.submit_consensus_state(ADMIN, cs, &vals, &sigs), Err(ErrorCode::IbcQuorumNotMet));
    assert!(ibc.get_consensus_state(1).is_none());
    assert_eq!(ibc.get_light_client().unwrap().latest_height, 0);
    // An empty validator set never reaches the quorum.
    assert_eq!(ibc.submit_consensus_state(ADMIN, cs, &vec![], &vec![]), Err(ErrorCode::IbcQuorumNotMet));
    // Validators and signatures must pair up.
    let (vals, _) = signed(&cs, 2, 30);
    assert_eq!(ibc.submit_consensus_state(ADMIN, cs, &vals, &vec![sigs[0], sigs[0]]), Err(ErrorCode::IbcQuorumNotMet));
    assert!(ibc.get_consensus_state(1).is_none());
}

#[test]
fn ibc_bad_signature_refused() {
    let mut ibc = IbcOracle::new(ADMIN);
    ibc.update_light_client(ADMIN, client_state()).unwrap();
    let cs = IbcConsensusState { revision_number: 1, revision_height: 5, app_hash: [1u8; 32], next_validators_hash: [0u8; 32], timestamp: 900 };
    let (vals, mut sigs) = signed(&cs, 3, 100);
    sigs[0][0] ^= 1;
    // An invalid signature aborts the whole invocation.
    assert_eq!(ibc.try_submit_consensus_state(ADMIN, cs, &vals, &sigs), None);
    assert!(ibc.get_consensus_state(5).is_none());
    assert_eq!(ibc.get_light_client().unwrap().latest_height, 0);
    // Checks made before the signatures still answer with their error.
    assert_eq!(ibc.try_submit_consensus_state(SOURCE, cs, &vals, &sigs), Some(Err(ErrorCode::NotAuthorized)));
    assert_eq!(ibc.try_submit_consensus_state(ADMIN, cs, &vals, &vec![sigs[0], sigs[0]]), Some(Err(ErrorCode::IbcQuorumNotMet)));
    // A bad signature further down the list aborts just the same.
    let (v1, s1) = signed(&cs, 3, 60);
    let (v2, mut s2) = signed(&cs, 4, 40);
    s2[0][10] ^= 2;
    assert_eq!(ibc.try_submit_consensus_state(ADMIN, cs, &vec![v1[0], v2[0]], &vec![s1[0], s2[0]]), None);
    assert!(ibc.get_consensus_state(5).is_none());
    let (vals, sigs) = signed(&cs, 3, 100);
    assert_eq!(ibc.try_submit_consensus_state(ADMIN, cs, &vals, &sigs), Some(Ok(())));
    assert!(ibc.get_consensus_state(5).is_some());
    assert_eq!(ibc.get_light_client().unwrap().latest_height, 5);
}

#[test]
fn test_replayed_sequence_rejected() {
    let mut ibc = IbcOracle::new(ADMIN);
    ibc.update_light_client(ADMIN, client_state()).unwrap();
    ibc.register_ibc_asset_mapping(ADMIN, "ibc/TESTDENOM".to_string(), ASSET, &vec![ASSET]).unwrap();
    let packet = IbcPricePacket {
        denom: "ibc/TESTDENOM".to_string(),
        price: 1_000_000,
        decimals: 6,
        timestamp: 1_000,
        revision_height: 10,
        sequence: 5,
    };
    let leaf = merkle_leaf_hash(&serialize_packet(&packet));
    let sibling = [9u8; 32];
    let root = merkle_node_hash(&leaf, &sibling);
    let cs = IbcConsensusState { revision_number: 1, revision_height: 10, app_hash: root, next_validators_hash: [0u8; 32], timestamp: 900 };
    let (vals, sigs) = signed(&cs, 3, 100);
    ibc.submit_consensus_state(ADMIN, cs, &vals, &sigs).unwrap();
    ibc.verify_and_submit_price(&packet, &vec![sibling], 0, 1_000, 7).unwrap();
    assert_eq!(ibc.verify_and_submit_price(&packet, &vec![sibling], 0, 1_000, 7), Err(ErrorCode::IbcPacketReplayed));
}

#[test]
fn ibc_packet_errors() {
    let mut ibc = IbcOracle::new(ADMIN);
    let packet = IbcPricePacket { denom: "ibc/X".to_string(), price: 5, decimals: 7, timestamp: 1, revision_height: 3, sequence: 1 };
    assert_eq!(ibc.verify_and_submit_price(&packet, &vec![[0u8; 32]], 0, 10, 7), Err(ErrorCode::IbcDenomNotMapped));
    ibc.register_ibc_asset_mapping(ADMIN, "ibc/X".to_string(), ASSET, &vec![ASSET]).unwrap();
    assert_eq!(ibc.verify_and_submit_price(&packet, &vec![[0u8; 32]], 0, 10, 7), Err(ErrorCode::IbcClientNotSet));
    ibc.update_light_client(ADMIN, client_state()).unwrap();
    assert_eq!(ibc.verify_and_submit_price(&packet, &vec![[0u8; 32]], 0, 10, 7), Err(ErrorCode::IbcConsensusStateNotFound));
    let cs = IbcConsensusState { revision_number: 1, revision_height: 3, app_hash: [5u8; 32], next_validators_hash: [0u8; 32], timestamp: 100 };
    let (vals, sigs) = signed(&cs, 4, 100);
    ibc.submit_consensus_state(ADMIN, cs, &vals, &sigs).unwrap();
    assert_eq!(ibc.verify_and_submit_price(&packet, &vec![[0u8; 32]], 0, 100 + 3601, 7), Err(ErrorCode::IbcClientExpired));
    assert_eq!(ibc.verify_and_submit_price(&packet, &vec![], 0, 200, 7), Err(ErrorCode::IbcInvalidProof));
    assert_eq!(ibc.verify_and_submit_price(&packet, &vec![[0u8; 32]], 0, 200, 7), Err(ErrorCode::IbcInvalidProof));
    let bad = IbcPricePacket { denom: "ibc/X".to_string(), price: 0, decimals: 7, timestamp: 1, revision_height: 3, sequence: 1 };
    assert_eq!(ibc.verify_and_submit_price(&bad, &vec![[0u8; 32]], 0, 200, 7), Err(ErrorCode::InvalidPrice));
}

#[test]
fn ibc_client_configuration() {
    let mut ibc = IbcOracle::new(ADMIN);
    assert_eq!(ibc.update_light_client(2, client_state()), Err(ErrorCode::NotAuthorized));
    let mut bad = client_state();
    bad.trust_threshold_pct = 0;
    assert_eq!(ibc.update_light_client(ADMIN, bad), Err(ErrorCode::InvalidConfiguration));
    let mut bad = client_state();
    bad.trust_threshold_pct = 101;
    assert_eq!(ibc.update_light_client(ADMIN, bad), Err(ErrorCode::InvalidConfiguration));
    assert!(ibc.get_light_client().is_none());
    assert_eq!(ibc.register_ibc_asset_mapping(ADMIN, "ibc/Y".to_string(), 5, &vec![ASSET]), Err(ErrorCode::AssetNotRegistered));
    assert_eq!(ibc.get_ibc_asset(&"ibc/Y".to_string()), None);
}

#[test]
fn normalize_decimals_examples() {
    assert_eq!(normalize_decimals(12_500_000, 6, 7), 125_000_000);
    assert_eq!(normalize_decimals(125_000_009, 7, 6), 12_500_000);
    assert_eq!(normalize_decimals(-125_000_009, 7, 6), -12_500_000);
    assert_eq!(normalize_decimals(42, 7, 7), 42);
    assert_eq!(normalize_decimals(i128::MAX / 2, 0, 18), i128::MAX);
    assert_eq!(normalize_decimals(i128::MIN / 2, 0, 18), i128::MIN);
    // round trip without saturation
    assert_eq!(normalize_decimals(normalize_decimals(-31, 2, 9), 9, 2), -31);
    assert_eq!(normalize_decimals(-1999, 3, 0), -1);
    assert_eq!(normalize_decimals(1999, 3, 0), 1);
    assert_eq!(normalize_decimals(-1999, 3, 3), -1999);
}

#[test]
fn merkle_hashes_use_the_documented_prefixes() {
    let data = vec![1u8, 2, 3];
    let mut pre = vec![0u8];
    pre.extend_from_slice(&data);
    assert_eq!(merkle_leaf_hash(&data), sha256(&pre));
    let l = [3u8; 32];
    let r = [4u8; 32];
    let mut node = vec![1u8];
    node.extend_from_slice(&l);
    node.extend_from_slice(&r);
    assert_eq!(merkle_node_hash(&l, &r), sha256(&node));
    assert_ne!(merkle_node_hash(&l, &r), merkle_node_hash(&r, &l));
}

fn leaf_digest(leaf: &MerkleLeaf) -> [u8; 32] {
    let mut b = leaf.price.to_le_bytes().to_vec();
    b.extend_from_slice(&leaf.timestamp.to_le_bytes());
    sha256(&b)
}

fn pair(l: &[u8; 32], r: &[u8; 32]) -> [u8; 32] {
    let mut b = l.to_vec();
    b.extend_from_slice(r);
    sha256(&b)
}

#[test]
fn merkle_batch_is_stored_and_aggregated() {
    let mut c = oracle();
    c.add_source(ADMIN, 11).unwrap();
    let now = LedgerInfo { sequence: 100, timestamp: 1_000 };
    let a = MerkleLeaf { source: SOURCE, asset: ASSET, price: 1_000, timestamp: 990 };
    let b = MerkleLeaf { source: 11, asset: ASSET, price: 1_200, timestamp: 990 };
    let (da, db) = (leaf_digest(&a), leaf_digest(&b));
    let root = pair(&da, &db);
    let proofs = vec![
        MerkleProof { leaf: a, siblings: vec![db], left_bitmap: 0 },
        MerkleProof { leaf: b, siblings: vec![da], left_bitmap: 1 },
    ];
    c.submit_price_merkle(SOURCE, root, &proofs, now).unwrap();
    assert_eq!(c.get_source_price(ASSET, 11).unwrap().price, 1_200);
    assert_eq!(c.get_price(ASSET, 0, now).unwrap().unwrap().price, 1_100);
}

#[test]
fn merkle_batch_refused_as_a_whole() {
    let mut c = oracle();
    let now = LedgerInfo { sequence: 100, timestamp: 1_000 };
    let a = MerkleLeaf { source: SOURCE, asset: ASSET, price: 1_000, timestamp: 990 };
    let root = leaf_digest(&a);
    let good = MerkleProof { leaf: a, siblings: vec![], left_bitmap: 0 };
    let wrong_root = MerkleProof { leaf: MerkleLeaf { price: 5, ..a }, siblings: vec![], left_bitmap: 0 };
    assert_eq!(c.submit_price_merkle(SOURCE, root, &vec![good, wrong_root], now), Err(ErrorCode::InvalidConfiguration));
    assert!(c.get_source_price(ASSET, SOURCE).is_err());
    let late = MerkleLeaf { timestamp: 5_000, ..a };
    let late_root = leaf_digest(&late);
    assert_eq!(
        c.submit_price_merkle(SOURCE, late_root, &vec![MerkleProof { leaf: late, siblings: vec![], left_bitmap: 0 }], now),
        Err(ErrorCode::InvalidTimestamp)
    );
    assert_eq!(c.submit_price_merkle(99, root, &vec![], now), Err(ErrorCode::NotAuthorized));
}
