use near_light_client::near_types::hash::{sha256, CryptoHash};
use near_light_client::near_types::merkle::{merklize, Direction, MerklePathItem};
use near_light_client::near_types::transaction::{
    ExecutionOutcome, ExecutionOutcomeWithId, ExecutionStatus,
};
use near_light_client::near_types::trie::{RawTrieNode, RawTrieNodeWithSize};
use near_light_client::near_types::{
    get_raw_prefix_for_contract_data, BlockHeaderInnerLite, EpochId, LightClientBlock,
    LightClientBlockLite,
};
use near_light_client::types::{ConsensusState, Header};
use near_light_client::{StateProofVerificationError, TransactionVerificationError};

fn hash(byte: u8) -> CryptoHash {
    CryptoHash([byte; 32])
}

fn bytes_of(node: &RawTrieNodeWithSize) -> Vec<u8> {
    let mut out = Vec::new();
    node.encode_into(&mut out);
    out
}

fn inner_lite(height: u64) -> BlockHeaderInnerLite {
    BlockHeaderInnerLite {
        height,
        epoch_id: EpochId(hash(1)),
        next_epoch_id: EpochId(hash(2)),
        prev_state_root: hash(3),
        outcome_root: hash(4),
        timestamp: 5,
        next_bp_hash: hash(6),
        block_merkle_root: hash(7),
    }
}

fn state_with(chunks: Vec<CryptoHash>, block_merkle_root: CryptoHash) -> ConsensusState {
    let mut inner = inner_lite(100);
    inner.block_merkle_root = block_merkle_root;
    ConsensusState {
        current_bps: None,
        header: Header {
            light_client_block: LightClientBlock {
                prev_block_hash: hash(8),
                next_block_inner_hash: hash(9),
                inner_lite: inner,
                inner_rest_hash: hash(10),
                next_bps: None,
                approvals_after_next: vec![],
            },
            prev_state_root_of_chunks: chunks,
        },
    }
}

/// Proof nodes for the key of `key` in the contract of `account`: a branch at the first
/// nibble that leads to a leaf with the rest of the key.
fn proof_of(storage_key: &[u8], value: &[u8]) -> Vec<Vec<u8>> {
    let first = storage_key[0] >> 4;
    let mut leaf_key = vec![0x30 | (storage_key[0] & 15)];
    leaf_key.extend_from_slice(&storage_key[1..]);
    let leaf = RawTrieNodeWithSize::new(
        RawTrieNode::Leaf(leaf_key, value.len() as u32, CryptoHash(sha256(value))),
        1,
    );
    let mut children = [None; 16];
    children[first as usize] = Some(leaf.hash());
    let branch = RawTrieNodeWithSize::new(RawTrieNode::Branch(children, None), 2);
    vec![bytes_of(&branch), bytes_of(&leaf)]
}

#[test]
fn membership_is_shown_against_a_chunk_root() {
    let key = get_raw_prefix_for_contract_data(&"app.near".to_string(), b"counter");
    let proofs = proof_of(&key, b"42");
    let root = CryptoHash(sha256(&proofs[0]));
    let state = state_with(vec![hash(1), root, hash(2)], hash(7));
    assert_eq!(state.verify_membership(&key, b"42", &proofs), Ok(()));
    assert_eq!(
        state.verify_membership(&key, b"43", &proofs),
        Err(StateProofVerificationError::InvalidProofData { proof_index: 1 })
    );
    assert_eq!(
        state.verify_non_membership(&key, &proofs),
        Err(StateProofVerificationError::SpecifiedKeyHasValueInState)
    );
}

#[test]
fn non_membership_is_shown_against_a_chunk_root() {
    let key = get_raw_prefix_for_contract_data(&"app.near".to_string(), b"counter");
    let other = get_raw_prefix_for_contract_data(&"app.near".to_string(), b"missing");
    let proofs = proof_of(&key, b"42");
    let root = CryptoHash(sha256(&proofs[0]));
    let state = state_with(vec![root], hash(7));
    assert_eq!(state.verify_non_membership(&other, &proofs), Ok(()));
    assert_eq!(
        state.verify_membership(&other, b"42", &proofs),
        Err(StateProofVerificationError::InvalidProofData { proof_index: 1 })
    );
    // a key that leaves the trie at the branch needs the branch only
    let elsewhere = [0xf0u8, 1];
    assert_eq!(state.verify_non_membership(&elsewhere, &proofs[..1].to_vec()), Ok(()));
}

#[test]
fn no_proof_is_missing_proof_data() {
    let state = state_with(vec![hash(1)], hash(7));
    assert_eq!(
        state.verify_membership(b"k", b"v", &vec![]),
        Err(StateProofVerificationError::MissingProofData)
    );
    assert_eq!(
        state.verify_non_membership(b"k", &vec![]),
        Err(StateProofVerificationError::MissingProofData)
    );
}

#[test]
fn proof_that_begins_at_no_chunk_root_is_rejected() {
    let key = get_raw_prefix_for_contract_data(&"app.near".to_string(), b"counter");
    let proofs = proof_of(&key, b"42");
    let state = state_with(vec![hash(1), hash(2)], hash(7));
    assert_eq!(
        state.verify_membership(&key, b"42", &proofs),
        Err(StateProofVerificationError::InvalidRootHashOfProofData)
    );
    assert_eq!(
        state.verify_non_membership(&key, &proofs),
        Err(StateProofVerificationError::InvalidRootHashOfProofData)
    );
    let no_chunks = state_with(vec![], hash(7));
    assert_eq!(
        no_chunks.verify_membership(&key, b"42", &proofs),
        Err(StateProofVerificationError::InvalidRootHashOfProofData)
    );
}

#[test]
fn proof_that_is_no_node_is_rejected_with_its_index() {
    let key = get_raw_prefix_for_contract_data(&"app.near".to_string(), b"counter");
    let mut proofs = proof_of(&key, b"42");
    let root = CryptoHash(sha256(&proofs[0]));
    let state = state_with(vec![root], hash(7));
    proofs.push(vec![9u8; 20]);
    // the walk would end at the leaf, but every proof is decoded first
    assert_eq!(
        state.verify_membership(&key, b"42", &proofs),
        Err(StateProofVerificationError::InvalidProofData { proof_index: 2 })
    );
    proofs[1] = vec![];
    assert_eq!(
        state.verify_non_membership(&key, &proofs),
        Err(StateProofVerificationError::InvalidProofData { proof_index: 1 })
    );
    let junk = vec![vec![0xffu8; 40]];
    let state = state_with(vec![CryptoHash(sha256(&junk[0]))], hash(7));
    assert_eq!(
        state.verify_membership(&key, b"42", &junk),
        Err(StateProofVerificationError::InvalidProofData { proof_index: 0 })
    );
}

#[test]
fn proof_that_ends_early_is_rejected_for_its_length() {
    let key = get_raw_prefix_for_contract_data(&"app.near".to_string(), b"counter");
    let proofs = proof_of(&key, b"42");
    let root = CryptoHash(sha256(&proofs[0]));
    let state = state_with(vec![root], hash(7));
    assert_eq!(
        state.verify_membership(&key, b"42", &proofs[..1].to_vec()),
        Err(StateProofVerificationError::InvalidProofDataLength)
    );
    assert_eq!(
        state.verify_non_membership(&key, &proofs[..1].to_vec()),
        Err(StateProofVerificationError::InvalidProofDataLength)
    );
}

fn outcome() -> ExecutionOutcomeWithId {
    ExecutionOutcomeWithId {
        id: hash(0x21),
        outcome: ExecutionOutcome {
            logs: vec!["transfer done".to_string(), "ok".to_string()],
            receipt_ids: vec![hash(0x22)],
            gas_burnt: 2_427_992_549_888,
            tokens_burnt: 242_799_254_988_800_000_000,
            executor_id: "app.near".to_string(),
            status: ExecutionStatus::SuccessValue(vec![1, 2, 3]),
        },
    }
}

struct Bundle {
    state: ConsensusState,
    outcome_proof: Vec<MerklePathItem>,
    outcome_root_proof: Vec<MerklePathItem>,
    block: LightClientBlockLite,
    block_proof: Vec<MerklePathItem>,
}

/// An outcome that is the second of three in its chunk, in the first of two chunks, in
/// a block that is the third of four that the trusted header commits to.
fn bundle() -> Bundle {
    let hashes = outcome().to_hashes();
    let outcomes = vec![vec![hash(0x31)], hashes, vec![hash(0x32), hash(0x33)]];
    let (chunk_root, outcome_paths) = merklize(&outcomes);
    let (outcome_root, chunk_paths) = merklize(&[chunk_root, hash(0x34)]);
    let mut inner = inner_lite(90);
    inner.outcome_root = outcome_root;
    let block = LightClientBlockLite {
        inner_lite: inner,
        inner_rest_hash: hash(0x35),
        prev_block_hash: hash(0x36),
    };
    // the tree of blocks is over block hashes themselves, so it is walked by hand
    let sibling = hash(0x37);
    let left = hash(0x38);
    let block_proof = vec![
        MerklePathItem { hash: sibling, direction: Direction::Right },
        MerklePathItem { hash: left, direction: Direction::Left },
    ];
    let block_root = near_light_client::near_types::merkle::compute_root_from_path(
        &block_proof,
        block.current_block_hash(),
    );
    Bundle {
        state: state_with(vec![], block_root),
        outcome_proof: outcome_paths[1].clone(),
        outcome_root_proof: chunk_paths[0].clone(),
        block,
        block_proof,
    }
}

#[test]
fn outcome_hashes_are_id_outcome_and_logs() {
    let hashes = outcome().to_hashes();
    assert_eq!(hashes.len(), 4);
    assert_eq!(hashes[0], hash(0x21));
    let partial = borsh::to_vec(&(
        vec![[0x22u8; 32]],
        2_427_992_549_888u64,
        242_799_254_988_800_000_000u128,
        "app.near".to_string(),
        2u8,
        vec![1u8, 2, 3],
    ))
    .unwrap();
    assert_eq!(hashes[1].0, sha256(&partial));
    assert_eq!(hashes[2].0, sha256(b"transfer done"));
    assert_eq!(hashes[3].0, sha256(b"ok"));
}

#[test]
fn outcome_hash_keeps_only_the_kind_of_a_failure() {
    let mut failed = outcome();
    failed.outcome.status = ExecutionStatus::Failure;
    failed.outcome.logs = vec![];
    let hashes = failed.to_hashes();
    assert_eq!(hashes.len(), 2);
    let partial = borsh::to_vec(&(
        vec![[0x22u8; 32]],
        2_427_992_549_888u64,
        242_799_254_988_800_000_000u128,
        "app.near".to_string(),
        1u8,
    ))
    .unwrap();
    assert_eq!(hashes[1].0, sha256(&partial));
    let mut unknown = outcome();
    unknown.outcome.status = ExecutionStatus::Unknown;
    let mut receipt = outcome();
    receipt.outcome.status = ExecutionStatus::SuccessReceiptId(hash(0x44));
    assert_ne!(unknown.to_hashes()[1], receipt.to_hashes()[1]);
    assert!(outcome().outcome.is_encodable());
}

#[test]
fn outcome_in_a_block_of_the_chain_is_accepted() {
    let b = bundle();
    assert_eq!(
        b.state.verify_transaction_or_receipt(
            &outcome(),
            &b.outcome_proof,
            &b.outcome_root_proof,
            &b.block,
            &b.block_proof
        ),
        Ok(())
    );
}

#[test]
fn tampered_outcome_proof_is_rejected() {
    let b = bundle();
    let mut tampered = b.outcome_proof.clone();
    tampered[0].hash = hash(0x99);
    assert_eq!(
        b.state.verify_transaction_or_receipt(
            &outcome(),
            &tampered,
            &b.outcome_root_proof,
            &b.block,
            &b.block_proof
        ),
        Err(TransactionVerificationError::InvalidOutcomeProof)
    );
    let mut other = outcome();
    other.outcome.gas_burnt += 1;
    assert_eq!(
        b.state.verify_transaction_or_receipt(
            &other,
            &b.outcome_proof,
            &b.outcome_root_proof,
            &b.block,
            &b.block_proof
        ),
        Err(TransactionVerificationError::InvalidOutcomeProof)
    );
    let mut wrong_side = b.outcome_root_proof.clone();
    wrong_side[0].direction = Direction::Left;
    assert_eq!(
        b.state.verify_transaction_or_receipt(
            &outcome(),
            &b.outcome_proof,
            &wrong_side,
            &b.block,
            &b.block_proof
        ),
        Err(TransactionVerificationError::InvalidOutcomeProof)
    );
}

#[test]
fn block_that_is_not_of_the_chain_is_rejected() {
    let b = bundle();
    let mut tampered = b.block_proof.clone();
    tampered[1].hash = hash(0x98);
    assert_eq!(
        b.state.verify_transaction_or_receipt(
            &outcome(),
            &b.outcome_proof,
            &b.outcome_root_proof,
            &b.block,
            &tampered
        ),
        Err(TransactionVerificationError::InvalidBlockProof)
    );
    let other_chain = state_with(vec![], hash(0x97));
    assert_eq!(
        other_chain.verify_transaction_or_receipt(
            &outcome(),
            &b.outcome_proof,
            &b.outcome_root_proof,
            &b.block,
            &b.block_proof
        ),
        Err(TransactionVerificationError::InvalidBlockProof)
    );
}
