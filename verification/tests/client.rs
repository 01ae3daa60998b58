use ed25519_dalek::Signer;
use near_light_client::near_types::hash::CryptoHash;
use near_light_client::near_types::merkle::merklize;
use near_light_client::near_types::signature::{ED25519PublicKey, PublicKey, Signature};
use near_light_client::near_types::{
    BlockHeaderInnerLite, EpochId, LightClientBlock, ValidatorStakeView, ValidatorStakeViewV1,
};
use near_light_client::types::{ConsensusState, Header};
use near_light_client::{
    verify_header, verify_membership, verify_non_membership, BasicNearLightClient,
    HeaderDecision, HeaderVerificationError, HostError, LightClient,
    StateProofVerificationError,
};

fn hash(byte: u8) -> CryptoHash {
    CryptoHash([byte; 32])
}

fn keypair(seed: u8) -> ed25519_dalek::Keypair {
    let secret = ed25519_dalek::SecretKey::from_bytes(&[seed; 32]).unwrap();
    let public = ed25519_dalek::PublicKey::from(&secret);
    ed25519_dalek::Keypair { secret, public }
}

fn producers(seeds: &[u8]) -> Vec<ValidatorStakeView> {
    seeds
        .iter()
        .map(|seed| {
            ValidatorStakeView::V1(ValidatorStakeViewV1 {
                account_id: format!("bp{}.near", seed),
                public_key: PublicKey::ED25519(ED25519PublicKey(keypair(*seed).public.to_bytes())),
                stake: 10,
            })
        })
        .collect()
}

const EPOCH_1: u8 = 0xe1;
const EPOCH_2: u8 = 0xe2;
const EPOCH_3: u8 = 0xe3;

/// A header at `height` in `epoch`, signed by the keys of `signers`.
fn header(
    height: u64,
    epoch: u8,
    next_epoch: u8,
    next_bps: Option<Vec<ValidatorStakeView>>,
    signers: &[u8],
) -> Header {
    let chunks = vec![hash(0x51), hash(0x52)];
    let next_bp_hash = match &next_bps {
        Some(list) => CryptoHash::hash_borsh(list),
        None => hash(0),
    };
    let mut block = LightClientBlock {
        prev_block_hash: hash(0x11),
        next_block_inner_hash: hash(0x12),
        inner_lite: BlockHeaderInnerLite {
            height,
            epoch_id: EpochId(hash(epoch)),
            next_epoch_id: EpochId(hash(next_epoch)),
            prev_state_root: merklize(&chunks).0,
            outcome_root: hash(0x13),
            timestamp: height * 1_000_000_000,
            next_bp_hash,
            block_merkle_root: hash(0x14),
        },
        inner_rest_hash: hash(0x15),
        next_bps,
        approvals_after_next: vec![],
    };
    let message = block.approval_message();
    block.approvals_after_next = signers
        .iter()
        .map(|seed| Some(Signature::ED25519(keypair(*seed).sign(&message).to_bytes().to_vec())))
        .collect();
    Header { light_client_block: block, prev_state_root_of_chunks: chunks }
}

/// The state from which the tests start: height 100 in epoch 1 with the producers 1, 2,
/// 3, naming 4, 5, 6 for epoch 2.
fn anchor() -> ConsensusState {
    ConsensusState {
        current_bps: Some(producers(&[1, 2, 3])),
        header: header(100, EPOCH_1, EPOCH_2, Some(producers(&[4, 5, 6])), &[]),
    }
}

fn state_at(height: u64) -> ConsensusState {
    ConsensusState { current_bps: None, header: header(height, EPOCH_1, EPOCH_2, None, &[]) }
}

fn started(limit: u64) -> LightClient {
    let mut client = LightClient::new(limit);
    client.set_consensus_state(&100, anchor());
    client
}

#[test]
fn new_client_keeps_nothing() {
    let client = LightClient::new(10);
    assert_eq!(client.latest_height(), 0);
    assert_eq!(client.oldest_height(), None);
    assert_eq!(client.cached_heights(), Vec::<u64>::new());
    assert_eq!(client.get_consensus_state(&0), None);
    assert_eq!(client.latest_consensus_state(), Err(HostError::UninitializedClient));
    assert_eq!(
        client.consensus_state_at(5),
        Err(HostError::MissingHeadAtHeight { height: 5 })
    );
}

#[test]
fn states_are_kept_by_height_in_order() {
    let mut client = LightClient::new(10);
    for height in [30u64, 10, 20, 40, 15] {
        client.set_consensus_state(&height, state_at(height));
    }
    assert_eq!(client.cached_heights(), vec![10, 15, 20, 30, 40]);
    assert_eq!(client.latest_height(), 40);
    assert_eq!(client.oldest_height(), Some(10));
    assert_eq!(client.get_consensus_state(&20), Some(state_at(20)));
    assert_eq!(client.get_consensus_state(&21), None);
    assert_eq!(client.consensus_state_at(15), Ok(state_at(15)));
    assert_eq!(client.latest_consensus_state(), Ok(state_at(40)));
}

#[test]
fn installing_the_same_state_again_changes_nothing() {
    let mut client = LightClient::new(10);
    client.set_consensus_state(&10, state_at(10));
    client.set_consensus_state(&20, state_at(20));
    let heights = client.cached_heights();
    client.set_consensus_state(&20, state_at(20));
    assert_eq!(client.cached_heights(), heights);
    assert_eq!(client.latest_height(), 20);
    assert_eq!(client.get_consensus_state(&20), Some(state_at(20)));
    assert_eq!(client.get_consensus_state(&10), Some(state_at(10)));
}

#[test]
fn installing_at_a_height_replaces_what_was_there() {
    let mut client = LightClient::new(10);
    client.set_consensus_state(&10, state_at(10));
    client.set_consensus_state(&10, state_at(11));
    assert_eq!(client.cached_heights(), vec![10]);
    assert_eq!(client.get_consensus_state(&10), Some(state_at(11)));
}

#[test]
fn eviction_drops_the_oldest_and_never_the_latest() {
    let mut client = LightClient::new(10);
    for height in [10u64, 20, 30] {
        client.set_consensus_state(&height, state_at(height));
    }
    client.evict_oldest();
    assert_eq!(client.cached_heights(), vec![20, 30]);
    assert_eq!(client.get_consensus_state(&10), None);
    client.evict_oldest();
    assert_eq!(client.cached_heights(), vec![30]);
    client.evict_oldest();
    assert_eq!(client.cached_heights(), vec![30]);
    assert_eq!(client.latest_height(), 30);
    let mut empty = LightClient::new(10);
    empty.evict_oldest();
    assert_eq!(empty.cached_heights(), Vec::<u64>::new());
}

#[test]
fn limit_is_met_by_dropping_the_oldest() {
    let mut client = LightClient::new(3);
    for height in [10u64, 20, 30, 40, 50] {
        client.set_consensus_state(&height, state_at(height));
    }
    client.enforce_limit();
    assert_eq!(client.cached_heights(), vec![30, 40, 50]);
    assert_eq!(client.get_consensus_state(&20), None);
    assert_eq!(client.get_consensus_state(&30), Some(state_at(30)));
    client.enforce_limit();
    assert_eq!(client.cached_heights(), vec![30, 40, 50]);
}

#[test]
fn limit_of_zero_still_keeps_the_latest() {
    let mut client = LightClient::new(0);
    for height in [10u64, 20, 30] {
        client.set_consensus_state(&height, state_at(height));
    }
    client.enforce_limit();
    assert_eq!(client.cached_heights(), vec![30]);
}

#[test]
fn header_is_checked_against_the_latest_state() {
    let client = started(10);
    let good = header(120, EPOCH_1, EPOCH_2, None, &[1, 2, 3]);
    assert_eq!(verify_header(&client, &good), Ok(Ok(())));
    let low = header(100, EPOCH_1, EPOCH_2, None, &[1, 2, 3]);
    assert_eq!(
        verify_header(&client, &low),
        Ok(Err(HeaderVerificationError::InvalidBlockHeight))
    );
    assert_eq!(
        verify_header(&LightClient::new(1), &good),
        Err(HostError::UninitializedClient)
    );
}

#[test]
fn installed_header_carries_the_producers_of_its_epoch_forward() {
    let mut client = started(10);
    let same_epoch = header(120, EPOCH_1, EPOCH_2, None, &[1, 2, 3]);
    assert_eq!(client.update_state(same_epoch.clone()), Ok(()));
    assert_eq!(client.cached_heights(), vec![100, 120]);
    assert_eq!(
        client.get_consensus_state(&120),
        Some(ConsensusState { current_bps: Some(producers(&[1, 2, 3])), header: same_epoch })
    );
}

#[test]
fn installed_header_of_the_next_epoch_takes_the_producers_that_were_named() {
    let mut client = started(10);
    let next_epoch = header(130, EPOCH_2, EPOCH_3, Some(producers(&[7, 8])), &[4, 5, 6]);
    assert_eq!(client.update_state(next_epoch.clone()), Ok(()));
    assert_eq!(
        client.get_consensus_state(&130),
        Some(ConsensusState { current_bps: Some(producers(&[4, 5, 6])), header: next_epoch })
    );
    // a header of an epoch that the latest state does not know gets no producers
    let unknown = header(140, 0x77, 0x78, None, &[]);
    assert_eq!(client.update_state(unknown.clone()), Ok(()));
    assert_eq!(
        client.get_consensus_state(&140),
        Some(ConsensusState { current_bps: None, header: unknown })
    );
}

#[test]
fn installing_keeps_the_limit() {
    let mut client = started(2);
    assert_eq!(client.update_state(header(110, EPOCH_1, EPOCH_2, None, &[])), Ok(()));
    assert_eq!(client.update_state(header(120, EPOCH_1, EPOCH_2, None, &[])), Ok(()));
    assert_eq!(client.cached_heights(), vec![110, 120]);
    assert_eq!(client.get_consensus_state(&100), None);
}

#[test]
fn client_without_a_state_installs_nothing() {
    let mut client = LightClient::new(5);
    assert_eq!(
        client.update_state(header(110, EPOCH_1, EPOCH_2, None, &[])),
        Err(HostError::UninitializedClient)
    );
    assert_eq!(
        client.offer_header(header(110, EPOCH_1, EPOCH_2, None, &[1, 2, 3])),
        Err(HostError::UninitializedClient)
    );
    assert_eq!(client.cached_heights(), Vec::<u64>::new());
}

#[test]
fn offered_header_that_passes_is_installed() {
    let mut client = started(10);
    let good = header(120, EPOCH_1, EPOCH_2, None, &[1, 2, 3]);
    assert_eq!(client.offer_header(good), Ok(HeaderDecision::Installed));
    assert_eq!(client.latest_height(), 120);
    // the next header is checked against the one just installed, which names no
    // producers for the epoch after its own
    let next = header(130, EPOCH_2, EPOCH_3, Some(producers(&[7, 8])), &[4, 5, 6]);
    assert_eq!(
        client.offer_header(next),
        Ok(HeaderDecision::Rejected(HeaderVerificationError::MissingCachedEpochBlockProducers {
            epoch_id: hash(EPOCH_2)
        }))
    );
    let next = header(130, EPOCH_1, EPOCH_2, None, &[1, 2, 3]);
    assert_eq!(client.offer_header(next), Ok(HeaderDecision::Installed));
    assert_eq!(client.cached_heights(), vec![100, 120, 130]);
}

#[test]
fn offered_header_that_fails_is_not_kept() {
    let mut client = started(10);
    let mut unsigned = header(120, EPOCH_1, EPOCH_2, None, &[1]);
    unsigned.light_client_block.approvals_after_next.push(None);
    unsigned.light_client_block.approvals_after_next.push(None);
    assert_eq!(
        client.offer_header(unsigned),
        Ok(HeaderDecision::Rejected(HeaderVerificationError::BlockIsNotFinal))
    );
    let old = header(100, EPOCH_1, EPOCH_2, None, &[1, 2, 3]);
    assert_eq!(
        client.offer_header(old),
        Ok(HeaderDecision::Rejected(HeaderVerificationError::InvalidBlockHeight))
    );
    assert_eq!(client.cached_heights(), vec![100]);
    assert_eq!(client.get_consensus_state(&100), Some(anchor()));
}

#[test]
fn headers_must_come_in_rising_order() {
    let mut client = started(10);
    assert_eq!(
        client.offer_header(header(130, EPOCH_1, EPOCH_2, None, &[1, 2, 3])),
        Ok(HeaderDecision::Installed)
    );
    assert_eq!(
        client.offer_header(header(120, EPOCH_1, EPOCH_2, None, &[1, 2, 3])),
        Ok(HeaderDecision::Rejected(HeaderVerificationError::InvalidBlockHeight))
    );
}

#[test]
fn state_proofs_are_checked_against_the_state_of_their_height() {
    let client = started(10);
    assert_eq!(
        verify_membership(&client, 100, b"key", b"value", &vec![]),
        Ok(Err(StateProofVerificationError::MissingProofData))
    );
    assert_eq!(
        verify_non_membership(&client, 100, b"key", &vec![vec![1u8, 2, 3]]),
        Ok(Err(StateProofVerificationError::InvalidRootHashOfProofData))
    );
    assert_eq!(
        verify_membership(&client, 99, b"key", b"value", &vec![]),
        Err(HostError::MissingHeadAtHeight { height: 99 })
    );
    assert_eq!(
        verify_non_membership(&client, 101, b"key", &vec![]),
        Err(HostError::MissingHeadAtHeight { height: 101 })
    );
}
