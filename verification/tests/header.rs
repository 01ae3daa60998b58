use ed25519_dalek::Signer;
use near_light_client::codec::encode;
use near_light_client::near_types::hash::{combine_hash, sha256, CryptoHash};
use near_light_client::near_types::merkle::merklize;
use near_light_client::near_types::signature::{ED25519PublicKey, PublicKey, Signature};
use near_light_client::near_types::{
    BlockHeaderInnerLite, EpochId, LightClientBlock, LightClientBlockLite, ValidatorStakeView,
    ValidatorStakeViewV1,
};
use near_light_client::types::{ConsensusState, Header};
use near_light_client::HeaderVerificationError;

fn hash(byte: u8) -> CryptoHash {
    CryptoHash([byte; 32])
}

fn keypair(seed: u8) -> ed25519_dalek::Keypair {
    let secret = ed25519_dalek::SecretKey::from_bytes(&[seed; 32]).unwrap();
    let public = ed25519_dalek::PublicKey::from(&secret);
    ed25519_dalek::Keypair { secret, public }
}

fn producer(seed: u8, stake: u128) -> ValidatorStakeView {
    ValidatorStakeView::V1(ValidatorStakeViewV1 {
        account_id: format!("bp{}.near", seed),
        public_key: PublicKey::ED25519(ED25519PublicKey(keypair(seed).public.to_bytes())),
        stake,
    })
}

fn producers(seeds: &[u8], stakes: &[u128]) -> Vec<ValidatorStakeView> {
    seeds.iter().zip(stakes.iter()).map(|(seed, stake)| producer(*seed, *stake)).collect()
}

const EPOCH_1: u8 = 0xe1;
const EPOCH_2: u8 = 0xe2;
const EPOCH_3: u8 = 0xe3;

/// A header at `height` in `epoch`, with no signature yet.
fn unsigned_header(
    height: u64,
    epoch: u8,
    next_epoch: u8,
    next_bps: Option<Vec<ValidatorStakeView>>,
) -> Header {
    let chunks = vec![hash(0x51), hash(0x52)];
    let next_bp_hash = match &next_bps {
        Some(list) => CryptoHash::hash_borsh(list),
        None => hash(0),
    };
    Header {
        light_client_block: LightClientBlock {
            prev_block_hash: hash(0x11),
            next_block_inner_hash: hash(0x12),
            inner_lite: BlockHeaderInnerLite {
                height,
                epoch_id: EpochId(hash(epoch)),
                next_epoch_id: EpochId(hash(next_epoch)),
                prev_state_root: merklize(&chunks).0,
                outcome_root: hash(0x13),
                timestamp: 1_700_000_000_000_000_000,
                next_bp_hash,
                block_merkle_root: hash(0x14),
            },
            inner_rest_hash: hash(0x15),
            next_bps,
            approvals_after_next: vec![],
        },
        prev_state_root_of_chunks: chunks,
    }
}

/// Signs `header` with the keys of `seeds`; a `None` leaves the place without signature.
fn sign(mut header: Header, seeds: &[Option<u8>]) -> Header {
    let message = header.light_client_block.approval_message();
    header.light_client_block.approvals_after_next = seeds
        .iter()
        .map(|seed| {
            seed.map(|seed| Signature::ED25519(keypair(seed).sign(&message).to_bytes().to_vec()))
        })
        .collect();
    header
}

/// The trusted state: height 100 in epoch 1, whose producers are 1, 2, 3 with the
/// stakes given, and which names the producers 4, 5, 6 for epoch 2.
fn trusted(stakes: &[u128]) -> ConsensusState {
    ConsensusState {
        current_bps: Some(producers(&[1, 2, 3], stakes)),
        header: unsigned_header(100, EPOCH_1, EPOCH_2, Some(producers(&[4, 5, 6], &[1, 1, 1]))),
    }
}

#[test]
fn approval_message_endorses_the_next_block_two_heights_on() {
    let header = unsigned_header(120, EPOCH_1, EPOCH_2, None);
    let block = &header.light_client_block;
    let inner_hash = CryptoHash(sha256(&encode(&block.inner_lite)));
    let current = combine_hash(&combine_hash(&inner_hash, &block.inner_rest_hash), &block.prev_block_hash);
    assert_eq!(block.current_block_hash(), current);
    let next = combine_hash(&block.next_block_inner_hash, &current);
    assert_eq!(block.next_block_hash(), next);
    let mut expected = vec![0u8];
    expected.extend_from_slice(&next.0);
    expected.extend_from_slice(&122u64.to_le_bytes());
    assert_eq!(block.approval_message(), expected);
}

#[test]
fn lite_block_has_the_hash_of_the_block() {
    let header = unsigned_header(120, EPOCH_1, EPOCH_2, None);
    let block = &header.light_client_block;
    let lite = LightClientBlockLite {
        inner_lite: block.inner_lite,
        inner_rest_hash: block.inner_rest_hash,
        prev_block_hash: block.prev_block_hash,
    };
    assert_eq!(lite.current_block_hash(), block.current_block_hash());
    let other = LightClientBlockLite { prev_block_hash: hash(0x99), ..lite };
    assert_ne!(other.current_block_hash(), block.current_block_hash());
}

#[test]
fn signature_of_the_message_by_the_key_is_valid() {
    let pair = keypair(9);
    let key = PublicKey::ED25519(ED25519PublicKey(pair.public.to_bytes()));
    let signature = Signature::ED25519(pair.sign(b"message").to_bytes().to_vec());
    assert!(signature.verify(b"message", &key));
    assert!(!signature.verify(b"another message", &key));
    let other_key = PublicKey::ED25519(ED25519PublicKey(keypair(10).public.to_bytes()));
    assert!(!signature.verify(b"message", &other_key));
}

#[test]
fn signature_of_the_wrong_form_is_invalid() {
    let pair = keypair(9);
    let key = PublicKey::ED25519(ED25519PublicKey(pair.public.to_bytes()));
    let good = pair.sign(b"message").to_bytes().to_vec();
    assert!(!Signature::ED25519(good[..63].to_vec()).verify(b"message", &key));
    assert!(!Signature::ED25519(vec![]).verify(b"message", &key));
    let mut high_bits = good.clone();
    high_bits[63] |= 0xe0;
    assert!(!Signature::ED25519(high_bits).verify(b"message", &key));
    let mut long = good;
    long.push(0);
    assert!(!Signature::ED25519(long).verify(b"message", &key));
}

#[test]
fn key_that_is_no_point_makes_every_signature_invalid() {
    let pair = keypair(9);
    let signature = Signature::ED25519(pair.sign(b"message").to_bytes().to_vec());
    // not every 32 bytes are a point of the curve: take the first that are none
    let bytes = (0u8..=255)
        .map(|byte| [byte; 32])
        .find(|bytes| ed25519_dalek::PublicKey::from_bytes(bytes).is_err())
        .unwrap();
    let key = PublicKey::ED25519(ED25519PublicKey(bytes));
    assert!(!signature.verify(b"message", &key));
}

#[test]
fn header_of_the_same_epoch_signed_by_all_is_accepted() {
    let state = trusted(&[1, 1, 1]);
    let header = sign(
        unsigned_header(120, EPOCH_1, EPOCH_2, None),
        &[Some(1), Some(2), Some(3)],
    );
    assert_eq!(state.verify_header(&header), Ok(()));
}

#[test]
fn header_of_the_next_epoch_is_checked_with_the_producers_that_were_named() {
    let state = trusted(&[1, 1, 1]);
    let header = sign(
        unsigned_header(120, EPOCH_2, EPOCH_3, Some(producers(&[7, 8], &[3, 4]))),
        &[Some(4), Some(5), Some(6)],
    );
    assert_eq!(state.verify_header(&header), Ok(()));
    let signed_by_the_old = sign(
        unsigned_header(120, EPOCH_2, EPOCH_3, Some(producers(&[7, 8], &[3, 4]))),
        &[Some(1), Some(2), Some(3)],
    );
    assert!(matches!(
        state.verify_header(&signed_by_the_old),
        Err(HeaderVerificationError::InvalidValidatorSignature { .. })
    ));
}

#[test]
fn header_that_is_not_higher_is_rejected() {
    let state = trusted(&[1, 1, 1]);
    for height in [0, 99, 100] {
        let header = sign(
            unsigned_header(height, EPOCH_1, EPOCH_2, None),
            &[Some(1), Some(2), Some(3)],
        );
        assert_eq!(
            state.verify_header(&header),
            Err(HeaderVerificationError::InvalidBlockHeight)
        );
    }
    let header = sign(unsigned_header(101, EPOCH_1, EPOCH_2, None), &[Some(1), Some(2), Some(3)]);
    assert_eq!(state.verify_header(&header), Ok(()));
}

#[test]
fn header_of_an_unknown_epoch_is_rejected() {
    let state = trusted(&[1, 1, 1]);
    let header = sign(
        unsigned_header(120, EPOCH_3, EPOCH_3, None),
        &[Some(1), Some(2), Some(3)],
    );
    assert_eq!(state.verify_header(&header), Err(HeaderVerificationError::InvalidEpochId));
}

#[test]
fn header_of_the_next_epoch_must_name_the_producers_after_it() {
    let state = trusted(&[1, 1, 1]);
    let header = sign(
        unsigned_header(120, EPOCH_2, EPOCH_3, None),
        &[Some(4), Some(5), Some(6)],
    );
    assert_eq!(
        state.verify_header(&header),
        Err(HeaderVerificationError::MissingNextBlockProducersInHead)
    );
}

#[test]
fn header_is_rejected_where_its_producers_are_not_known() {
    let mut state = trusted(&[1, 1, 1]);
    state.current_bps = None;
    let header = sign(
        unsigned_header(120, EPOCH_1, EPOCH_2, None),
        &[Some(1), Some(2), Some(3)],
    );
    assert_eq!(
        state.verify_header(&header),
        Err(HeaderVerificationError::MissingCachedEpochBlockProducers { epoch_id: hash(EPOCH_1) })
    );
    let mut state = trusted(&[1, 1, 1]);
    state.header.light_client_block.next_bps = None;
    let header = sign(
        unsigned_header(120, EPOCH_2, EPOCH_3, Some(producers(&[7], &[1]))),
        &[Some(4), Some(5), Some(6)],
    );
    assert_eq!(
        state.verify_header(&header),
        Err(HeaderVerificationError::MissingCachedEpochBlockProducers { epoch_id: hash(EPOCH_2) })
    );
}

#[test]
fn signature_by_another_producer_is_named_in_the_error() {
    let state = trusted(&[1, 1, 1]);
    let header = sign(
        unsigned_header(120, EPOCH_1, EPOCH_2, None),
        &[Some(1), Some(3), Some(3)],
    );
    let wrong = header.light_client_block.approvals_after_next[1].clone().unwrap();
    assert_eq!(
        state.verify_header(&header),
        Err(HeaderVerificationError::InvalidValidatorSignature {
            signature: wrong,
            pubkey: PublicKey::ED25519(ED25519PublicKey(keypair(2).public.to_bytes())),
        })
    );
}

#[test]
fn two_of_three_equal_stakes_are_not_final() {
    let state = trusted(&[1, 1, 1]);
    let header = sign(
        unsigned_header(120, EPOCH_1, EPOCH_2, None),
        &[Some(1), None, Some(3)],
    );
    assert_eq!(state.verify_header(&header), Err(HeaderVerificationError::BlockIsNotFinal));
}

#[test]
fn exactly_two_thirds_of_the_stake_is_not_final() {
    let state = trusted(&[200, 100, 300]);
    let header = sign(
        unsigned_header(120, EPOCH_1, EPOCH_2, None),
        &[None, Some(2), Some(3)],
    );
    assert_eq!(state.verify_header(&header), Err(HeaderVerificationError::BlockIsNotFinal));
}

#[test]
fn a_little_more_than_two_thirds_of_the_stake_is_final() {
    let state = trusted(&[200, 100, 301]);
    let header = sign(
        unsigned_header(120, EPOCH_1, EPOCH_2, None),
        &[None, Some(2), Some(3)],
    );
    assert_eq!(state.verify_header(&header), Ok(()));
    let state = trusted(&[201, 100, 300]);
    let header = sign(
        unsigned_header(120, EPOCH_1, EPOCH_2, None),
        &[None, Some(2), Some(3)],
    );
    assert_eq!(state.verify_header(&header), Err(HeaderVerificationError::BlockIsNotFinal));
}

#[test]
fn no_signature_at_all_is_not_final() {
    let state = trusted(&[1, 1, 1]);
    let header = sign(unsigned_header(120, EPOCH_1, EPOCH_2, None), &[None, None, None]);
    assert_eq!(state.verify_header(&header), Err(HeaderVerificationError::BlockIsNotFinal));
    let header = sign(unsigned_header(120, EPOCH_1, EPOCH_2, None), &[]);
    assert_eq!(state.verify_header(&header), Err(HeaderVerificationError::BlockIsNotFinal));
}

#[test]
fn stakes_that_overflow_128_bits_are_weighed_exactly() {
    let big = u128::MAX;
    let state = trusted(&[big, big, big]);
    let two = sign(unsigned_header(120, EPOCH_1, EPOCH_2, None), &[Some(1), Some(2), None]);
    assert_eq!(state.verify_header(&two), Err(HeaderVerificationError::BlockIsNotFinal));
    let three = sign(unsigned_header(120, EPOCH_1, EPOCH_2, None), &[Some(1), Some(2), Some(3)]);
    assert_eq!(state.verify_header(&three), Ok(()));
    let state = trusted(&[big, big, big - 1]);
    let two = sign(unsigned_header(120, EPOCH_1, EPOCH_2, None), &[Some(1), Some(2), None]);
    assert_eq!(state.verify_header(&two), Ok(()));
}

#[test]
fn places_beyond_the_shorter_list_do_not_count() {
    let state = trusted(&[1, 1, 1]);
    // only the first two places are weighed: both signed
    let header = sign(unsigned_header(120, EPOCH_1, EPOCH_2, None), &[Some(1), Some(2)]);
    assert_eq!(state.verify_header(&header), Ok(()));
    // a fourth signature has no producer and is not looked at
    let header = sign(
        unsigned_header(120, EPOCH_1, EPOCH_2, None),
        &[Some(1), Some(2), Some(3), Some(9)],
    );
    assert_eq!(state.verify_header(&header), Ok(()));
}

#[test]
fn producers_that_do_not_have_the_hash_given_are_rejected() {
    let state = trusted(&[1, 1, 1]);
    let mut header = unsigned_header(120, EPOCH_2, EPOCH_3, Some(producers(&[7, 8], &[3, 4])));
    header.light_client_block.inner_lite.next_bp_hash = hash(0x77);
    let header = sign(header, &[Some(4), Some(5), Some(6)]);
    assert_eq!(
        state.verify_header(&header),
        Err(HeaderVerificationError::InvalidNextBlockProducersHash)
    );
}

#[test]
fn state_root_that_is_not_the_root_of_the_chunks_is_rejected() {
    let state = trusted(&[1, 1, 1]);
    let mut header = unsigned_header(120, EPOCH_1, EPOCH_2, None);
    header.light_client_block.inner_lite.prev_state_root = hash(0x42);
    let header = sign(header, &[Some(1), Some(2), Some(3)]);
    assert_eq!(
        state.verify_header(&header),
        Err(HeaderVerificationError::InvalidPrevStateRootOfChunks)
    );
    let mut header = unsigned_header(120, EPOCH_1, EPOCH_2, None);
    header.prev_state_root_of_chunks.push(hash(0x53));
    let header = sign(header, &[Some(1), Some(2), Some(3)]);
    assert_eq!(
        state.verify_header(&header),
        Err(HeaderVerificationError::InvalidPrevStateRootOfChunks)
    );
}

#[test]
fn the_earliest_failing_check_decides() {
    let state = trusted(&[1, 1, 1]);
    // too low, in an unknown epoch, unsigned, with a wrong state root
    let mut header = unsigned_header(50, EPOCH_3, EPOCH_3, None);
    header.light_client_block.inner_lite.prev_state_root = hash(0x42);
    assert_eq!(state.verify_header(&header), Err(HeaderVerificationError::InvalidBlockHeight));
    // high enough: the epoch decides
    let mut header = unsigned_header(150, EPOCH_3, EPOCH_3, None);
    header.light_client_block.inner_lite.prev_state_root = hash(0x42);
    assert_eq!(state.verify_header(&header), Err(HeaderVerificationError::InvalidEpochId));
    // not final comes before the state root
    let mut header = unsigned_header(150, EPOCH_1, EPOCH_2, None);
    header.light_client_block.inner_lite.prev_state_root = hash(0x42);
    let header = sign(header, &[Some(1), None, None]);
    assert_eq!(state.verify_header(&header), Err(HeaderVerificationError::BlockIsNotFinal));
}

#[test]
fn block_producers_are_those_of_the_epoch_asked_for() {
    let state = trusted(&[1, 2, 3]);
    assert_eq!(state.get_block_producers_of(&hash(EPOCH_1)), Some(producers(&[1, 2, 3], &[1, 2, 3])));
    assert_eq!(state.get_block_producers_of(&hash(EPOCH_2)), Some(producers(&[4, 5, 6], &[1, 1, 1])));
    assert_eq!(state.get_block_producers_of(&hash(EPOCH_3)), None);
    assert_eq!(state.header.height(), 100);
    assert_eq!(state.header.epoch_id(), hash(EPOCH_1));
    assert_eq!(state.header.next_epoch_id(), hash(EPOCH_2));
}

#[test]
fn into_validator_stake_gives_the_record() {
    let record = producer(1, 5).into_validator_stake();
    assert_eq!(record.account_id, "bp1.near");
    assert_eq!(record.stake, 5);
}

#[test]
fn block_hash_depends_on_the_block_alone() {
    let one = unsigned_header(120, EPOCH_1, EPOCH_2, None);
    let other = unsigned_header(120, EPOCH_1, EPOCH_2, None);
    assert_eq!(
        one.light_client_block.current_block_hash(),
        other.light_client_block.current_block_hash()
    );
    assert_eq!(
        one.light_client_block.current_block_hash(),
        one.light_client_block.clone().current_block_hash()
    );
    let higher = unsigned_header(121, EPOCH_1, EPOCH_2, None);
    assert_ne!(
        one.light_client_block.current_block_hash(),
        higher.light_client_block.current_block_hash()
    );
}
