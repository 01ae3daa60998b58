//! What holds of the checks of the light client, whatever they are given.

use crate::client::spec_keys_going_up;
use crate::near_types::hash::{spec_sha256, CryptoHash};
use crate::near_types::merkle::{spec_leaf_hashes, spec_merkle_root};
use crate::near_types::trie::nibble_slice::spec_key_nibbles;
use crate::near_types::trie::{
    lemma_absence_proof_is_sound, lemma_state_proof_is_sound, spec_store_holds,
    spec_trie_lookup, SpecLookup, SpecTrieNodeWithSize,
};
use crate::near_types::{spec_approval_message, spec_current_block_hash, SpecBlockLite};
use crate::types::{Height, SpecConsensusState, SpecHeader};
use crate::{
    spec_approved_stake, spec_block_producers_of, spec_decoded_nodes,
    spec_first_invalid_signature, spec_next_bps_match, spec_signed_places, spec_total_stake,
    spec_verify_header, spec_verify_membership, spec_verify_non_membership,
    SpecHeaderVerificationError,
};
use vstd::prelude::*;

verus! {

/// The hash of a block depends on nothing but what the block holds: two blocks that hold
/// the same have the same hash, wherever and whenever it is computed.
pub proof fn lemma_block_hash_is_determined(a: SpecBlockLite, b: SpecBlockLite)
    requires
        a == b,
    ensures
        spec_current_block_hash(a.inner_lite, a.inner_rest_hash, a.prev_block_hash)
            == spec_current_block_hash(b.inner_lite, b.inner_rest_hash, b.prev_block_hash),
{
}

/// Heights only go up: a header whose height is not above the height of the trusted
/// header is rejected for its height.
pub proof fn lemma_header_must_be_higher(state: SpecConsensusState, header: SpecHeader)
    requires
        header.height() <= state.header.height(),
    ensures
        spec_verify_header(state, header) == Err::<(), SpecHeaderVerificationError>(
            SpecHeaderVerificationError::InvalidBlockHeight,
        ),
{
}

/// Whether `header` passes the checks against `state` that come before the stake is
/// weighed: its height, its epoch, the block producers that it has to name, the block
/// producers of its epoch being known, and every signature that is there being valid.
pub open spec fn spec_passes_until_signatures(state: SpecConsensusState, header: SpecHeader) -> bool {
    let block = header.light_client_block;
    &&& header.height() > state.header.height()
    &&& header.epoch_id() == state.header.epoch_id() || header.epoch_id()
        == state.header.next_epoch_id()
    &&& header.epoch_id() == state.header.next_epoch_id() ==> block.next_bps is Some
    &&& spec_block_producers_of(state, header.epoch_id()) is Some
    &&& spec_first_invalid_signature(
        block.approvals_after_next,
        spec_block_producers_of(state, header.epoch_id()).unwrap(),
        spec_approval_message(block),
        spec_signed_places(
            block.approvals_after_next,
            spec_block_producers_of(state, header.epoch_id()).unwrap(),
        ),
    ) is None
}

/// More than two thirds of the stake must sign: a header that passes the checks before
/// is rejected as not final exactly where the stake that signed, times three, is no more
/// than the whole stake, times two. Two thirds of the stake is not enough.
pub proof fn lemma_finality_needs_more_than_two_thirds(
    state: SpecConsensusState,
    header: SpecHeader,
)
    requires
        spec_passes_until_signatures(state, header),
    ensures
        ({
            let producers = spec_block_producers_of(state, header.epoch_id()).unwrap();
            let approvals = header.light_client_block.approvals_after_next;
            let places = spec_signed_places(approvals, producers);
            3 * spec_approved_stake(approvals, producers, places) <= 2 * spec_total_stake(
                producers,
                places,
            )
        }) <==> spec_verify_header(state, header) == Err::<(), SpecHeaderVerificationError>(
            SpecHeaderVerificationError::BlockIsNotFinal,
        ),
{
}

/// A header that is accepted keeps what a trusted state must keep: it passes the checks
/// before the stake is weighed, more than two thirds of the stake signed it, its state
/// root is the merkle root of the state roots of its chunks, and the block producers that
/// it names have the hash that it gives.
pub proof fn lemma_accepted_header_keeps_its_commitments(
    state: SpecConsensusState,
    header: SpecHeader,
)
    requires
        spec_verify_header(state, header) is Ok,
    ensures
        spec_passes_until_signatures(state, header),
        ({
            let producers = spec_block_producers_of(state, header.epoch_id()).unwrap();
            let approvals = header.light_client_block.approvals_after_next;
            let places = spec_signed_places(approvals, producers);
            3 * spec_approved_stake(approvals, producers, places) > 2 * spec_total_stake(
                producers,
                places,
            )
        }),
        header.light_client_block.inner_lite.prev_state_root == spec_merkle_root(
            spec_leaf_hashes::<CryptoHash>(header.prev_state_root_of_chunks),
        ),
        header.light_client_block.next_bps matches Some(next_bps) ==> spec_next_bps_match(
            next_bps,
            header.light_client_block.inner_lite.next_bp_hash,
        ),
{
}

/// Keeping a state at a height twice is keeping it once.
pub proof fn lemma_reinstalling_changes_nothing(
    states: Map<Height, SpecConsensusState>,
    height: Height,
    state: SpecConsensusState,
)
    ensures
        states.insert(height, state).insert(height, state) == states.insert(height, state),
{
    assert(states.insert(height, state).insert(height, state) =~= states.insert(height, state));
}

/// The heights of a client are determined by the states that it keeps: two sequences of
/// heights that go up and hold the heights of the same states are the same.
pub proof fn lemma_heights_are_determined(
    states: Map<Height, SpecConsensusState>,
    a: Seq<Height>,
    b: Seq<Height>,
)
    requires
        spec_keys_going_up(states, a),
        spec_keys_going_up(states, b),
    ensures
        a == b,
    decreases a.len(),
{
    if a.len() == 0 {
        if b.len() > 0 {
            assert(b.contains(b[0]));
            assert(a.contains(b[0]));
        }
        assert(a =~= b);
    } else if b.len() == 0 {
        assert(a.contains(a[0]));
        assert(b.contains(a[0]));
    } else {
        let top_a = a.last();
        let top_b = b.last();
        assert(a.contains(top_a));
        assert(b.contains(top_b));
        assert(b.contains(top_a));
        assert(a.contains(top_b));
        let ia = a.index_of(top_b);
        let ib = b.index_of(top_a);
        assert(top_a == top_b) by {
            if ia < a.len() - 1 {
                assert(a[ia] < a[a.len() - 1]);
            }
            if ib < b.len() - 1 {
                assert(b[ib] < b[b.len() - 1]);
            }
        }
        let rest = states.remove(top_a);
        let a0 = a.drop_last();
        let b0 = b.drop_last();
        assert(spec_keys_going_up(rest, a0)) by {
            assert forall|h: Height| a0.contains(h) <==> rest.dom().contains(h) by {
                if a0.contains(h) {
                    let i = a0.index_of(h);
                    assert(a[i] == h);
                    assert(a.contains(h));
                    assert(a[i] < a[a.len() - 1]);
                }
                if rest.dom().contains(h) {
                    assert(a.contains(h));
                    let i = a.index_of(h);
                    assert(a0[i] == h);
                }
            }
        }
        assert(spec_keys_going_up(rest, b0)) by {
            assert forall|h: Height| b0.contains(h) <==> rest.dom().contains(h) by {
                if b0.contains(h) {
                    let i = b0.index_of(h);
                    assert(b[i] == h);
                    assert(b.contains(h));
                    assert(b[i] < b[b.len() - 1]);
                }
                if rest.dom().contains(h) {
                    assert(b.contains(h));
                    let i = b.index_of(h);
                    assert(b0[i] == h);
                }
            }
        }
        lemma_heights_are_determined(rest, a0, b0);
        assert(a =~= a0.push(top_a));
        assert(b =~= b0.push(top_b));
    }
}

/// An accepted proof of a value is sound: the first proof node hashes to the state root
/// of a chunk of the trusted header, and every trie that holds the proof nodes under
/// their hashes has the value under the key, from that root.
pub proof fn lemma_membership_is_sound(
    state: SpecConsensusState,
    key: Seq<u8>,
    value: Seq<u8>,
    proofs: Seq<Seq<u8>>,
    store: Map<Seq<u8>, SpecTrieNodeWithSize>,
)
    requires
        spec_verify_membership(state, key, value, proofs) is Ok,
        spec_store_holds(store, spec_decoded_nodes(proofs)),
    ensures
        proofs.len() > 0,
        state.header.prev_state_root_of_chunks.contains(spec_sha256(proofs[0])),
        spec_trie_lookup(store, spec_sha256(proofs[0]), spec_key_nibbles(key), proofs.len())
            == SpecLookup::Found(spec_sha256(value)),
{
    lemma_state_proof_is_sound(
        store,
        spec_key_nibbles(key),
        spec_decoded_nodes(proofs),
        spec_sha256(value),
        0,
        spec_sha256(proofs[0]),
    );
}

/// An accepted proof of absence is sound: the first proof node hashes to the state root
/// of a chunk of the trusted header, and every trie that holds the proof nodes under
/// their hashes has no value under the key, from that root.
pub proof fn lemma_non_membership_is_sound(
    state: SpecConsensusState,
    key: Seq<u8>,
    proofs: Seq<Seq<u8>>,
    store: Map<Seq<u8>, SpecTrieNodeWithSize>,
)
    requires
        spec_verify_non_membership(state, key, proofs) is Ok,
        spec_store_holds(store, spec_decoded_nodes(proofs)),
    ensures
        proofs.len() > 0,
        state.header.prev_state_root_of_chunks.contains(spec_sha256(proofs[0])),
        spec_trie_lookup(store, spec_sha256(proofs[0]), spec_key_nibbles(key), proofs.len())
            == SpecLookup::Absent,
{
    lemma_absence_proof_is_sound(
        store,
        spec_key_nibbles(key),
        spec_decoded_nodes(proofs),
        0,
        spec_sha256(proofs[0]),
    );
}

} // verus!
