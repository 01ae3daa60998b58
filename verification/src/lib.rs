//! The verification core of a light client for NEAR: headers, state proofs and outcome
//! proofs, checked against consensus states that the client trusts.

use vstd::prelude::*;

pub mod client;
pub mod codec;
pub mod laws;
pub mod near_types;
mod stake;
pub mod types;

pub use client::{
    verify_header, verify_membership, verify_non_membership, verify_transaction_or_receipt,
    BasicNearLightClient, HeaderDecision, HostError, LightClient,
};

use codec::Encoded;
use near_types::hash::{sha256, spec_sha256, CryptoHash};
use near_types::merkle::{
    compute_root_from_path, merklize, spec_compute_root, spec_leaf_hashes, spec_merkle_root,
    MerklePath, SpecMerklePathItem,
};
use near_types::transaction::{
    spec_outcome_encodable, spec_outcome_hashes, ExecutionOutcomeWithId,
    SpecExecutionOutcomeWithId,
};
use near_types::trie::nibble_slice::spec_key_nibbles;
use near_types::trie::{
    spec_decode_node_with_size, spec_verify_not_in_state, spec_verify_state_proof,
    verify_not_in_state, verify_state_proof, RawTrieNodeWithSize, SpecTrieNodeWithSize,
};
use near_types::signature::{spec_signature_valid, PublicKey, Signature};
use near_types::{
    spec_approval_message, spec_current_block_hash, LightClientBlockLite, SpecBlockLite,
    SpecValidatorStake, ValidatorStakeView,
};
use stake::StakeSum;
use types::{ConsensusState, Header, SpecConsensusState, SpecHeader};

verus! {

/// Why a proof about the state was not accepted.
#[derive(Clone, Copy, Debug, PartialEq, Eq, Structural)]
pub enum StateProofVerificationError {
    /// No proof node was given.
    MissingProofData,
    /// The hash of the first proof node is no state root of the trusted header.
    InvalidRootHashOfProofData,
    /// The proof node at this index does not decode, does not have the expected hash, or
    /// does not lead on along the key.
    InvalidProofData { proof_index: u16 },
    /// The proof nodes ended before the key was resolved.
    InvalidProofDataLength,
    /// The key has a value, so its absence cannot be shown.
    SpecifiedKeyHasValueInState,
}

/// Why a proof about a transaction or a receipt was not accepted.
#[derive(Clone, Copy, Debug, PartialEq, Eq, Structural)]
pub enum TransactionVerificationError {
    /// The outcome does not lead to the outcome root of its block.
    InvalidOutcomeProof,
    /// The block does not lead to the block merkle root of the trusted header.
    InvalidBlockProof,
}

/// Why a header was not accepted.
#[derive(Debug, PartialEq, Eq)]
pub enum HeaderVerificationError {
    /// The height is not above the height of the trusted header.
    InvalidBlockHeight,
    /// The epoch is neither the epoch of the trusted header nor the one after it.
    InvalidEpochId,
    /// The header begins the next epoch and does not name the block producers after it.
    MissingNextBlockProducersInHead,
    /// The block producers of the epoch of the header are not known.
    MissingCachedEpochBlockProducers { epoch_id: CryptoHash },
    /// A signature is not one of the block producer at its place.
    InvalidValidatorSignature { signature: Signature, pubkey: PublicKey },
    /// The signatures stand for no more than two thirds of the stake.
    BlockIsNotFinal,
    /// The block producers that the header names do not have the hash that it gives.
    InvalidNextBlockProducersHash,
    /// The state root of the header is not the merkle root of the state roots of its chunks.
    InvalidPrevStateRootOfChunks,
}

/// The model of the reasons for which a header is not accepted.
pub enum SpecHeaderVerificationError {
    InvalidBlockHeight,
    InvalidEpochId,
    MissingNextBlockProducersInHead,
    MissingCachedEpochBlockProducers { epoch_id: Seq<u8> },
    InvalidValidatorSignature { signature: Seq<u8>, pubkey: Seq<u8> },
    BlockIsNotFinal,
    InvalidNextBlockProducersHash,
    InvalidPrevStateRootOfChunks,
}

impl DeepView for HeaderVerificationError {
    type V = SpecHeaderVerificationError;

    open spec fn deep_view(&self) -> SpecHeaderVerificationError {
        match self {
            HeaderVerificationError::InvalidBlockHeight => SpecHeaderVerificationError::InvalidBlockHeight,
            HeaderVerificationError::InvalidEpochId => SpecHeaderVerificationError::InvalidEpochId,
            HeaderVerificationError::MissingNextBlockProducersInHead => SpecHeaderVerificationError::MissingNextBlockProducersInHead,
            HeaderVerificationError::MissingCachedEpochBlockProducers { epoch_id } => SpecHeaderVerificationError::MissingCachedEpochBlockProducers {
                epoch_id: epoch_id@,
            },
            HeaderVerificationError::InvalidValidatorSignature { signature, pubkey } => SpecHeaderVerificationError::InvalidValidatorSignature {
                signature: signature@,
                pubkey: pubkey@,
            },
            HeaderVerificationError::BlockIsNotFinal => SpecHeaderVerificationError::BlockIsNotFinal,
            HeaderVerificationError::InvalidNextBlockProducersHash => SpecHeaderVerificationError::InvalidNextBlockProducersHash,
            HeaderVerificationError::InvalidPrevStateRootOfChunks => SpecHeaderVerificationError::InvalidPrevStateRootOfChunks,
        }
    }
}

impl View for HeaderVerificationError {
    type V = SpecHeaderVerificationError;

    open spec fn view(&self) -> SpecHeaderVerificationError {
        self.deep_view()
    }
}

/// The block producers that `state` knows for the epoch `epoch_id`: those of the epoch of
/// its header, or those that its header names for the epoch after it.
pub open spec fn spec_block_producers_of(state: SpecConsensusState, epoch_id: Seq<u8>) -> Option<
    Seq<SpecValidatorStake>,
> {
    if epoch_id == state.header.epoch_id() {
        state.current_bps
    } else if epoch_id == state.header.next_epoch_id() {
        state.header.light_client_block.next_bps
    } else {
        None
    }
}

/// The stake of the first `n` block producers.
pub open spec fn spec_total_stake(producers: Seq<SpecValidatorStake>, n: nat) -> int
    decreases n,
{
    if n == 0 {
        0
    } else {
        spec_total_stake(producers, (n - 1) as nat) + producers[n - 1].stake
    }
}

/// The stake of those of the first `n` block producers that signed.
pub open spec fn spec_approved_stake(
    approvals: Seq<Option<Seq<u8>>>,
    producers: Seq<SpecValidatorStake>,
    n: nat,
) -> int
    decreases n,
{
    if n == 0 {
        0
    } else if approvals[n - 1] is Some {
        spec_approved_stake(approvals, producers, (n - 1) as nat) + producers[n - 1].stake
    } else {
        spec_approved_stake(approvals, producers, (n - 1) as nat)
    }
}

/// The first of the first `n` places at which there is a signature that is not a valid
/// signature of `message` by the block producer of that place.
pub open spec fn spec_first_invalid_signature(
    approvals: Seq<Option<Seq<u8>>>,
    producers: Seq<SpecValidatorStake>,
    message: Seq<u8>,
    n: nat,
) -> Option<int>
    decreases n,
{
    if n == 0 {
        None
    } else {
        match spec_first_invalid_signature(approvals, producers, message, (n - 1) as nat) {
            Some(i) => Some(i),
            None => if approvals[n - 1] is Some && !spec_signature_valid(
                approvals[n - 1].unwrap(),
                message,
                producers[n - 1].public_key,
            ) {
                Some(n - 1)
            } else {
                None
            },
        }
    }
}

/// The number of places that have both a signature slot and a block producer.
pub open spec fn spec_signed_places(
    approvals: Seq<Option<Seq<u8>>>,
    producers: Seq<SpecValidatorStake>,
) -> nat {
    if approvals.len() <= producers.len() {
        approvals.len()
    } else {
        producers.len()
    }
}

/// Whether the block producers that a header names have the hash that it gives: they
/// have an encoding, and its hash is `next_bp_hash`.
pub open spec fn spec_next_bps_match(next_bps: Seq<SpecValidatorStake>, next_bp_hash: Seq<u8>) -> bool {
    &&& Vec::<ValidatorStakeView>::encodable(next_bps)
    &&& spec_sha256(Vec::<ValidatorStakeView>::spec_encode(next_bps)) == next_bp_hash
}

/// What the check of `header` against the trusted `state` says. The checks come in this
/// order, and the first that fails decides:
///
/// 1. the height is above the height of the trusted header;
/// 2. the epoch is that of the trusted header or the one after it;
/// 3. a header of the next epoch names the block producers of the epoch after its own;
/// 4. the block producers of the epoch of the header are known;
/// 5. every signature that is there is a valid signature of the approval message by the
///    block producer of its place;
/// 6. the block producers that signed hold more than two thirds of the stake;
/// 7. the block producers that the header names have the hash that it gives;
/// 8. the state root of the header is the merkle root of the state roots of its chunks.
pub open spec fn spec_verify_header(state: SpecConsensusState, header: SpecHeader) -> Result<
    (),
    SpecHeaderVerificationError,
> {
    let latest = state.header;
    let block = header.light_client_block;
    if header.height() <= latest.height() {
        Err(SpecHeaderVerificationError::InvalidBlockHeight)
    } else if header.epoch_id() != latest.epoch_id() && header.epoch_id()
        != latest.next_epoch_id() {
        Err(SpecHeaderVerificationError::InvalidEpochId)
    } else if header.epoch_id() == latest.next_epoch_id() && block.next_bps is None {
        Err(SpecHeaderVerificationError::MissingNextBlockProducersInHead)
    } else {
        match spec_block_producers_of(state, header.epoch_id()) {
            None => Err(
                SpecHeaderVerificationError::MissingCachedEpochBlockProducers {
                    epoch_id: header.epoch_id(),
                },
            ),
            Some(producers) => {
                let approvals = block.approvals_after_next;
                let n = spec_signed_places(approvals, producers);
                match spec_first_invalid_signature(
                    approvals,
                    producers,
                    spec_approval_message(block),
                    n,
                ) {
                    Some(i) => Err(
                        SpecHeaderVerificationError::InvalidValidatorSignature {
                            signature: approvals[i].unwrap(),
                            pubkey: producers[i].public_key,
                        },
                    ),
                    None => if 3 * spec_approved_stake(approvals, producers, n) <= 2
                        * spec_total_stake(producers, n) {
                        Err(SpecHeaderVerificationError::BlockIsNotFinal)
                    } else if block.next_bps is Some && !spec_next_bps_match(
                        block.next_bps.unwrap(),
                        block.inner_lite.next_bp_hash,
                    ) {
                        Err(SpecHeaderVerificationError::InvalidNextBlockProducersHash)
                    } else if block.inner_lite.prev_state_root != spec_merkle_root(
                        spec_leaf_hashes::<CryptoHash>(header.prev_state_root_of_chunks),
                    ) {
                        Err(SpecHeaderVerificationError::InvalidPrevStateRootOfChunks)
                    } else {
                        Ok(())
                    },
                }
            },
        }
    }
}

/// An invalid signature that is the first among some places is the first among more.
pub proof fn lemma_first_invalid_signature_stays(
    approvals: Seq<Option<Seq<u8>>>,
    producers: Seq<SpecValidatorStake>,
    message: Seq<u8>,
    k: nat,
    n: nat,
)
    requires
        k <= n,
        spec_first_invalid_signature(approvals, producers, message, k) is Some,
    ensures
        spec_first_invalid_signature(approvals, producers, message, n)
            == spec_first_invalid_signature(approvals, producers, message, k),
    decreases n,
{
    if k < n {
        lemma_first_invalid_signature_stays(approvals, producers, message, k, (n - 1) as nat);
    }
}

impl ConsensusState {
    /// The block producers of the epoch `epoch_id`, if this state knows them.
    pub fn get_block_producers_of(&self, epoch_id: &CryptoHash) -> (r: Option<
        Vec<ValidatorStakeView>,
    >)
        ensures
            r.deep_view() == spec_block_producers_of(self@, epoch_id@),
    {
        if *epoch_id == self.header.epoch_id() {
            near_types::clone_optional_block_producers(&self.current_bps)
        } else if *epoch_id == self.header.next_epoch_id() {
            near_types::clone_optional_block_producers(&self.header.light_client_block.next_bps)
        } else {
            None
        }
    }

    /// The block producers of the epoch `epoch_id`, if this state knows them.
    fn block_producers_of(&self, epoch_id: &CryptoHash) -> (r: &Option<Vec<ValidatorStakeView>>)
        ensures
            r.deep_view() == spec_block_producers_of(self@, epoch_id@),
    {
        if *epoch_id == self.header.epoch_id() {
            &self.current_bps
        } else if *epoch_id == self.header.next_epoch_id() {
            &self.header.light_client_block.next_bps
        } else {
            &None
        }
    }

    /// Checks `header` against this state, which is trusted.
    #[verifier::loop_isolation(false)]
    pub fn verify_header(&self, header: &Header) -> (r: Result<(), HeaderVerificationError>)
        ensures
            match r {
                Ok(_) => spec_verify_header(self@, header@) is Ok,
                Err(e) => spec_verify_header(self@, header@) == Err::<
                    (),
                    SpecHeaderVerificationError,
                >(e@),
            },
    {
        let latest_header = &self.header;
        let block = &header.light_client_block;
        let approval_message = block.approval_message();
        if header.height() <= latest_header.height() {
            return Err(HeaderVerificationError::InvalidBlockHeight);
        }
        let epoch_id = header.epoch_id();
        if epoch_id != latest_header.epoch_id() && epoch_id != latest_header.next_epoch_id() {
            return Err(HeaderVerificationError::InvalidEpochId);
        }
        if epoch_id == latest_header.next_epoch_id() && block.next_bps.is_none() {
            return Err(HeaderVerificationError::MissingNextBlockProducersInHead);
        }
        let producers = match self.block_producers_of(&epoch_id) {
            Some(producers) => producers,
            None => {
                return Err(HeaderVerificationError::MissingCachedEpochBlockProducers { epoch_id });
            },
        };
        let approvals = &block.approvals_after_next;
        let places = if approvals.len() <= producers.len() {
            approvals.len()
        } else {
            producers.len()
        };
        let mut total_stake = StakeSum::zero();
        let mut approved_stake = StakeSum::zero();
        let mut i: usize = 0;
        while i < places
            invariant
                i <= places,
                places == spec_signed_places(approvals.deep_view(), producers.deep_view()),
                approval_message@ == spec_approval_message(block@),
                total_stake.carries() <= i,
                approved_stake.carries() <= i,
                total_stake@ == spec_total_stake(producers.deep_view(), i as nat),
                approved_stake@ == spec_approved_stake(
                    approvals.deep_view(),
                    producers.deep_view(),
                    i as nat,
                ),
                spec_first_invalid_signature(
                    approvals.deep_view(),
                    producers.deep_view(),
                    approval_message@,
                    i as nat,
                ) is None,
            decreases places - i,
        {
            assert(producers.deep_view()[i as int] == producers[i as int].deep_view());
            assert(approvals.deep_view()[i as int] == approvals[i as int].deep_view());
            match &producers[i] {
                ValidatorStakeView::V1(producer) => {
                    total_stake.add_stake(producer.stake);
                    if let Some(signature) = &approvals[i] {
                        approved_stake.add_stake(producer.stake);
                        if !signature.verify(approval_message.as_slice(), &producer.public_key) {
                            proof {
                                lemma_first_invalid_signature_stays(
                                    approvals.deep_view(),
                                    producers.deep_view(),
                                    approval_message@,
                                    (i + 1) as nat,
                                    places as nat,
                                );
                            }
                            return Err(
                                HeaderVerificationError::InvalidValidatorSignature {
                                    signature: signature.clone(),
                                    pubkey: producer.public_key.clone(),
                                },
                            );
                        }
                    }
                },
            }
            i += 1;
        }
        if !approved_stake.is_more_than_two_thirds_of(&total_stake) {
            return Err(HeaderVerificationError::BlockIsNotFinal);
        }
        if let Some(next_bps) = &block.next_bps {
            if !next_bps.is_encodable() {
                return Err(HeaderVerificationError::InvalidNextBlockProducersHash);
            }
            if CryptoHash::hash_borsh(next_bps) != block.inner_lite.next_bp_hash {
                return Err(HeaderVerificationError::InvalidNextBlockProducersHash);
            }
        }
        if block.inner_lite.prev_state_root != merklize(
            header.prev_state_root_of_chunks.as_slice(),
        ).0 {
            return Err(HeaderVerificationError::InvalidPrevStateRootOfChunks);
        }
        Ok(())
    }
}

/// The first of the first `n` proofs that is not the bytes of a node.
pub open spec fn spec_first_undecodable(proofs: Seq<Seq<u8>>, n: nat) -> Option<int>
    decreases n,
{
    if n == 0 {
        None
    } else {
        match spec_first_undecodable(proofs, (n - 1) as nat) {
            Some(i) => Some(i),
            None => if spec_decode_node_with_size(proofs[n - 1]) is None {
                Some(n - 1)
            } else {
                None
            },
        }
    }
}

/// The nodes that the proofs hold.
pub open spec fn spec_decoded_nodes(proofs: Seq<Seq<u8>>) -> Seq<SpecTrieNodeWithSize> {
    Seq::new(proofs.len(), |i: int| spec_decode_node_with_size(proofs[i]).unwrap())
}

/// What stands before the walk of a proof about the state, or `None` where the walk is
/// to decide: there must be a proof, the hash of the first must be the state root of a
/// chunk of the header, and every proof must be the bytes of a node.
pub open spec fn spec_state_proof_preamble(state: SpecConsensusState, proofs: Seq<Seq<u8>>) -> Option<
    StateProofVerificationError,
> {
    if proofs.len() == 0 {
        Some(StateProofVerificationError::MissingProofData)
    } else if !state.header.prev_state_root_of_chunks.contains(spec_sha256(proofs[0])) {
        Some(StateProofVerificationError::InvalidRootHashOfProofData)
    } else {
        match spec_first_undecodable(proofs, proofs.len()) {
            Some(i) => Some(StateProofVerificationError::InvalidProofData { proof_index: i as u16 }),
            None => None,
        }
    }
}

/// What the check that `key` has the value `value` in the state that `state` commits to
/// says, given `proofs`.
pub open spec fn spec_verify_membership(
    state: SpecConsensusState,
    key: Seq<u8>,
    value: Seq<u8>,
    proofs: Seq<Seq<u8>>,
) -> Result<(), StateProofVerificationError> {
    match spec_state_proof_preamble(state, proofs) {
        Some(e) => Err(e),
        None => spec_verify_state_proof(
            spec_key_nibbles(key),
            spec_decoded_nodes(proofs),
            spec_sha256(value),
            0,
            spec_sha256(proofs[0]),
        ),
    }
}

/// What the check that `key` has no value in the state that `state` commits to says,
/// given `proofs`.
pub open spec fn spec_verify_non_membership(
    state: SpecConsensusState,
    key: Seq<u8>,
    proofs: Seq<Seq<u8>>,
) -> Result<(), StateProofVerificationError> {
    match spec_state_proof_preamble(state, proofs) {
        Some(e) => Err(e),
        None => spec_verify_not_in_state(
            spec_key_nibbles(key),
            spec_decoded_nodes(proofs),
            0,
            spec_sha256(proofs[0]),
        ),
    }
}

/// The root of the outcomes of a block, as the two paths give it: the first leads from
/// the outcome to the root of the outcomes of its chunk, the second from there to the
/// root of the outcomes of the block.
pub open spec fn spec_outcome_root(
    outcome: SpecExecutionOutcomeWithId,
    outcome_proof: Seq<SpecMerklePathItem>,
    outcome_root_proof: Seq<SpecMerklePathItem>,
) -> Seq<u8> {
    let chunk_outcome_root = spec_compute_root(
        outcome_proof,
        spec_sha256(Vec::<CryptoHash>::spec_encode(spec_outcome_hashes(outcome))),
    );
    spec_compute_root(outcome_root_proof, spec_sha256(chunk_outcome_root))
}

/// What the check of an outcome against the trusted `state` says. The outcome must lead
/// to the outcome root of its block, and the block to the block merkle root of the
/// header of `state`. An outcome whose hashes have no encoding leads nowhere.
pub open spec fn spec_verify_transaction_or_receipt(
    state: SpecConsensusState,
    outcome: SpecExecutionOutcomeWithId,
    outcome_proof: Seq<SpecMerklePathItem>,
    outcome_root_proof: Seq<SpecMerklePathItem>,
    block: SpecBlockLite,
    block_proof: Seq<SpecMerklePathItem>,
) -> Result<(), TransactionVerificationError> {
    if !spec_outcome_encodable(outcome.outcome) || outcome.outcome.logs.len() + 2 > u32::MAX
        || spec_outcome_root(outcome, outcome_proof, outcome_root_proof)
        != block.inner_lite.outcome_root {
        Err(TransactionVerificationError::InvalidOutcomeProof)
    } else if spec_compute_root(
        block_proof,
        spec_current_block_hash(block.inner_lite, block.inner_rest_hash, block.prev_block_hash),
    ) != state.header.light_client_block.inner_lite.block_merkle_root {
        Err(TransactionVerificationError::InvalidBlockProof)
    } else {
        Ok(())
    }
}

/// Where a proof among the first `k` is not the bytes of a node, the first such proof
/// among more is the same.
pub proof fn lemma_first_undecodable_stays(proofs: Seq<Seq<u8>>, k: nat, n: nat)
    requires
        k <= n,
        spec_first_undecodable(proofs, k) is Some,
    ensures
        spec_first_undecodable(proofs, n) == spec_first_undecodable(proofs, k),
    decreases n,
{
    if k < n {
        lemma_first_undecodable_stays(proofs, k, (n - 1) as nat);
    }
}

impl ConsensusState {
    /// Does what stands before the walk of a proof: returns the nodes and the root with
    /// which the walk begins.
    #[verifier::loop_isolation(false)]
    fn decode_proofs(&self, proofs: &Vec<Vec<u8>>) -> (r: Result<
        (Vec<RawTrieNodeWithSize>, CryptoHash),
        StateProofVerificationError,
    >)
        requires
            proofs.len() <= 0x1_0000,
        ensures
            match r {
                Ok((nodes, root)) => {
                    &&& spec_state_proof_preamble(self@, proofs.deep_view()) is None
                    &&& nodes.deep_view() == spec_decoded_nodes(proofs.deep_view())
                    &&& root@ == spec_sha256(proofs.deep_view()[0])
                },
                Err(e) => spec_state_proof_preamble(self@, proofs.deep_view()) == Some(e),
            },
    {
        if proofs.len() == 0 {
            return Err(StateProofVerificationError::MissingProofData);
        }
        assert(proofs.deep_view()[0] == proofs[0]@);
        let root_hash = CryptoHash(sha256(proofs[0].as_slice()));
        let chunks = &self.header.prev_state_root_of_chunks;
        let mut found = false;
        let mut c: usize = 0;
        while c < chunks.len() && !found
            invariant
                c <= chunks.len(),
                found ==> chunks.deep_view().contains(root_hash@),
                !found ==> forall|k: int| 0 <= k < c ==> chunks.deep_view()[k] != root_hash@,
            decreases chunks.len() - c,
        {
            assert(chunks.deep_view()[c as int] == chunks[c as int]@);
            if chunks[c] == root_hash {
                found = true;
            }
            c += 1;
        }
        if !found {
            return Err(StateProofVerificationError::InvalidRootHashOfProofData);
        }
        let mut nodes: Vec<RawTrieNodeWithSize> = Vec::new();
        let mut i: usize = 0;
        while i < proofs.len()
            invariant
                i <= proofs.len() <= 0x1_0000,
                nodes.len() == i,
                spec_first_undecodable(proofs.deep_view(), i as nat) is None,
                forall|k: int|
                    0 <= k < i ==> Some((#[trigger] nodes[k]).deep_view())
                        == spec_decode_node_with_size(proofs.deep_view()[k]),
            decreases proofs.len() - i,
        {
            assert(proofs.deep_view()[i as int] == proofs[i as int]@);
            match RawTrieNodeWithSize::decode(proofs[i].as_slice()) {
                Ok(node) => {
                    nodes.push(node);
                },
                Err(_) => {
                    proof {
                        lemma_first_undecodable_stays(
                            proofs.deep_view(),
                            (i + 1) as nat,
                            proofs.len() as nat,
                        );
                    }
                    return Err(
                        StateProofVerificationError::InvalidProofData { proof_index: i as u16 },
                    );
                },
            }
            i += 1;
        }
        assert(nodes.deep_view() =~= spec_decoded_nodes(proofs.deep_view()));
        Ok((nodes, root_hash))
    }

    /// Checks that `key` has the value `value` in the state before the block of this
    /// state, given the proof nodes `proofs`, which must be those of the height before.
    ///
    /// The index of a node goes into an error as 16 bits, so there may be no more than
    /// 65536 proofs.
    pub fn verify_membership(&self, key: &[u8], value: &[u8], proofs: &Vec<Vec<u8>>) -> (r: Result<
        (),
        StateProofVerificationError,
    >)
        requires
            proofs.len() <= 0x1_0000,
        ensures
            r == spec_verify_membership(self@, key@, value@, proofs.deep_view()),
    {
        match self.decode_proofs(proofs) {
            Ok((nodes, root_hash)) => verify_state_proof(key, nodes.as_slice(), value, &root_hash),
            Err(e) => Err(e),
        }
    }

    /// Checks that `key` has no value in the state before the block of this state, given
    /// the proof nodes `proofs`, which must be those of the height before.
    ///
    /// The index of a node goes into an error as 16 bits, so there may be no more than
    /// 65536 proofs.
    pub fn verify_non_membership(&self, key: &[u8], proofs: &Vec<Vec<u8>>) -> (r: Result<
        (),
        StateProofVerificationError,
    >)
        requires
            proofs.len() <= 0x1_0000,
        ensures
            r == spec_verify_non_membership(self@, key@, proofs.deep_view()),
    {
        match self.decode_proofs(proofs) {
            Ok((nodes, root_hash)) => verify_not_in_state(key, nodes.as_slice(), &root_hash),
            Err(e) => Err(e),
        }
    }

    /// Checks that the outcome of a transaction or a receipt is part of a block, and that
    /// block part of the chain that this state trusts.
    pub fn verify_transaction_or_receipt(
        &self,
        outcome_with_id: &ExecutionOutcomeWithId,
        outcome_proof: &MerklePath,
        outcome_root_proof: &MerklePath,
        block_lite_view: &LightClientBlockLite,
        block_proof: &MerklePath,
    ) -> (r: Result<(), TransactionVerificationError>)
        ensures
            r == spec_verify_transaction_or_receipt(
                self@,
                outcome_with_id@,
                outcome_proof.deep_view(),
                outcome_root_proof.deep_view(),
                block_lite_view@,
                block_proof.deep_view(),
            ),
    {
        if !outcome_with_id.outcome.is_encodable() || outcome_with_id.outcome.logs.len()
            > u32::MAX as usize - 2 {
            return Err(TransactionVerificationError::InvalidOutcomeProof);
        }
        let hashes = outcome_with_id.to_hashes();
        let chunk_outcome_root = compute_root_from_path(
            outcome_proof,
            CryptoHash::hash_borsh(&hashes),
        );
        let outcome_root = compute_root_from_path(
            outcome_root_proof,
            CryptoHash::hash_borsh(&chunk_outcome_root),
        );
        if outcome_root != block_lite_view.inner_lite.outcome_root {
            return Err(TransactionVerificationError::InvalidOutcomeProof);
        }
        let block_merkle_root = compute_root_from_path(
            block_proof,
            block_lite_view.current_block_hash(),
        );
        if block_merkle_root == self.header.light_client_block.inner_lite.block_merkle_root {
            Ok(())
        } else {
            Err(TransactionVerificationError::InvalidBlockProof)
        }
    }
}

} // verus!
