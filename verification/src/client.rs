//! The light client: the consensus states that it trusts, by height, and what it does
//! with a header that it is offered.

use crate::near_types::merkle::MerklePath;
use crate::near_types::transaction::ExecutionOutcomeWithId;
use crate::near_types::LightClientBlockLite;
use crate::types::{ConsensusState, Header, Height, SpecConsensusState, SpecHeader};
use crate::{
    spec_block_producers_of, spec_verify_header, spec_verify_membership,
    spec_verify_non_membership, spec_verify_transaction_or_receipt, HeaderVerificationError,
    SpecHeaderVerificationError, StateProofVerificationError, TransactionVerificationError,
};
use vstd::prelude::*;

verus! {

/// Why the client has no consensus state to work with.
#[derive(Clone, Copy, Debug, PartialEq, Eq, Structural)]
pub enum HostError {
    /// No consensus state is kept at this height.
    MissingHeadAtHeight { height: Height },
    /// No consensus state is kept at all.
    UninitializedClient,
}

/// Whether `heights` goes up strictly.
pub open spec fn spec_strictly_increasing(heights: Seq<Height>) -> bool {
    forall|i: int, j: int| 0 <= i < j < heights.len() ==> heights[i] < heights[j]
}

/// The latest of the heights, which go up: the last one, or 0 where there is none.
pub open spec fn spec_latest_height(heights: Seq<Height>) -> Height {
    if heights.len() == 0 {
        0
    } else {
        heights.last()
    }
}

/// The state that `states` keeps at `height`.
pub open spec fn spec_state_at(states: Map<Height, SpecConsensusState>, height: Height) -> Option<
    SpecConsensusState,
> {
    if states.dom().contains(height) {
        Some(states[height])
    } else {
        None
    }
}

/// Whether `heights` are the heights at which `states` keeps a state, going up.
pub open spec fn spec_keys_going_up(states: Map<Height, SpecConsensusState>, heights: Seq<Height>) -> bool {
    &&& spec_strictly_increasing(heights)
    &&& forall|h: Height| heights.contains(h) <==> states.dom().contains(h)
}

/// The number of the oldest heights that leave a cache of `count` heights with room for
/// `limit`: the latest height always stays.
pub open spec fn spec_evicted(count: nat, limit: u64) -> nat {
    if count <= limit || count <= 1 {
        0
    } else if limit == 0 {
        (count - 1) as nat
    } else {
        (count - limit) as nat
    }
}

/// What a light client is to its users: consensus states kept by height.
pub trait BasicNearLightClient {
    /// The consensus states that are kept, by height.
    spec fn states(&self) -> Map<Height, SpecConsensusState>;

    /// The heights at which a state is kept, going up.
    spec fn heights(&self) -> Seq<Height>;

    /// The latest height of the client, or 0 where it keeps no state.
    fn latest_height(&self) -> (height: Height)
        ensures
            height == spec_latest_height(self.heights()),
    ;

    /// The consensus state at `height`, if one is kept there.
    fn get_consensus_state(&self, height: &Height) -> (state: Option<ConsensusState>)
        ensures
            state.deep_view() == spec_state_at(self.states(), *height),
    ;

    /// Keeps `consensus_state` at `height`, in place of what was kept there.
    fn set_consensus_state(&mut self, height: &Height, consensus_state: ConsensusState)
        ensures
            final(self).states() == old(self).states().insert(*height, consensus_state@),
    ;

    /// Drops the state of the oldest height, unless it is the only one: the latest state
    /// stays.
    fn evict_oldest(&mut self)
        ensures
            old(self).heights().len() <= 1 ==> final(self).states() == old(self).states()
                && final(self).heights() == old(self).heights(),
            old(self).heights().len() > 1 ==> final(self).states() == old(self).states().remove(
                old(self).heights()[0],
            ) && final(self).heights() == old(self).heights().skip(1),
    ;

    /// The heights at which a state is kept, going up.
    fn cached_heights(&self) -> (heights: Vec<Height>)
        ensures
            heights@ == self.heights(),
            spec_keys_going_up(self.states(), heights@),
    ;
}

/// Checks `header` against the consensus state of the latest height of `client`. A client
/// without that state checks nothing, and says so.
pub fn verify_header<C: BasicNearLightClient>(client: &C, header: &Header) -> (r: Result<
    Result<(), HeaderVerificationError>,
    HostError,
>)
    ensures
        match r {
            Ok(Ok(_)) => spec_state_at(client.states(), spec_latest_height(client.heights()))
                matches Some(state) && spec_verify_header(state, header@) is Ok,
            Ok(Err(e)) => spec_state_at(client.states(), spec_latest_height(client.heights()))
                matches Some(state) && spec_verify_header(state, header@) == Err::<
                (),
                SpecHeaderVerificationError,
            >(e@),
            Err(e) => spec_state_at(client.states(), spec_latest_height(client.heights()))
                is None && e == HostError::UninitializedClient,
        },
{
    let latest = client.latest_height();
    match client.get_consensus_state(&latest) {
        Some(state) => Ok(state.verify_header(header)),
        None => Err(HostError::UninitializedClient),
    }
}

/// Checks that `key` has the value `value` in the state that the consensus state of
/// `client` at `height` commits to. `proofs` must be the proof nodes of the height before,
/// no more than 65536 of them. A client without a state at `height` checks nothing, and
/// says so.
pub fn verify_membership<C: BasicNearLightClient>(
    client: &C,
    height: Height,
    key: &[u8],
    value: &[u8],
    proofs: &Vec<Vec<u8>>,
) -> (r: Result<Result<(), StateProofVerificationError>, HostError>)
    requires
        proofs.len() <= 0x1_0000,
    ensures
        match r {
            Ok(verdict) => spec_state_at(client.states(), height) matches Some(state) && verdict
                == spec_verify_membership(state, key@, value@, proofs.deep_view()),
            Err(e) => spec_state_at(client.states(), height) is None && e
                == (HostError::MissingHeadAtHeight { height }),
        },
{
    match client.get_consensus_state(&height) {
        Some(state) => Ok(state.verify_membership(key, value, proofs)),
        None => Err(HostError::MissingHeadAtHeight { height }),
    }
}

/// Checks that `key` has no value in the state that the consensus state of `client` at
/// `height` commits to. `proofs` must be the proof nodes of the height before, no more
/// than 65536 of them. A client without a state at `height` checks nothing, and says so.
pub fn verify_non_membership<C: BasicNearLightClient>(
    client: &C,
    height: Height,
    key: &[u8],
    proofs: &Vec<Vec<u8>>,
) -> (r: Result<Result<(), StateProofVerificationError>, HostError>)
    requires
        proofs.len() <= 0x1_0000,
    ensures
        match r {
            Ok(verdict) => spec_state_at(client.states(), height) matches Some(state) && verdict
                == spec_verify_non_membership(state, key@, proofs.deep_view()),
            Err(e) => spec_state_at(client.states(), height) is None && e
                == (HostError::MissingHeadAtHeight { height }),
        },
{
    match client.get_consensus_state(&height) {
        Some(state) => Ok(state.verify_non_membership(key, proofs)),
        None => Err(HostError::MissingHeadAtHeight { height }),
    }
}

/// Checks the outcome of a transaction or a receipt against the consensus state of the
/// latest height of `client`. A client without that state checks nothing, and says so.
pub fn verify_transaction_or_receipt<C: BasicNearLightClient>(
    client: &C,
    outcome_with_id: &ExecutionOutcomeWithId,
    outcome_proof: &MerklePath,
    outcome_root_proof: &MerklePath,
    block_lite_view: &LightClientBlockLite,
    block_proof: &MerklePath,
) -> (r: Result<Result<(), TransactionVerificationError>, HostError>)
    ensures
        match r {
            Ok(verdict) => spec_state_at(client.states(), spec_latest_height(client.heights()))
                matches Some(state) && verdict == spec_verify_transaction_or_receipt(
                state,
                outcome_with_id@,
                outcome_proof.deep_view(),
                outcome_root_proof.deep_view(),
                block_lite_view@,
                block_proof.deep_view(),
            ),
            Err(e) => spec_state_at(client.states(), spec_latest_height(client.heights()))
                is None && e == HostError::UninitializedClient,
        },
{
    let latest = client.latest_height();
    match client.get_consensus_state(&latest) {
        Some(state) => Ok(
            state.verify_transaction_or_receipt(
                outcome_with_id,
                outcome_proof,
                outcome_root_proof,
                block_lite_view,
                block_proof,
            ),
        ),
        None => Err(HostError::UninitializedClient),
    }
}

/// In a sequence that goes up strictly, a value stands at one place only.
pub proof fn lemma_index_in_increasing(heights: Seq<Height>, i: int)
    requires
        spec_strictly_increasing(heights),
        0 <= i < heights.len(),
    ensures
        heights.contains(heights[i]),
        heights.index_of(heights[i]) == i,
{
    let j = heights.index_of(heights[i]);
    assert(0 <= j < heights.len() && heights[j] == heights[i]);
    if j < i {
        assert(heights[j] < heights[i]);
    } else if i < j {
        assert(heights[i] < heights[j]);
    }
}

/// A light client that keeps its consensus states in memory, no more of them than its
/// limit says: the oldest leave first, and the latest always stays.
pub struct LightClient {
    max_cached_heights: u64,
    cached_heights: Vec<Height>,
    cached_states: Vec<ConsensusState>,
}

impl LightClient {
    #[verifier::type_invariant]
    spec fn inv(self) -> bool {
        &&& self.cached_heights.len() == self.cached_states.len()
        &&& spec_strictly_increasing(self.cached_heights@)
    }

    /// The number of heights that the client keeps at most.
    pub closed spec fn limit(&self) -> u64 {
        self.max_cached_heights
    }
}

impl View for LightClient {
    type V = Map<Height, SpecConsensusState>;

    closed spec fn view(&self) -> Map<Height, SpecConsensusState> {
        Map::new(
            |h: Height| self.cached_heights@.contains(h),
            |h: Height| self.cached_states@[self.cached_heights@.index_of(h)].deep_view(),
        )
    }
}

impl LightClient {
    /// A client without consensus states, which keeps at most `max_cached_heights` of
    /// them.
    pub fn new(max_cached_heights: u64) -> (client: Self)
        ensures
            client@ == Map::<Height, SpecConsensusState>::empty(),
            client.heights() == Seq::<Height>::empty(),
            client.limit() == max_cached_heights,
    {
        let client = LightClient {
            max_cached_heights,
            cached_heights: Vec::new(),
            cached_states: Vec::new(),
        };
        assert(client@ =~= Map::<Height, SpecConsensusState>::empty());
        client
    }

    /// Takes the client apart, and leaves an empty one in its place.
    fn take_apart(&mut self) -> (parts: (u64, Vec<Height>, Vec<ConsensusState>))
        ensures
            parts.0 == old(self).max_cached_heights,
            parts.1 == old(self).cached_heights,
            parts.2 == old(self).cached_states,
    {
        let mut taken = LightClient {
            max_cached_heights: 0,
            cached_heights: Vec::new(),
            cached_states: Vec::new(),
        };
        core::mem::swap(self, &mut taken);
        let LightClient { max_cached_heights, cached_heights, cached_states } = taken;
        (max_cached_heights, cached_heights, cached_states)
    }

    /// The oldest height at which a state is kept.
    pub fn oldest_height(&self) -> (height: Option<u64>)
        ensures
            height == (if self.heights().len() == 0 {
                None
            } else {
                Some(self.heights()[0])
            }),
    {
        if self.cached_heights.len() == 0 {
            None
        } else {
            Some(self.cached_heights[0])
        }
    }

    /// The place of `height` among the heights, or the place at which it would stand.
    fn place_of(&self, height: Height) -> (place: usize)
        ensures
            place <= self.heights().len(),
            forall|k: int| 0 <= k < place ==> self.heights()[k] < height,
            forall|k: int| place <= k < self.heights().len() ==> self.heights()[k] >= height,
            self@.dom().contains(height) <==> (place < self.heights().len()
                && self.heights()[place as int] == height),
    {
        proof {
            use_type_invariant(self);
        }
        let mut place: usize = 0;
        while place < self.cached_heights.len() && self.cached_heights[place] < height
            invariant
                place <= self.cached_heights.len(),
                forall|k: int| 0 <= k < place ==> self.cached_heights[k] < height,
            decreases self.cached_heights.len() - place,
        {
            place += 1;
        }
        proof {
            let heights = self.cached_heights@;
            assert forall|k: int| place <= k < heights.len() implies heights[k] >= height by {
                if place < k {
                    assert(heights[place as int] < heights[k]);
                }
            }
            if place < heights.len() && heights[place as int] == height {
                lemma_index_in_increasing(heights, place as int);
            }
            if heights.contains(height) {
                let j = heights.index_of(height);
                assert(0 <= j < heights.len() && heights[j] == height);
                assert(j >= place);
                if j > place {
                    assert(heights[place as int] < heights[j]);
                }
            }
        }
        place
    }

    /// The state at `height`, or why there is none.
    pub fn consensus_state_at(&self, height: Height) -> (r: Result<ConsensusState, HostError>)
        ensures
            match r {
                Ok(state) => spec_state_at(self@, height) == Some(state@),
                Err(e) => spec_state_at(self@, height) is None && e
                    == (HostError::MissingHeadAtHeight { height }),
            },
    {
        match self.get_consensus_state(&height) {
            Some(state) => Ok(state),
            None => Err(HostError::MissingHeadAtHeight { height }),
        }
    }

    /// The state at the latest height, or why there is none.
    pub fn latest_consensus_state(&self) -> (r: Result<ConsensusState, HostError>)
        ensures
            match r {
                Ok(state) => self.heights().len() > 0 && spec_state_at(
                    self@,
                    spec_latest_height(self.heights()),
                ) == Some(state@),
                Err(e) => self.heights().len() == 0 && e == HostError::UninitializedClient,
            },
    {
        proof {
            use_type_invariant(self);
        }
        let count = self.cached_heights.len();
        if count == 0 {
            return Err(HostError::UninitializedClient);
        }
        proof {
            lemma_index_in_increasing(self.cached_heights@, count - 1);
        }
        Ok(self.cached_states[count - 1].clone())
    }

    /// Drops the oldest states until no more than the limit are kept. The latest state
    /// stays, whatever the limit.
    pub fn enforce_limit(&mut self)
        ensures
            final(self).limit() == old(self).limit(),
            final(self).heights() == old(self).heights().skip(
                spec_evicted(old(self).heights().len(), old(self).limit()) as int,
            ),
            final(self)@ == old(self)@.restrict(final(self).heights().to_set()),
    {
        proof {
            use_type_invariant(&*self);
        }
        let ghost before = *self;
        assert(self.heights().skip(0) =~= self.heights());
        assert(self@ =~= self@.restrict(self.heights().to_set()));
        let mut dropped: usize = 0;
        while self.cached_heights.len() > 1 && (self.cached_heights.len() as u64)
            > self.max_cached_heights
            invariant
                self.limit() == before.limit(),
                dropped <= before.heights().len(),
                self.heights() == before.heights().skip(dropped as int),
                self@ == before@.restrict(self.heights().to_set()),
                before.heights().len() <= usize::MAX,
                self.heights().len() >= 1 || before.heights().len() == 0,
                self.heights().len() + dropped == before.heights().len(),
                dropped <= spec_evicted(before.heights().len(), before.limit()),
                self.heights().len() == self.cached_heights.len(),
                self.limit() == self.max_cached_heights,
            decreases self.cached_heights.len(),
        {
            let ghost middle = *self;
            self.evict_oldest();
            dropped += 1;
            proof {
                assert(self.heights() =~= before.heights().skip(dropped as int));
                assert(self@ =~= before@.restrict(self.heights().to_set())) by {
                    assert forall|h: Height|
                        self@.dom().contains(h) <==> before@.restrict(
                            self.heights().to_set(),
                        ).dom().contains(h) by {
                        if self.heights().contains(h) {
                            let j = self.heights().index_of(h);
                            assert(middle.heights()[j + 1] == h);
                            assert(middle.heights().contains(h));
                        }
                    }
                }
            }
        }
    }

    /// Installs `header` as the consensus state of its height, with the block producers
    /// of its epoch as far as the latest state knows them: those of the latest state
    /// where the epoch is the same, those that its header names where the epoch is the
    /// next. Then drops the oldest states that are over the limit. A client without a
    /// state is left as it is.
    pub fn update_state(&mut self, header: Header) -> (r: Result<(), HostError>)
        ensures
            final(self).limit() == old(self).limit(),
            old(self).heights().len() == 0 ==> r == Err::<(), HostError>(
                HostError::UninitializedClient,
            ) && final(self)@ == old(self)@ && final(self).heights() == old(self).heights(),
            old(self).heights().len() > 0 ==> r is Ok && spec_is_installed(
                old(self)@,
                old(self).heights(),
                header@,
                final(self)@,
                final(self).heights(),
                old(self).limit(),
            ),
    {
        let latest = match self.latest_consensus_state() {
            Ok(state) => state,
            Err(e) => {
                return Err(e);
            },
        };
        let height = header.height();
        let current_bps = latest.get_block_producers_of(&header.epoch_id());
        let state = ConsensusState { current_bps, header };
        self.set_consensus_state(&height, state);
        self.enforce_limit();
        Ok(())
    }
}

/// What became of a header that was offered to the client.
#[derive(Debug, PartialEq, Eq)]
pub enum HeaderDecision {
    /// The header passed the check and is the state of its height now.
    Installed,
    /// The header did not pass the check, and the client is as it was.
    Rejected(HeaderVerificationError),
}

impl LightClient {
    /// Checks `header` against the latest state, and installs it where it passes. A
    /// header that does not pass is not kept. A client without a state is left as it is.
    pub fn offer_header(&mut self, header: Header) -> (r: Result<HeaderDecision, HostError>)
        ensures
            final(self).limit() == old(self).limit(),
            old(self).heights().len() == 0 ==> r == Err::<HeaderDecision, HostError>(
                HostError::UninitializedClient,
            ) && final(self)@ == old(self)@ && final(self).heights() == old(self).heights(),
            old(self).heights().len() > 0 ==> match r {
                Ok(HeaderDecision::Installed) => {
                    &&& spec_verify_header(
                        old(self)@[spec_latest_height(old(self).heights())],
                        header@,
                    ) is Ok
                    &&& spec_is_installed(
                        old(self)@,
                        old(self).heights(),
                        header@,
                        final(self)@,
                        final(self).heights(),
                        old(self).limit(),
                    )
                },
                Ok(HeaderDecision::Rejected(e)) => {
                    &&& spec_verify_header(
                        old(self)@[spec_latest_height(old(self).heights())],
                        header@,
                    ) == Err::<(), SpecHeaderVerificationError>(e@)
                    &&& final(self)@ == old(self)@
                    &&& final(self).heights() == old(self).heights()
                },
                Err(_) => false,
            },
    {
        let latest = match self.latest_consensus_state() {
            Ok(state) => state,
            Err(e) => {
                return Err(e);
            },
        };
        match latest.verify_header(&header) {
            Ok(_) => match self.update_state(header) {
                Ok(_) => Ok(HeaderDecision::Installed),
                Err(e) => Err(e),
            },
            Err(e) => Ok(HeaderDecision::Rejected(e)),
        }
    }
}

/// The state that a header becomes when it is installed after `latest`.
pub open spec fn spec_installed_state(latest: SpecConsensusState, header: SpecHeader) -> SpecConsensusState {
    SpecConsensusState {
        current_bps: spec_block_producers_of(latest, header.epoch_id()),
        header,
    }
}

/// Whether a client with the states `after`, at the heights `heights_after`, is what
/// installing `header` makes of a client with the states `before` at the heights
/// `heights_before` that keeps at most `limit` of them: the header becomes the state
/// of its height, and then the oldest heights over the limit leave.
pub open spec fn spec_is_installed(
    before: Map<Height, SpecConsensusState>,
    heights_before: Seq<Height>,
    header: SpecHeader,
    after: Map<Height, SpecConsensusState>,
    heights_after: Seq<Height>,
    limit: u64,
) -> bool {
    let latest = before[spec_latest_height(heights_before)];
    let all = before.insert(header.height(), spec_installed_state(latest, header));
    exists|middle: Seq<Height>|
        {
            &&& #[trigger] spec_keys_going_up(all, middle)
            &&& heights_after == middle.skip(spec_evicted(middle.len(), limit) as int)
            &&& after == all.restrict(heights_after.to_set())
        }
}

impl BasicNearLightClient for LightClient {
    closed spec fn states(&self) -> Map<Height, SpecConsensusState> {
        self@
    }

    closed spec fn heights(&self) -> Seq<Height> {
        self.cached_heights@
    }

    fn latest_height(&self) -> (height: Height) {
        let count = self.cached_heights.len();
        if count == 0 {
            0
        } else {
            self.cached_heights[count - 1]
        }
    }

    fn get_consensus_state(&self, height: &Height) -> (state: Option<ConsensusState>) {
        proof {
            use_type_invariant(self);
        }
        let place = self.place_of(*height);
        if place < self.cached_heights.len() && self.cached_heights[place] == *height {
            proof {
                lemma_index_in_increasing(self.cached_heights@, place as int);
            }
            Some(self.cached_states[place].clone())
        } else {
            None
        }
    }

    fn set_consensus_state(&mut self, height: &Height, consensus_state: ConsensusState)
        ensures
            final(self).limit() == old(self).limit(),
            spec_keys_going_up(final(self).states(), final(self).heights()),
    {
        proof {
            use_type_invariant(&*self);
        }
        let ghost before = *self;
        let place = self.place_of(*height);
        let (max_cached_heights, mut cached_heights, mut cached_states) = self.take_apart();
        if place < cached_heights.len() && cached_heights[place] == *height {
            cached_states[place] = consensus_state;
            *self = LightClient { max_cached_heights, cached_heights, cached_states };
            proof {
                assert forall|h: Height| #[trigger]
                    self@.dom().contains(h) implies self@[h] == before@.insert(
                    *height,
                    consensus_state@,
                )[h] by {
                    let j = self.cached_heights@.index_of(h);
                    if j == place {
                        lemma_index_in_increasing(self.cached_heights@, place as int);
                    }
                }
                assert(self@ =~= before@.insert(*height, consensus_state@));
            }
        } else {
            cached_heights.insert(place, *height);
            cached_states.insert(place, consensus_state);
            proof {
                let old_heights = before.cached_heights@;
                let new_heights = cached_heights@;
                assert(spec_strictly_increasing(new_heights)) by {
                    assert forall|i: int, j: int| 0 <= i < j < new_heights.len() implies new_heights[i]
                        < new_heights[j] by {
                        if i < place && j > place {
                            assert(old_heights[i] < *height);
                            assert(old_heights[j - 1] >= *height);
                        }
                    }
                }
            }
            *self = LightClient { max_cached_heights, cached_heights, cached_states };
            proof {
                let old_heights = before.cached_heights@;
                let new_heights = self.cached_heights@;
                assert(spec_strictly_increasing(new_heights)) by {
                    assert forall|i: int, j: int| 0 <= i < j < new_heights.len() implies new_heights[i]
                        < new_heights[j] by {
                        if i < place && j > place {
                            assert(old_heights[i] < *height);
                            assert(old_heights[j - 1] >= *height);
                        }
                    }
                }
                assert forall|h: Height|
                    new_heights.contains(h) <==> (old_heights.contains(h) || h == *height) by {
                    if old_heights.contains(h) {
                        let j = old_heights.index_of(h);
                        if j < place {
                            assert(new_heights[j] == h);
                        } else {
                            assert(new_heights[j + 1] == h);
                        }
                    }
                    if h == *height {
                        assert(new_heights[place as int] == h);
                    }
                    if new_heights.contains(h) {
                        let j = new_heights.index_of(h);
                        if j < place {
                            assert(old_heights[j] == h);
                        } else if j > place {
                            assert(old_heights[j - 1] == h);
                        }
                    }
                }
                assert forall|h: Height| #[trigger]
                    self@.dom().contains(h) implies self@[h] == before@.insert(
                    *height,
                    consensus_state@,
                )[h] by {
                    let j = new_heights.index_of(h);
                    if j < place {
                        lemma_index_in_increasing(old_heights, j);
                    } else if j > place {
                        lemma_index_in_increasing(old_heights, j - 1);
                    } else {
                        lemma_index_in_increasing(new_heights, place as int);
                    }
                }
                assert(self@ =~= before@.insert(*height, consensus_state@));
            }
        }
    }

    fn evict_oldest(&mut self)
        ensures
            final(self).limit() == old(self).limit(),
    {
        proof {
            use_type_invariant(&*self);
        }
        let ghost before = *self;
        if self.cached_heights.len() > 1 {
            let (max_cached_heights, mut cached_heights, mut cached_states) = self.take_apart();
            cached_heights.remove(0);
            cached_states.remove(0);
            assert(cached_heights@ =~= before.cached_heights@.skip(1));
            *self = LightClient { max_cached_heights, cached_heights, cached_states };
            proof {
                let old_heights = before.cached_heights@;
                let new_heights = self.cached_heights@;
                assert(new_heights =~= old_heights.skip(1));
                lemma_index_in_increasing(old_heights, 0);
                assert forall|h: Height|
                    new_heights.contains(h) <==> (old_heights.contains(h) && h
                        != old_heights[0]) by {
                    if old_heights.contains(h) && h != old_heights[0] {
                        let j = old_heights.index_of(h);
                        assert(new_heights[j - 1] == h);
                    }
                    if new_heights.contains(h) {
                        let j = new_heights.index_of(h);
                        assert(old_heights[j + 1] == h);
                        assert(old_heights[0] < old_heights[j + 1]);
                    }
                }
                assert forall|h: Height| #[trigger]
                    self@.dom().contains(h) implies self@[h] == before@.remove(old_heights[0])[h] by {
                    let j = new_heights.index_of(h);
                    lemma_index_in_increasing(old_heights, j + 1);
                }
                assert(self@ =~= before@.remove(old_heights[0]));
            }
        }
    }

    fn cached_heights(&self) -> (heights: Vec<Height>) {
        proof {
            use_type_invariant(self);
        }
        let mut heights: Vec<Height> = Vec::new();
        let mut i: usize = 0;
        while i < self.cached_heights.len()
            invariant
                i <= self.cached_heights.len(),
                heights@ == self.cached_heights@.take(i as int),
            decreases self.cached_heights.len() - i,
        {
            heights.push(self.cached_heights[i]);
            assert(heights@ =~= self.cached_heights@.take(i + 1));
            i += 1;
        }
        assert(self.cached_heights@.take(i as int) =~= self.cached_heights@);
        heights
    }
}

} // verus!
