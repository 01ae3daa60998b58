//! What the light client keeps: headers, and the consensus states it trusts.

use crate::codec::{
    lemma_parse_at_encoded, lemma_parse_at_within, parse_field, spec_parse_at, Encoded,
};
use crate::near_types::hash::CryptoHash;
use crate::near_types::{
    clone_optional_block_producers, LightClientBlock, SpecBlock, SpecValidatorStake,
    ValidatorStakeView,
};
use vstd::prelude::*;

verus! {

/// A block height.
pub type Height = u64;

/// The header data of the light client: a block header, and the state roots of the chunks
/// of the block.
#[derive(Debug, PartialEq, Eq)]
pub struct Header {
    pub light_client_block: LightClientBlock,
    /// The state root before the block of each chunk of the block, one for each shard.
    pub prev_state_root_of_chunks: Vec<CryptoHash>,
}

/// What the light client trusts at a height.
#[derive(Debug, PartialEq, Eq)]
pub struct ConsensusState {
    /// The block producers of the epoch of the header, where they are known.
    pub current_bps: Option<Vec<ValidatorStakeView>>,
    /// The header.
    pub header: Header,
}

/// The model of a header.
pub struct SpecHeader {
    pub light_client_block: SpecBlock,
    pub prev_state_root_of_chunks: Seq<Seq<u8>>,
}

/// The model of a consensus state.
pub struct SpecConsensusState {
    pub current_bps: Option<Seq<SpecValidatorStake>>,
    pub header: SpecHeader,
}

impl DeepView for Header {
    type V = SpecHeader;

    open spec fn deep_view(&self) -> SpecHeader {
        SpecHeader {
            light_client_block: self.light_client_block.deep_view(),
            prev_state_root_of_chunks: self.prev_state_root_of_chunks.deep_view(),
        }
    }
}

impl View for Header {
    type V = SpecHeader;

    open spec fn view(&self) -> SpecHeader {
        self.deep_view()
    }
}

impl DeepView for ConsensusState {
    type V = SpecConsensusState;

    open spec fn deep_view(&self) -> SpecConsensusState {
        SpecConsensusState {
            current_bps: self.current_bps.deep_view(),
            header: self.header.deep_view(),
        }
    }
}

impl View for ConsensusState {
    type V = SpecConsensusState;

    open spec fn view(&self) -> SpecConsensusState {
        self.deep_view()
    }
}

impl SpecHeader {
    /// The height of the block.
    pub open spec fn height(self) -> u64 {
        self.light_client_block.inner_lite.height
    }

    /// The epoch of the block.
    pub open spec fn epoch_id(self) -> Seq<u8> {
        self.light_client_block.inner_lite.epoch_id
    }

    /// The epoch after the epoch of the block.
    pub open spec fn next_epoch_id(self) -> Seq<u8> {
        self.light_client_block.inner_lite.next_epoch_id
    }
}

impl Header {
    /// The height of the block.
    pub fn height(&self) -> (h: Height)
        ensures
            h == self@.height(),
    {
        self.light_client_block.inner_lite.height
    }

    /// The epoch of the block.
    pub fn epoch_id(&self) -> (id: CryptoHash)
        ensures
            id@ == self@.epoch_id(),
    {
        self.light_client_block.inner_lite.epoch_id.0
    }

    /// The epoch after the epoch of the block.
    pub fn next_epoch_id(&self) -> (id: CryptoHash)
        ensures
            id@ == self@.next_epoch_id(),
    {
        self.light_client_block.inner_lite.next_epoch_id.0
    }
}

impl Clone for Header {
    fn clone(&self) -> (r: Self)
        ensures
            r.deep_view() == self.deep_view(),
    {
        let mut chunks: Vec<CryptoHash> = Vec::new();
        let mut i: usize = 0;
        while i < self.prev_state_root_of_chunks.len()
            invariant
                i <= self.prev_state_root_of_chunks.len(),
                chunks.len() == i,
                forall|k: int|
                    0 <= k < i ==> (#[trigger] chunks[k])@ == self.prev_state_root_of_chunks[k]@,
            decreases self.prev_state_root_of_chunks.len() - i,
        {
            chunks.push(self.prev_state_root_of_chunks[i]);
            i += 1;
        }
        assert(chunks.deep_view() =~= self.prev_state_root_of_chunks.deep_view());
        Header {
            light_client_block: self.light_client_block.clone(),
            prev_state_root_of_chunks: chunks,
        }
    }
}

impl Clone for ConsensusState {
    fn clone(&self) -> (r: Self)
        ensures
            r.deep_view() == self.deep_view(),
    {
        ConsensusState {
            current_bps: clone_optional_block_producers(&self.current_bps),
            header: self.header.clone(),
        }
    }
}

impl Encoded for Header {
    open spec fn encodable(m: SpecHeader) -> bool {
        &&& LightClientBlock::encodable(m.light_client_block)
        &&& Vec::<CryptoHash>::encodable(m.prev_state_root_of_chunks)
    }

    open spec fn spec_encode(m: SpecHeader) -> Seq<u8> {
        LightClientBlock::spec_encode(m.light_client_block) + Vec::<CryptoHash>::spec_encode(
            m.prev_state_root_of_chunks,
        )
    }

    open spec fn spec_parse(bytes: Seq<u8>) -> Option<(SpecHeader, int)> {
        match spec_parse_at::<LightClientBlock>(bytes, 0) {
            None => None,
            Some((light_client_block, first_end)) => match spec_parse_at::<Vec<CryptoHash>>(bytes, first_end) {
                None => None,
                Some((prev_state_root_of_chunks, second_end)) => Some(
                    (SpecHeader { light_client_block, prev_state_root_of_chunks }, second_end),
                ),
            },
        }
    }

    proof fn lemma_parse_encode(m: SpecHeader, rest: Seq<u8>) {
        let bytes = Self::spec_encode(m) + rest;
        let block = LightClientBlock::spec_encode(m.light_client_block);
        let chunks = Vec::<CryptoHash>::spec_encode(m.prev_state_root_of_chunks);
        assert(bytes.skip(0) =~= block + (chunks + rest));
        lemma_parse_at_encoded::<LightClientBlock>(bytes, 0, m.light_client_block, chunks + rest);
        lemma_parse_at_encoded::<Vec<CryptoHash>>(
            bytes,
            block.len() as int,
            m.prev_state_root_of_chunks,
            rest,
        );
    }

    proof fn lemma_parse_within(bytes: Seq<u8>) {
        lemma_parse_at_within::<LightClientBlock>(bytes, 0);
        if let Some((_, first_end)) = spec_parse_at::<LightClientBlock>(bytes, 0) {
            lemma_parse_at_within::<Vec<CryptoHash>>(bytes, first_end);
        }
    }

    fn is_encodable(&self) -> (b: bool) {
        self.light_client_block.is_encodable() && self.prev_state_root_of_chunks.is_encodable()
    }

    fn encode_into(&self, out: &mut Vec<u8>) {
        self.light_client_block.encode_into(out);
        self.prev_state_root_of_chunks.encode_into(out);
        assert(out@ =~= old(out)@ + Self::spec_encode(self.deep_view()));
    }

    fn parse(bytes: &[u8], pos: usize) -> (r: Option<(Self, usize)>) {
        let (light_client_block, first_end) = match parse_field::<LightClientBlock>(bytes, pos, pos) {
            Some(p) => p,
            None => {
                return None;
            },
        };
        let (prev_state_root_of_chunks, second_end) = match parse_field::<Vec<CryptoHash>>(bytes, pos, first_end) {
            Some(p) => p,
            None => {
                return None;
            },
        };
        Some((Header { light_client_block, prev_state_root_of_chunks }, second_end))
    }
}

impl Encoded for ConsensusState {
    open spec fn encodable(m: SpecConsensusState) -> bool {
        &&& Option::<Vec<ValidatorStakeView>>::encodable(m.current_bps)
        &&& Header::encodable(m.header)
    }

    open spec fn spec_encode(m: SpecConsensusState) -> Seq<u8> {
        Option::<Vec<ValidatorStakeView>>::spec_encode(m.current_bps) + Header::spec_encode(
            m.header,
        )
    }

    open spec fn spec_parse(bytes: Seq<u8>) -> Option<(SpecConsensusState, int)> {
        match spec_parse_at::<Option<Vec<ValidatorStakeView>>>(bytes, 0) {
            None => None,
            Some((current_bps, first_end)) => match spec_parse_at::<Header>(bytes, first_end) {
                None => None,
                Some((header, second_end)) => Some((SpecConsensusState { current_bps, header }, second_end)),
            },
        }
    }

    proof fn lemma_parse_encode(m: SpecConsensusState, rest: Seq<u8>) {
        let bytes = Self::spec_encode(m) + rest;
        let bps = Option::<Vec<ValidatorStakeView>>::spec_encode(m.current_bps);
        let header = Header::spec_encode(m.header);
        assert(bytes.skip(0) =~= bps + (header + rest));
        lemma_parse_at_encoded::<Option<Vec<ValidatorStakeView>>>(
            bytes,
            0,
            m.current_bps,
            header + rest,
        );
        lemma_parse_at_encoded::<Header>(bytes, bps.len() as int, m.header, rest);
    }

    proof fn lemma_parse_within(bytes: Seq<u8>) {
        lemma_parse_at_within::<Option<Vec<ValidatorStakeView>>>(bytes, 0);
        if let Some((_, first_end)) = spec_parse_at::<Option<Vec<ValidatorStakeView>>>(bytes, 0) {
            lemma_parse_at_within::<Header>(bytes, first_end);
        }
    }

    fn is_encodable(&self) -> (b: bool) {
        self.current_bps.is_encodable() && self.header.is_encodable()
    }

    fn encode_into(&self, out: &mut Vec<u8>) {
        self.current_bps.encode_into(out);
        self.header.encode_into(out);
        assert(out@ =~= old(out)@ + Self::spec_encode(self.deep_view()));
    }

    fn parse(bytes: &[u8], pos: usize) -> (r: Option<(Self, usize)>) {
        let (current_bps, first_end) = match parse_field::<Option<Vec<ValidatorStakeView>>>(
            bytes,
            pos,
            pos,
        ) {
            Some(p) => p,
            None => {
                return None;
            },
        };
        let (header, second_end) = match parse_field::<Header>(bytes, pos, first_end) {
            Some(p) => p,
            None => {
                return None;
            },
        };
        Some((ConsensusState { current_bps, header }, second_end))
    }
}

} // verus!
