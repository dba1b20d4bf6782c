//! The farmer's candidate proof for a consensus slot: a pure data
//! carrier, its reward-address transform, and the placeholder solution of
//! the genesis block.

use vstd::prelude::*;
use crate::crypto::{zero_bytes, Scalar, ScalarLegacy, Witness};
use crate::pieces::PieceIndex;
use crate::SectorIndex;

verus! {

/// VRF signature output and proof over the expanded chunk, establishing
/// unbiased randomness tied to the farmer's key.
#[derive(Debug, Copy, Clone, PartialEq, Eq, Hash)]
pub struct ChunkSignature {
    /// VRF output bytes.
    pub output: [u8; 32],
    /// VRF proof bytes.
    pub proof_bytes: [u8; 64],
}

/// Farmer solution for slot challenge.
#[derive(Debug, Clone, PartialEq, Eq)]
pub struct Solution<PublicKey, RewardAddress> {
    /// Public key of the farmer that created the solution.
    pub public_key: PublicKey,
    /// Address for receiving block reward.
    pub reward_address: RewardAddress,
    /// Index of the sector where the solution was found.
    pub sector_index: SectorIndex,
    /// Number of pieces in archived history at time of sector creation.
    /// Always at least one: [`Solution::wf`].
    pub total_pieces: u64,
    /// Piece offset within sector.
    pub piece_offset: PieceIndex,
    /// Piece commitment that can be used to verify that the piece was
    /// included in blockchain history.
    pub record_commitment_hash: Scalar,
    /// Witness for the above piece commitment.
    pub piece_witness: Witness,
    /// Chunk offset within the piece.
    pub chunk_offset: u32,
    /// Chunk at the above offset.
    pub chunk: ScalarLegacy,
    /// VRF signature of the expanded version of the above chunk.
    pub chunk_signature: ChunkSignature,
}

impl<PublicKey, RewardAddress> Solution<PublicKey, RewardAddress> {
    /// A solution is well formed when its snapshot of the archived
    /// history holds at least one piece, so that every derivation that
    /// reduces modulo the piece count is defined.
    pub open spec fn wf(self) -> bool {
        self.total_pieces >= 1
    }
}

impl<PublicKey, RewardAddressA> Solution<PublicKey, RewardAddressA> {
    /// Transform solution with one reward address type into solution
    /// with another compatible reward address type, through an
    /// intermediate type.  A pure structural copy: every field except the
    /// reward address is handed over unchanged.
    pub fn into_reward_address_format<T, RewardAddressB>(self) -> (r: Solution<
        PublicKey,
        RewardAddressB,
    >) where RewardAddressA: Into<T>, T: Into<RewardAddressB>
        ensures
            r.public_key == self.public_key,
            r.sector_index == self.sector_index,
            r.total_pieces == self.total_pieces,
            r.piece_offset == self.piece_offset,
            r.record_commitment_hash == self.record_commitment_hash,
            r.piece_witness == self.piece_witness,
            r.chunk_offset == self.chunk_offset,
            r.chunk == self.chunk,
            r.chunk_signature == self.chunk_signature,
            r.wf() <==> self.wf(),
    {
        let Solution {
            public_key,
            reward_address,
            sector_index,
            total_pieces,
            piece_offset,
            record_commitment_hash,
            piece_witness,
            chunk_offset,
            chunk,
            chunk_signature,
        } = self;
        Solution {
            public_key,
            reward_address: Into::<T>::into(reward_address).into(),
            sector_index,
            total_pieces,
            piece_offset,
            record_commitment_hash,
            piece_witness,
            chunk_offset,
            chunk,
            chunk_signature,
        }
    }
}

impl<PublicKey, RewardAddress> Solution<PublicKey, RewardAddress> where
    PublicKey: Clone,
    RewardAddress: Clone,
 {
    /// Dummy solution for the genesis block: sector zero, a single total
    /// piece, and all-zero commitment, chunk and signature values.  Never
    /// subject to proof verification.
    pub fn genesis_solution(public_key: PublicKey, reward_address: RewardAddress) -> (r: Self)
        ensures
            r.public_key == public_key,
            r.reward_address == reward_address,
            r.sector_index == 0,
            r.total_pieces == 1,
            r.piece_offset == PieceIndex(0),
            r.record_commitment_hash.0@ == zero_bytes(32),
            r.piece_witness.0@ == zero_bytes(48),
            r.chunk_offset == 0,
            r.chunk.0@ == zero_bytes(32),
            r.chunk_signature.output@ == zero_bytes(32),
            r.chunk_signature.proof_bytes@ == zero_bytes(64),
            r.wf(),
    {
        let r = Self {
            public_key,
            reward_address,
            sector_index: 0,
            total_pieces: 1,
            piece_offset: PieceIndex::default(),
            record_commitment_hash: Scalar::default(),
            piece_witness: Witness::default(),
            chunk_offset: 0,
            chunk: ScalarLegacy::default(),
            chunk_signature: ChunkSignature { output: [0; 32], proof_bytes: [0; 64] },
        };
        proof {
            assert(r.chunk_signature.output@ =~= zero_bytes(32));
            assert(r.chunk_signature.proof_bytes@ =~= zero_bytes(64));
        }
        r
    }
}

} // verus!
