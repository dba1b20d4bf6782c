//! Core primitives of a proof-of-archival-storage blockchain: the fixed-width
//! 256-bit integer with wraparound arithmetic and its cyclic distance metric,
//! piece and segment addressing, the hash-linked segment-header chain, sector
//! derivation, and the farmer solution record.

pub mod byte_order;
pub mod crypto;
pub mod distance;
pub mod pieces;
pub mod sector;
pub mod segments;
pub mod solution;
pub mod u256;

pub use crypto::{Commitment, Scalar, ScalarLegacy, Witness};
pub use distance::bidirectional_distance;
pub use pieces::{PieceIndex, PieceIndexHash};
pub use sector::LegacySectorId;
pub use segments::{
    ArchivedBlockProgress, LastArchivedBlock, SegmentCommitment, SegmentHeader, SegmentIndex,
};
pub use solution::{ChunkSignature, Solution};
pub use u256::U256;

use vstd::prelude::*;
use crypto::{blake2b_256_hash, blake2b_256_of};

verus! {

/// Size of BLAKE2b-256 hash output (in bytes).
pub const BLAKE2B_256_HASH_SIZE: usize = 32;

/// BLAKE2b-256 hash output.
pub type Blake2b256Hash = [u8; 32];

/// Byte length of a randomness type.
pub const RANDOMNESS_LENGTH: usize = 32;

/// Type of randomness.
pub type Randomness = [u8; RANDOMNESS_LENGTH];

/// Block number in the network.
pub type BlockNumber = u32;

/// Slot number in the network.
pub type SlotNumber = u64;

/// Type of solution range.
pub type SolutionRange = u64;

/// Block weight for fork choice rules.
///
/// The closer a solution's tag is to the target, the heavier it is.
pub type BlockWeight = u128;

/// Sector index in consensus.
pub type SectorIndex = u64;

/// Length of public key in bytes.
pub const PUBLIC_KEY_LENGTH: usize = 32;

/// Length of signature in bytes.
pub const REWARD_SIGNATURE_LENGTH: usize = 64;

/// Size of one piece of archived history, in bytes.
pub const PIECE_SIZE: u64 = 31744;

/// How many bytes of a scalar can hold any byte values.
pub const SCALAR_SAFE_BYTES: u64 = 31;

/// How many bytes a scalar occupies once padded for commitment.
pub const SCALAR_FULL_BYTES: u64 = 32;

/// Size of one plotted sector.
///
/// The sector is a square grid of scalars: the number of scalars in a
/// column equals the number of columns, and each scalar of
/// [`SCALAR_SAFE_BYTES`] useful bytes is padded to [`SCALAR_FULL_BYTES`]
/// before encoding, so that encoding and decoding operate on the same
/// amount of data.
pub const PLOT_SECTOR_SIZE: u64 = (PIECE_SIZE / SCALAR_SAFE_BYTES) * (PIECE_SIZE
    / SCALAR_SAFE_BYTES) * SCALAR_FULL_BYTES;

/// How many pieces a sector holds.
pub const PIECES_IN_SECTOR: u64 = PLOT_SECTOR_SIZE / ((PIECE_SIZE / SCALAR_SAFE_BYTES)
    * SCALAR_FULL_BYTES);

/// The sector geometry is fixed by one algebraic relation: a sector is a
/// square grid of padded scalars, and holds exactly as many pieces as fit
/// into that grid piece by piece.
pub proof fn lemma_sector_geometry()
    ensures
        PLOT_SECTOR_SIZE == (PIECE_SIZE / SCALAR_SAFE_BYTES) * (PIECE_SIZE / SCALAR_SAFE_BYTES)
            * SCALAR_FULL_BYTES,
        PLOT_SECTOR_SIZE == PIECES_IN_SECTOR * ((PIECE_SIZE / SCALAR_SAFE_BYTES)
            * SCALAR_FULL_BYTES),
        PIECES_IN_SECTOR == 1024,
{
    assert(PIECE_SIZE / SCALAR_SAFE_BYTES == 1024) by (nonlinear_arith);
    assert(1024 * 1024 * 32 == 33554432nat) by (nonlinear_arith);
    assert(1024 * 32 == 32768nat) by (nonlinear_arith);
    assert(33554432nat / 32768 == 1024) by (nonlinear_arith);
    assert(1024 * 32768 == 33554432nat) by (nonlinear_arith);
}

/// Size of proof of space seed in bytes.
pub const POS_SEED_SIZE: usize = 32;

/// Proof of space seed.
#[derive(Debug, Copy, Clone, Eq, PartialEq, Hash)]
pub struct PosSeed(pub [u8; POS_SEED_SIZE]);

impl PosSeed {
    /// Size of proof of space seed in bytes.
    pub const SIZE: usize = POS_SEED_SIZE;
}

/// Size of proof of space quality in bytes.
pub const POS_QUALITY_SIZE: usize = 32;

/// Proof of space quality.
#[derive(Debug, Copy, Clone, Eq, PartialEq, Hash)]
pub struct PosQualityBytes(pub [u8; POS_QUALITY_SIZE]);

impl PosQualityBytes {
    /// Size of proof of space quality in bytes.
    pub const SIZE: usize = POS_QUALITY_SIZE;

    /// Quality hash.
    pub fn hash(&self) -> (r: Blake2b256Hash)
        ensures
            r@ == blake2b_256_of(self.0@),
    {
        blake2b_256_hash(self.0.as_slice())
    }
}

/// Length of proof of space proof in bytes.
pub const POS_PROOF_LENGTH: usize = 136;

/// Proof of space proof bytes.
#[derive(Debug, Copy, Clone, Eq, PartialEq, Hash)]
pub struct PosProof(pub [u8; POS_PROOF_LENGTH]);

impl PosProof {
    /// Size of proof of space proof in bytes.
    pub const SIZE: usize = POS_PROOF_LENGTH;
}

/// A Ristretto Schnorr public key as bytes.
#[derive(Debug, Copy, Clone, PartialEq, Eq, PartialOrd, Ord, Hash)]
pub struct PublicKey(pub [u8; PUBLIC_KEY_LENGTH]);

impl PublicKey {
    /// Public key hash.
    pub fn hash(&self) -> (r: Blake2b256Hash)
        ensures
            r@ == blake2b_256_of(self.0@),
    {
        blake2b_256_hash(self.0.as_slice())
    }

    /// The lowercase hexadecimal spelling of this key, for display and
    /// human-readable persistence.
    pub fn to_hex(&self) -> (r: String)
        ensures
            r@ == crypto::hex_of(self.0@),
    {
        crypto::hex_encode(self.0.as_slice())
    }

    /// The key bytes.
    pub fn to_bytes(&self) -> (r: [u8; 32])
        ensures
            r@ == self.0@,
    {
        self.0
    }
}

impl Default for PublicKey {
    /// The key with all bytes zero.
    fn default() -> (r: Self)
        ensures
            r.0@ == crypto::zero_bytes(32),
    {
        let r = PublicKey([0u8; 32]);
        proof {
            assert(r.0@ =~= crypto::zero_bytes(32));
        }
        r
    }
}

/// A Ristretto Schnorr signature as bytes.
#[derive(Debug, Copy, Clone, PartialEq, Eq, PartialOrd, Ord, Hash)]
pub struct RewardSignature(pub [u8; REWARD_SIGNATURE_LENGTH]);

impl RewardSignature {
    /// The signature bytes.
    pub fn to_bytes(&self) -> (r: [u8; 64])
        ensures
            r@ == self.0@,
    {
        self.0
    }
}

} // verus!
