//! Sector addressing: the derived sector identity, the deterministic
//! assignment of archived pieces to sector offsets, and the per-sector
//! solving challenge.

use vstd::prelude::*;
use crate::byte_order::{be_limb, le_nat, read_be_limb, u64_le_seq, u64_to_le_bytes};
use crate::crypto::{blake2b_256_hash_with_key, blake2b_256_keyed_of};
use crate::pieces::PieceIndex;
use crate::u256::U256;
use crate::{Blake2b256Hash, PublicKey, SectorIndex, SolutionRange};

verus! {

/// Data structure representing sector ID in a farmer's plot: the keyed
/// hash of the sector index under the farmer's public key.  Always
/// derived from its inputs, never persisted on its own.
#[derive(Debug, Copy, Clone, Eq, PartialEq, PartialOrd, Ord, Hash)]
pub struct LegacySectorId(Blake2b256Hash);

impl LegacySectorId {
    /// The bytes of this sector ID.
    pub closed spec fn spec_bytes(self) -> Seq<u8> {
        self.0@
    }

    /// Create new sector ID by deriving it from public key and sector
    /// index: the keyed hash of the little-endian sector index under the
    /// public key bytes.
    pub fn new(public_key: &PublicKey, sector_index: SectorIndex) -> (r: Self)
        ensures
            r.spec_bytes() == blake2b_256_keyed_of(public_key.0@, u64_le_seq(sector_index)),
    {
        let index_bytes = u64_to_le_bytes(sector_index);
        LegacySectorId(blake2b_256_hash_with_key(index_bytes.as_slice(), public_key.0.as_slice()))
    }

    /// The ID bytes.
    pub fn to_bytes(&self) -> (r: [u8; 32])
        ensures
            r@ == self.spec_bytes(),
    {
        self.0
    }

    /// Derive the index of the piece that is stored in this sector at
    /// `piece_offset` when the archived history holds `total_pieces`
    /// pieces: the keyed hash of the offset under the sector ID, read as
    /// a little-endian 256-bit number and reduced modulo `total_pieces`.
    ///
    /// The remainder is below `total_pieces`, so it always fits a piece
    /// index; no narrowing can fail.
    pub fn derive_piece_index(&self, piece_offset: PieceIndex, total_pieces: u64) -> (r:
        PieceIndex)
        requires
            total_pieces > 0,
        ensures
            r.0 == le_nat(blake2b_256_keyed_of(self.spec_bytes(), u64_le_seq(piece_offset.0))) % (
            total_pieces as nat),
            r.0 < total_pieces,
    {
        let offset_bytes = piece_offset.to_bytes();
        let hash = blake2b_256_hash_with_key(offset_bytes.as_slice(), self.0.as_slice());
        let as_number = U256::from_le_bytes(hash);
        PieceIndex(as_number.rem_u64(total_pieces))
    }

    /// Derive the local challenge for this sector from the provided
    /// global challenge: the first eight bytes, big-endian, of the keyed
    /// hash of the global challenge under the sector ID.
    pub fn derive_local_challenge(&self, global_challenge: &Blake2b256Hash) -> (r: SolutionRange)
        ensures
            r == be_limb(blake2b_256_keyed_of(self.spec_bytes(), global_challenge@), 0),
    {
        let hash = blake2b_256_hash_with_key(global_challenge.as_slice(), self.0.as_slice());
        read_be_limb(&hash, 0)
    }
}

} // verus!
