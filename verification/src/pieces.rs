//! Piece addressing: the monotone piece index over the whole archived
//! history, and the derived hash that places a piece in the fixed address
//! space.

use vstd::prelude::*;
use crate::byte_order::{be_nat, u64_le_seq};
use crate::crypto::{blake2b_256_hash, blake2b_256_of};
use crate::u256::U256;

verus! {

/// Index of a piece in the archived history, starting at zero and never
/// reused.
#[derive(Debug, Copy, Clone, PartialEq, Eq, PartialOrd, Ord, Hash, Structural)]
pub struct PieceIndex(pub u64);

impl PieceIndex {
    /// The little-endian bytes of this index.
    pub fn to_bytes(&self) -> (r: [u8; 8])
        ensures
            r@ == u64_le_seq(self.0),
    {
        let b0: u8 = (self.0 % 256) as u8;
        let b1: u8 = (self.0 / 0x100 % 256) as u8;
        let b2: u8 = (self.0 / 0x10000 % 256) as u8;
        let b3: u8 = (self.0 / 0x1000000 % 256) as u8;
        let b4: u8 = (self.0 / 0x100000000 % 256) as u8;
        let b5: u8 = (self.0 / 0x10000000000 % 256) as u8;
        let b6: u8 = (self.0 / 0x1000000000000 % 256) as u8;
        let b7: u8 = (self.0 / 0x100000000000000 % 256) as u8;
        let r: [u8; 8] = [b0, b1, b2, b3, b4, b5, b6, b7];
        proof {
            assert(r@ =~= u64_le_seq(self.0));
        }
        r
    }
}

impl Default for PieceIndex {
    /// The first piece index.
    fn default() -> (r: Self)
        ensures
            r == PieceIndex(0),
    {
        PieceIndex(0)
    }
}

/// Hash of a piece index, used as the piece's address in the fixed
/// 256-bit address space.  Always recomputed from the index, never stored
/// as a second source of truth.
#[derive(Debug, Copy, Clone, PartialEq, Eq, Hash)]
pub struct PieceIndexHash(pub [u8; 32]);

impl PieceIndexHash {
    /// Derives the address of the piece with the given index.
    pub fn from_index(index: PieceIndex) -> (r: Self)
        ensures
            r.0@ == blake2b_256_of(u64_le_seq(index.0)),
    {
        let bytes = index.to_bytes();
        PieceIndexHash(blake2b_256_hash(bytes.as_slice()))
    }

    /// The number this address stands at on the 256-bit ring, read from
    /// the hash bytes big-endian.
    pub fn to_u256(&self) -> (r: U256)
        ensures
            r.as_nat() == be_nat(self.0@),
    {
        U256::from_be_bytes(self.0)
    }

    /// The address standing at the given number of the 256-bit ring.
    pub fn from_u256(n: U256) -> (r: Self)
        ensures
            be_nat(r.0@) == n.as_nat(),
    {
        PieceIndexHash(n.to_be_bytes())
    }
}

} // verus!
