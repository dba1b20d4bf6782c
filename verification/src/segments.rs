//! The segment model: archived-block progress, the last archived block,
//! and the versioned, hash-linked segment header chain with its canonical
//! binary encoding.

use vstd::prelude::*;
use crate::byte_order::{
    push_bytes, push_u32_le, push_u64_le, read_bytes32, read_bytes48, read_u32_le, read_u64_le,
    u32_le_seq, u64_le_seq,
};
use crate::crypto::{blake2b_256_hash, blake2b_256_of, Commitment};
use crate::Blake2b256Hash;

verus! {

/// Segment index over the whole archived history, starting at zero.
pub type SegmentIndex = u64;

/// Segment commitment type: the root commitment over all record
/// commitments in a segment.
pub type SegmentCommitment = Commitment;

/// Progress of an archived block.
#[derive(Debug, Copy, Clone, PartialEq, Eq, PartialOrd, Ord, Hash, Structural)]
pub enum ArchivedBlockProgress {
    /// The block has been fully archived.
    Complete,
    /// Number of partially archived bytes of a block.
    Partial(u32),
}

impl ArchivedBlockProgress {
    /// The number of partially archived bytes, if the progress is not
    /// complete.
    pub open spec fn spec_partial(self) -> Option<u32> {
        match self {
            ArchivedBlockProgress::Complete => None,
            ArchivedBlockProgress::Partial(number) => Some(number),
        }
    }

    /// The canonical binary encoding: the variant tag, then the partial
    /// byte count little-endian where there is one.
    pub open spec fn spec_encode(self) -> Seq<u8> {
        match self {
            ArchivedBlockProgress::Complete => seq![0u8],
            ArchivedBlockProgress::Partial(number) => seq![1u8] + u32_le_seq(number),
        }
    }

    /// Return the number of partially archived bytes if the progress is
    /// not complete.
    pub fn partial(&self) -> (r: Option<u32>)
        ensures
            r == self.spec_partial(),
    {
        match self {
            Self::Complete => None,
            Self::Partial(number) => Some(*number),
        }
    }

    /// Sets new number of partially archived bytes.
    pub fn set_partial(&mut self, new_partial: u32) -> (nothing: ())
        ensures
            *final(self) == ArchivedBlockProgress::Partial(new_partial),
    {
        *self = Self::Partial(new_partial);
    }
}

impl Default for ArchivedBlockProgress {
    /// A block is assumed to fit into the segment until overflow
    /// accounting proves otherwise, so the default is complete.
    fn default() -> (r: Self)
        ensures
            r == ArchivedBlockProgress::Complete,
    {
        Self::Complete
    }
}

/// Last archived block.
#[derive(Debug, Copy, Clone, PartialEq, Eq, PartialOrd, Ord, Hash, Structural)]
pub struct LastArchivedBlock {
    /// Block number.
    pub number: u32,
    /// Progress of an archived block.
    pub archived_progress: ArchivedBlockProgress,
}

impl LastArchivedBlock {
    /// The canonical binary encoding: the block number little-endian,
    /// then the encoded progress.
    pub open spec fn spec_encode(self) -> Seq<u8> {
        u32_le_seq(self.number) + self.archived_progress.spec_encode()
    }

    /// Returns the number of partially archived bytes for a block.
    pub fn partial_archived(&self) -> (r: Option<u32>)
        ensures
            r == self.archived_progress.spec_partial(),
    {
        self.archived_progress.partial()
    }

    /// Sets new number of partially archived bytes.
    pub fn set_partial_archived(&mut self, new_partial: u32) -> (nothing: ())
        ensures
            final(self).number == old(self).number,
            final(self).archived_progress == ArchivedBlockProgress::Partial(new_partial),
    {
        self.archived_progress.set_partial(new_partial);
    }

    /// Sets the archived state of this block back to complete.
    pub fn set_complete(&mut self) -> (nothing: ())
        ensures
            final(self).number == old(self).number,
            final(self).archived_progress == ArchivedBlockProgress::Complete,
    {
        self.archived_progress = ArchivedBlockProgress::Complete;
    }
}

/// Segment header for a specific segment.
///
/// Each segment header includes the hash of the previous one; all
/// together they form a chain that anchors the archival history.  The
/// header is versioned by an explicit tag so that future formats can be
/// told apart; the present format is the first.
#[derive(Debug, Copy, Clone, PartialEq, Eq, Hash)]
pub enum SegmentHeader {
    /// V0 of the segment header data structure.
    V0 {
        /// Segment index.
        segment_index: SegmentIndex,
        /// Root of commitments of all records in a segment.
        segment_commitment: SegmentCommitment,
        /// Hash of the segment header of the previous segment.
        prev_segment_header_hash: Blake2b256Hash,
        /// Last archived block.
        last_archived_block: LastArchivedBlock,
    },
}

impl SegmentHeader {
    /// Segment index.
    pub open spec fn spec_segment_index(self) -> SegmentIndex {
        match self {
            SegmentHeader::V0 { segment_index, .. } => segment_index,
        }
    }

    /// Root of the record commitments in the segment.
    pub open spec fn spec_segment_commitment(self) -> SegmentCommitment {
        match self {
            SegmentHeader::V0 { segment_commitment, .. } => segment_commitment,
        }
    }

    /// Hash of the previous segment's header.
    pub open spec fn spec_prev_segment_header_hash(self) -> Blake2b256Hash {
        match self {
            SegmentHeader::V0 { prev_segment_header_hash, .. } => prev_segment_header_hash,
        }
    }

    /// Last archived block.
    pub open spec fn spec_last_archived_block(self) -> LastArchivedBlock {
        match self {
            SegmentHeader::V0 { last_archived_block, .. } => last_archived_block,
        }
    }

    /// The canonical binary encoding: the version tag, then each field in
    /// order, fixed-width integers little-endian.
    pub open spec fn spec_encode(self) -> Seq<u8> {
        match self {
            SegmentHeader::V0 {
                segment_index,
                segment_commitment,
                prev_segment_header_hash,
                last_archived_block,
            } => seq![0u8] + u64_le_seq(segment_index) + segment_commitment.0@
                + prev_segment_header_hash@ + last_archived_block.spec_encode(),
        }
    }

    /// The hash of the canonical encoding: the identity that other
    /// headers reference.
    pub open spec fn spec_hash(self) -> Seq<u8> {
        blake2b_256_of(self.spec_encode())
    }

    /// The canonical binary encoding of the whole header.
    pub fn encode(&self) -> (r: Vec<u8>)
        ensures
            r@ == self.spec_encode(),
    {
        let mut out: Vec<u8> = Vec::new();
        match self {
            Self::V0 {
                segment_index,
                segment_commitment,
                prev_segment_header_hash,
                last_archived_block,
            } => {
                out.push(0u8);
                push_u64_le(&mut out, *segment_index);
                push_bytes(&mut out, &segment_commitment.0);
                push_bytes(&mut out, prev_segment_header_hash);
                push_u32_le(&mut out, last_archived_block.number);
                match last_archived_block.archived_progress {
                    ArchivedBlockProgress::Complete => {
                        out.push(0u8);
                    },
                    ArchivedBlockProgress::Partial(number) => {
                        out.push(1u8);
                        push_u32_le(&mut out, number);
                    },
                }
            },
        }
        proof {
            assert(out@ =~= self.spec_encode());
        }
        out
    }

    /// Hash of the whole segment header.
    pub fn hash(&self) -> (r: Blake2b256Hash)
        ensures
            r@ == self.spec_hash(),
    {
        let encoded = self.encode();
        blake2b_256_hash(encoded.as_slice())
    }

    /// Segment index.
    pub fn segment_index(&self) -> (r: SegmentIndex)
        ensures
            r == self.spec_segment_index(),
    {
        match self {
            Self::V0 { segment_index, .. } => *segment_index,
        }
    }

    /// Root of the record commitments in the segment.
    pub fn segment_commitment(&self) -> (r: SegmentCommitment)
        ensures
            r == self.spec_segment_commitment(),
    {
        match self {
            Self::V0 { segment_commitment, .. } => *segment_commitment,
        }
    }

    /// Hash of the segment header of the previous segment.
    pub fn prev_segment_header_hash(&self) -> (r: Blake2b256Hash)
        ensures
            r == self.spec_prev_segment_header_hash(),
    {
        match self {
            Self::V0 { prev_segment_header_hash, .. } => *prev_segment_header_hash,
        }
    }

    /// Last archived block.
    pub fn last_archived_block(&self) -> (r: LastArchivedBlock)
        ensures
            r == self.spec_last_archived_block(),
    {
        match self {
            Self::V0 { last_archived_block, .. } => *last_archived_block,
        }
    }

    /// Whether this header references the given header as its
    /// predecessor: its previous-header hash equals that header's hash.
    pub fn follows(&self, prev: &SegmentHeader) -> (r: bool)
        ensures
            r == (self.spec_prev_segment_header_hash()@ == prev.spec_hash()),
    {
        let own = self.prev_segment_header_hash();
        let prev_hash = prev.hash();
        bytes32_equal(&own, &prev_hash)
    }
}

/// Every encoding starts with the version tag, carries the progress tag
/// at the same fixed place, and has one of two lengths, fixed by that
/// progress tag.
proof fn lemma_encode_shape(h: SegmentHeader)
    ensures
        h.spec_encode().len() == (if h.spec_last_archived_block().archived_progress
            is Complete {
            94int
        } else {
            98int
        }),
        h.spec_encode()[0] == 0u8,
        h.spec_encode()[93] == (if h.spec_last_archived_block().archived_progress is Complete {
            0u8
        } else {
            1u8
        }),
{
    match h {
        SegmentHeader::V0 { last_archived_block, .. } => {
            match last_archived_block.archived_progress {
                ArchivedBlockProgress::Complete => {
                },
                ArchivedBlockProgress::Partial(number) => {
                },
            }
        },
    }
}

/// Decodes a canonical segment header encoding.  Decoding is
/// all-or-nothing: it accepts exactly the byte strings that
/// [`SegmentHeader::encode`] produces, and returns the header that
/// produced them.
pub fn decode_segment_header(bytes: &[u8]) -> (r: Result<SegmentHeader, &'static str>)
    ensures
        r matches Ok(h) ==> bytes@ == h.spec_encode(),
        r is Err ==> forall|h: SegmentHeader| bytes@ != h.spec_encode(),
{
    let n = bytes.len();
    if n != 94 && n != 98 {
        proof {
            assert forall|h: SegmentHeader| bytes@ != h.spec_encode() by {
                lemma_encode_shape(h);
            }
        }
        return Err("wrong length for a segment header");
    }
    if bytes[0] != 0 {
        proof {
            assert forall|h: SegmentHeader| bytes@ != h.spec_encode() by {
                lemma_encode_shape(h);
            }
        }
        return Err("unknown segment header version");
    }
    let segment_index = read_u64_le(bytes, 1);
    let commitment = read_bytes48(bytes, 9);
    let prev_segment_header_hash = read_bytes32(bytes, 57);
    let number = read_u32_le(bytes, 89);
    let tag = bytes[93];
    if tag == 0 {
        if n != 94 {
            proof {
                assert forall|h: SegmentHeader| bytes@ != h.spec_encode() by {
                    lemma_encode_shape(h);
                }
            }
            return Err("excess bytes after a complete progress");
        }
        let h = SegmentHeader::V0 {
            segment_index,
            segment_commitment: Commitment(commitment),
            prev_segment_header_hash,
            last_archived_block: LastArchivedBlock {
                number,
                archived_progress: ArchivedBlockProgress::Complete,
            },
        };
        proof {
            assert(bytes@ =~= h.spec_encode());
        }
        Ok(h)
    } else if tag == 1 {
        if n != 98 {
            proof {
                assert forall|h: SegmentHeader| bytes@ != h.spec_encode() by {
                    lemma_encode_shape(h);
                }
            }
            return Err("a partial progress needs its byte count");
        }
        let partial = read_u32_le(bytes, 94);
        let h = SegmentHeader::V0 {
            segment_index,
            segment_commitment: Commitment(commitment),
            prev_segment_header_hash,
            last_archived_block: LastArchivedBlock {
                number,
                archived_progress: ArchivedBlockProgress::Partial(partial),
            },
        };
        proof {
            assert(bytes@ =~= h.spec_encode());
        }
        Ok(h)
    } else {
        proof {
            assert forall|h: SegmentHeader| bytes@ != h.spec_encode() by {
                lemma_encode_shape(h);
            }
        }
        Err("unknown archived progress tag")
    }
}

/// A chain of headers is linked when every header after the first
/// references the hash of the one before it.
pub open spec fn spec_chain_linked(headers: Seq<SegmentHeader>) -> bool {
    forall|i: int|
        1 <= i < headers.len() ==> (#[trigger] headers[i]).spec_prev_segment_header_hash()@
            == headers[i - 1].spec_hash()
}

/// Whether the given headers form one linked chain: every header after
/// the first references the hash of the one before it.
pub fn verify_chain(headers: &Vec<SegmentHeader>) -> (r: bool)
    ensures
        r == spec_chain_linked(headers@),
{
    let n = headers.len();
    let mut i: usize = 1;
    while i < n
        invariant
            1 <= i,
            n == headers@.len(),
            forall|j: int|
                1 <= j < i ==> (#[trigger] headers@[j]).spec_prev_segment_header_hash()@
                    == headers@[j - 1].spec_hash(),
        decreases n - i,
    {
        if !headers[i].follows(&headers[i - 1]) {
            return false;
        }
        i += 1;
    }
    true
}

/// Appending a header whose previous-header hash is the hash of the last
/// header keeps the chain linked: this is how the chain grows, one
/// segment at a time.
pub proof fn lemma_chain_append(headers: Seq<SegmentHeader>, h: SegmentHeader)
    requires
        spec_chain_linked(headers),
        headers.len() > 0 ==> h.spec_prev_segment_header_hash()@ == headers.last().spec_hash(),
    ensures
        spec_chain_linked(headers.push(h)),
{
    let grown = headers.push(h);
    assert forall|i: int|
        1 <= i < grown.len() implies (#[trigger] grown[i]).spec_prev_segment_header_hash()@
        == grown[i - 1].spec_hash() by {
        if i < headers.len() {
            assert(grown[i] == headers[i]);
            assert(grown[i - 1] == headers[i - 1]);
        } else {
            assert(grown[i] == h);
            assert(grown[i - 1] == headers.last());
        }
    }
}

/// Whether two 32-byte strings hold the same bytes.
fn bytes32_equal(a: &[u8; 32], b: &[u8; 32]) -> (r: bool)
    ensures
        r == (a@ == b@),
{
    let mut i: usize = 0;
    while i < 32
        invariant
            i <= 32,
            forall|j: int| 0 <= j < i ==> a@[j] == b@[j],
        decreases 32 - i,
    {
        if a[i] != b[i] {
            return false;
        }
        i += 1;
    }
    proof {
        assert(a@ =~= b@);
    }
    true
}

} // verus!
