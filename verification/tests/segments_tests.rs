use subspace_core_primitives::{
    ArchivedBlockProgress, Commitment, LastArchivedBlock, SegmentHeader,
};
use subspace_core_primitives::crypto;
use subspace_core_primitives::segments::decode_segment_header;

fn header(segment_index: u64, prev: [u8; 32]) -> SegmentHeader {
    SegmentHeader::V0 {
        segment_index,
        segment_commitment: Commitment([2u8; 48]),
        prev_segment_header_hash: prev,
        last_archived_block: LastArchivedBlock {
            number: 4,
            archived_progress: ArchivedBlockProgress::Partial(5),
        },
    }
}

#[test]
fn archived_progress_defaults_to_complete() {
    assert_eq!(
        ArchivedBlockProgress::default(),
        ArchivedBlockProgress::Complete
    );
    let block = LastArchivedBlock {
        number: 9,
        archived_progress: ArchivedBlockProgress::default(),
    };
    assert_eq!(block.partial_archived(), None);
}

#[test]
fn partial_progress_round_trip() {
    let mut block = LastArchivedBlock {
        number: 9,
        archived_progress: ArchivedBlockProgress::default(),
    };
    block.set_partial_archived(100);
    assert_eq!(block.partial_archived(), Some(100));
    block.set_complete();
    assert_eq!(block.partial_archived(), None);
    assert_eq!(block.number, 9);
}

#[test]
fn encoding_is_exactly_the_wire_layout() {
    let h = header(1, [3u8; 32]);
    let mut expected: Vec<u8> = Vec::new();
    expected.push(0); // version tag
    expected.extend_from_slice(&1u64.to_le_bytes());
    expected.extend_from_slice(&[2u8; 48]);
    expected.extend_from_slice(&[3u8; 32]);
    expected.extend_from_slice(&4u32.to_le_bytes());
    expected.push(1); // progress tag: partial
    expected.extend_from_slice(&5u32.to_le_bytes());
    assert_eq!(h.encode(), expected);

    let complete = SegmentHeader::V0 {
        segment_index: 1,
        segment_commitment: Commitment([2u8; 48]),
        prev_segment_header_hash: [3u8; 32],
        last_archived_block: LastArchivedBlock {
            number: 4,
            archived_progress: ArchivedBlockProgress::Complete,
        },
    };
    let mut expected_complete = expected[..93].to_vec();
    expected_complete.push(0); // progress tag: complete
    assert_eq!(complete.encode(), expected_complete);
}

#[test]
fn accessors_read_the_fields() {
    let h = header(7, [3u8; 32]);
    assert_eq!(h.segment_index(), 7);
    assert_eq!(h.segment_commitment(), Commitment([2u8; 48]));
    assert_eq!(h.prev_segment_header_hash(), [3u8; 32]);
    assert_eq!(
        h.last_archived_block(),
        LastArchivedBlock {
            number: 4,
            archived_progress: ArchivedBlockProgress::Partial(5),
        }
    );
}

#[test]
fn hash_commits_to_the_contents() {
    let a = header(1, [3u8; 32]);
    let b = header(2, [3u8; 32]);
    assert_eq!(a.hash(), a.hash());
    assert_ne!(a.hash(), b.hash());
    // The hash is the digest of the canonical encoding.
    assert_eq!(a.hash(), crypto::blake2b_256_hash(&a.encode()));
}

#[test]
fn chain_of_headers_verifies() {
    let genesis_sentinel = [0u8; 32];
    let mut headers: Vec<SegmentHeader> = Vec::new();
    let mut prev = genesis_sentinel;
    for i in 0..5u64 {
        let h = header(i, prev);
        prev = h.hash();
        headers.push(h);
    }
    assert!(subspace_core_primitives::segments::verify_chain(&headers));
    for i in 1..5 {
        assert!(headers[i].follows(&headers[i - 1]));
    }
    assert!(!headers[0].follows(&headers[1]));
}

#[test]
fn mutating_a_header_breaks_the_chain() {
    let mut headers: Vec<SegmentHeader> = Vec::new();
    let mut prev = [0u8; 32];
    for i in 0..5u64 {
        let h = header(i, prev);
        prev = h.hash();
        headers.push(h);
    }
    // Replace one interior header without fixing the links after it.
    headers[2] = header(99, headers[1].hash());
    assert!(!subspace_core_primitives::segments::verify_chain(&headers));
}

#[test]
fn decoding_inverts_encoding() {
    let partial = header(7, [3u8; 32]);
    assert_eq!(
        subspace_core_primitives::segments::decode_segment_header(&partial.encode()),
        Ok(partial)
    );
    let complete = SegmentHeader::V0 {
        segment_index: u64::MAX,
        segment_commitment: Commitment([9u8; 48]),
        prev_segment_header_hash: [1u8; 32],
        last_archived_block: LastArchivedBlock {
            number: u32::MAX,
            archived_progress: ArchivedBlockProgress::Complete,
        },
    };
    assert_eq!(
        subspace_core_primitives::segments::decode_segment_header(&complete.encode()),
        Ok(complete)
    );
}

#[test]
fn decoding_rejects_malformed_input() {
    let good = header(7, [3u8; 32]).encode();
    assert!(decode_segment_header(&[]).is_err());
    assert!(decode_segment_header(&good[..93]).is_err());

    // A wrong version tag.
    let mut bad_version = good.clone();
    bad_version[0] = 1;
    assert!(decode_segment_header(&bad_version).is_err());

    // A wrong progress tag.
    let mut bad_tag = good.clone();
    bad_tag[93] = 7;
    assert!(decode_segment_header(&bad_tag).is_err());

    // A complete progress followed by trailing bytes.
    let mut trailing = good.clone();
    trailing[93] = 0;
    assert!(decode_segment_header(&trailing).is_err());

    // A partial progress cut short.
    assert!(decode_segment_header(&good[..94]).is_err());
}
