use subspace_core_primitives::{
    ChunkSignature, PieceIndex, PublicKey, Scalar, ScalarLegacy, Solution, Witness,
};

fn sample_solution() -> Solution<PublicKey, u16> {
    Solution {
        public_key: PublicKey([8u8; 32]),
        reward_address: 513u16,
        sector_index: 11,
        total_pieces: 97,
        piece_offset: PieceIndex(13),
        record_commitment_hash: Scalar([21u8; 32]),
        piece_witness: Witness([22u8; 48]),
        chunk_offset: 23,
        chunk: ScalarLegacy([24u8; 32]),
        chunk_signature: ChunkSignature {
            output: [25u8; 32],
            proof_bytes: [26u8; 64],
        },
    }
}

#[test]
fn reward_address_transform_preserves_every_other_field() {
    let original = sample_solution();
    let transformed: Solution<PublicKey, u64> =
        original.clone().into_reward_address_format::<u32, u64>();
    assert_eq!(transformed.public_key, original.public_key);
    assert_eq!(transformed.reward_address, 513u64);
    assert_eq!(transformed.sector_index, original.sector_index);
    assert_eq!(transformed.total_pieces, original.total_pieces);
    assert_eq!(transformed.piece_offset, original.piece_offset);
    assert_eq!(
        transformed.record_commitment_hash,
        original.record_commitment_hash
    );
    assert_eq!(transformed.piece_witness, original.piece_witness);
    assert_eq!(transformed.chunk_offset, original.chunk_offset);
    assert_eq!(transformed.chunk, original.chunk);
    assert_eq!(transformed.chunk_signature, original.chunk_signature);
}

#[test]
fn genesis_solution_is_the_fixed_placeholder() {
    let key = PublicKey([77u8; 32]);
    let genesis: Solution<PublicKey, u64> = Solution::genesis_solution(key, 42u64);
    assert_eq!(genesis.public_key, key);
    assert_eq!(genesis.reward_address, 42);
    assert_eq!(genesis.sector_index, 0);
    assert_eq!(genesis.total_pieces, 1);
    assert_eq!(genesis.piece_offset, PieceIndex(0));
    assert_eq!(genesis.record_commitment_hash, Scalar([0u8; 32]));
    assert_eq!(genesis.piece_witness, Witness([0u8; 48]));
    assert_eq!(genesis.chunk_offset, 0);
    assert_eq!(genesis.chunk, ScalarLegacy([0u8; 32]));
    assert_eq!(genesis.chunk_signature.output, [0u8; 32]);
    assert_eq!(genesis.chunk_signature.proof_bytes, [0u8; 64]);
}

#[test]
fn genesis_solution_is_deterministic() {
    let a: Solution<PublicKey, u64> = Solution::genesis_solution(PublicKey([1u8; 32]), 2);
    let b: Solution<PublicKey, u64> = Solution::genesis_solution(PublicKey([1u8; 32]), 2);
    assert_eq!(a, b);
}

#[test]
fn sector_geometry_constants() {
    assert_eq!(subspace_core_primitives::PLOT_SECTOR_SIZE, 33554432);
    assert_eq!(subspace_core_primitives::PIECES_IN_SECTOR, 1024);
    assert_eq!(
        subspace_core_primitives::PLOT_SECTOR_SIZE,
        subspace_core_primitives::PIECES_IN_SECTOR * 1024 * 32
    );
}
