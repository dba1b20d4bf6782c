use subspace_core_primitives::{
    LegacySectorId, PieceIndex, PieceIndexHash, PosQualityBytes, PublicKey, U256,
};

#[test]
fn public_key_hash_is_not_identity() {
    let key = PublicKey([0u8; 32]);
    let hash = key.hash();
    assert_ne!(hash, key.0);
    // Hashing is deterministic.
    assert_eq!(hash, key.hash());
    // Different keys hash differently.
    assert_ne!(hash, PublicKey([1u8; 32]).hash());
}

#[test]
fn quality_hash_is_not_identity() {
    let quality = PosQualityBytes([7u8; 32]);
    assert_ne!(quality.hash(), quality.0);
    assert_eq!(quality.hash(), quality.hash());
}

#[test]
fn public_key_hex_is_lowercase_pairs() {
    assert_eq!(PublicKey([0u8; 32]).to_hex(), "00".repeat(32));

    let mut bytes = [0u8; 32];
    for (i, b) in bytes.iter_mut().enumerate() {
        *b = (i as u8) * 8;
    }
    let mut expected = String::new();
    for b in bytes {
        expected.push_str(&format!("{:02x}", b));
    }
    assert_eq!(PublicKey(bytes).to_hex(), expected);
}

#[test]
fn sector_id_is_deterministic() {
    let key = PublicKey([9u8; 32]);
    assert_eq!(LegacySectorId::new(&key, 3), LegacySectorId::new(&key, 3));
    assert_ne!(LegacySectorId::new(&key, 3), LegacySectorId::new(&key, 4));
    assert_ne!(
        LegacySectorId::new(&key, 3),
        LegacySectorId::new(&PublicKey([10u8; 32]), 3)
    );
}

#[test]
fn derive_piece_index_stays_in_range() {
    let sector = LegacySectorId::new(&PublicKey([9u8; 32]), 3);
    for offset in 0..32u64 {
        let index = sector.derive_piece_index(PieceIndex(offset), 7);
        assert!(index.0 < 7);
    }
    // With a single archived piece there is only one possible index.
    assert_eq!(sector.derive_piece_index(PieceIndex(0), 1), PieceIndex(0));
}

#[test]
fn derive_piece_index_is_deterministic() {
    let key = PublicKey([42u8; 32]);
    let first = LegacySectorId::new(&key, 3).derive_piece_index(PieceIndex(0), 7);
    let second = LegacySectorId::new(&key, 3).derive_piece_index(PieceIndex(0), 7);
    assert_eq!(first, second);
    // Varying an input changes the outcome with overwhelming probability.
    let other_offset = LegacySectorId::new(&key, 3).derive_piece_index(PieceIndex(1), u64::MAX);
    let same_offset = LegacySectorId::new(&key, 3).derive_piece_index(PieceIndex(0), u64::MAX);
    assert_ne!(other_offset, same_offset);
}

#[test]
fn derive_local_challenge_depends_on_sector() {
    let global_challenge = [5u8; 32];
    let key = PublicKey([1u8; 32]);
    let a = LegacySectorId::new(&key, 0);
    let b = LegacySectorId::new(&key, 1);
    assert_eq!(
        a.derive_local_challenge(&global_challenge),
        a.derive_local_challenge(&global_challenge)
    );
    assert_ne!(
        a.derive_local_challenge(&global_challenge),
        b.derive_local_challenge(&global_challenge)
    );
    assert_ne!(
        a.derive_local_challenge(&global_challenge),
        a.derive_local_challenge(&[6u8; 32])
    );
}

#[test]
fn piece_index_hash_addresses() {
    let hash = PieceIndexHash::from_index(PieceIndex(10));
    assert_eq!(hash, PieceIndexHash::from_index(PieceIndex(10)));
    assert_ne!(hash, PieceIndexHash::from_index(PieceIndex(11)));
    // The address is a hash of the index, not the index bytes themselves.
    assert_ne!(hash.0[..8], 10u64.to_le_bytes()[..]);
}

#[test]
fn piece_index_hash_u256_round_trip() {
    let hash = PieceIndexHash::from_index(PieceIndex(77));
    let as_number: U256 = hash.to_u256();
    assert_eq!(PieceIndexHash::from_u256(as_number), hash);
}
