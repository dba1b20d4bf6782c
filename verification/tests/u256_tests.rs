use subspace_core_primitives::U256;

#[test]
fn be_bytes_round_trip() {
    let samples = [
        U256::zero(),
        U256::one(),
        U256::from_u64(0xDEADBEEF),
        U256::from_u128(u128::MAX),
        U256::middle(),
        U256::max_value(),
    ];
    for x in samples {
        assert_eq!(U256::from_be_bytes(x.to_be_bytes()), x);
    }
}

#[test]
fn le_bytes_round_trip() {
    let samples = [
        U256::zero(),
        U256::one(),
        U256::from_u64(0xDEADBEEF),
        U256::from_u128(u128::MAX),
        U256::middle(),
        U256::max_value(),
    ];
    for x in samples {
        assert_eq!(U256::from_le_bytes(x.to_le_bytes()), x);
    }
}

#[test]
fn byte_order_is_as_named() {
    let one_be = U256::one().to_be_bytes();
    let mut expected_be = [0u8; 32];
    expected_be[31] = 1;
    assert_eq!(one_be, expected_be);

    let one_le = U256::one().to_le_bytes();
    let mut expected_le = [0u8; 32];
    expected_le[0] = 1;
    assert_eq!(one_le, expected_le);
}

#[test]
fn be_and_le_are_reverses() {
    let mut bytes = [0u8; 32];
    for (i, b) in bytes.iter_mut().enumerate() {
        *b = i as u8;
    }
    let x = U256::from_be_bytes(bytes);
    let mut reversed = x.to_le_bytes();
    reversed.reverse();
    assert_eq!(reversed, bytes);
}

#[test]
fn checked_add_detects_overflow() {
    assert!(U256::max_value().checked_add(&U256::one()).is_none());
    assert_eq!(
        U256::from_u64(2).checked_add(&U256::from_u64(3)),
        Some(U256::from_u64(5))
    );
}

#[test]
fn checked_sub_detects_underflow() {
    assert!(U256::zero().checked_sub(&U256::one()).is_none());
    assert_eq!(
        U256::from_u64(5).checked_sub(&U256::from_u64(3)),
        Some(U256::from_u64(2))
    );
}

#[test]
fn saturating_ops_clamp() {
    assert_eq!(
        U256::max_value().saturating_add(&U256::one()),
        U256::max_value()
    );
    assert_eq!(U256::zero().saturating_sub(&U256::one()), U256::zero());
    assert_eq!(
        U256::from_u64(7).saturating_add(&U256::from_u64(8)),
        U256::from_u64(15)
    );
    assert_eq!(
        U256::from_u64(8).saturating_sub(&U256::from_u64(7)),
        U256::one()
    );
}

#[test]
fn wrapping_ops_wrap() {
    assert_eq!(U256::max_value().wrapping_add(&U256::one()), U256::zero());
    assert_eq!(U256::zero().wrapping_sub(&U256::one()), U256::max_value());
    assert_eq!(
        U256::from_u64(10).wrapping_sub(&U256::from_u64(4)),
        U256::from_u64(6)
    );
}

#[test]
fn middle_is_half_of_max() {
    let twice_middle_plus_one = U256::middle()
        .wrapping_add(&U256::middle())
        .wrapping_add(&U256::one());
    assert_eq!(twice_middle_plus_one, U256::max_value());
}

#[test]
fn rem_u64_reduces() {
    assert_eq!(U256::from_u64(10).rem_u64(7), 3);
    assert_eq!(U256::from_u64(10).rem_u64(1), 0);
    // 2^256 - 1 is odd.
    assert_eq!(U256::max_value().rem_u64(2), 1);
    // 2^256 = 1 mod 3, so 2^256 - 1 = 0 mod 3.
    assert_eq!(U256::max_value().rem_u64(3), 0);
}

#[test]
fn u64_narrowing() {
    assert_eq!(U256::from_u64(42).try_into_u64(), Ok(42));
    assert_eq!(U256::from_u128(u64::MAX as u128).try_into_u64(), Ok(u64::MAX));
    assert!(U256::from_u128(u64::MAX as u128 + 1).try_into_u64().is_err());
    assert!(U256::max_value().try_into_u64().is_err());
}

#[test]
fn from_u128_splits_limbs() {
    let x = U256::from_u128(0x0123456789ABCDEF_FEDCBA9876543210u128);
    let le = x.to_le_bytes();
    assert_eq!(le[0], 0x10);
    assert_eq!(le[7], 0xFE);
    assert_eq!(le[8], 0xEF);
    assert_eq!(le[15], 0x01);
    assert_eq!(le[16], 0);
}

#[test]
fn checked_mul_detects_overflow() {
    assert_eq!(
        U256::from_u64(6).checked_mul(&U256::from_u64(7)),
        Some(U256::from_u64(42))
    );
    assert_eq!(
        U256::max_value().checked_mul(&U256::one()),
        Some(U256::max_value())
    );
    assert_eq!(U256::max_value().checked_mul(&U256::zero()), Some(U256::zero()));
    assert!(U256::max_value().checked_mul(&U256::max_value()).is_none());
    assert!(U256::max_value().checked_mul(&U256::from_u64(2)).is_none());

    // 2^128 * 2^128 is exactly one too many bits.
    let mut two_pow_128 = [0u8; 32];
    two_pow_128[16] = 1;
    let p = U256::from_le_bytes(two_pow_128);
    assert!(p.checked_mul(&p).is_none());

    // (2^128 - 1) * (2^128 + 1) == 2^256 - 1, the largest value that fits.
    let a = U256::from_u128(u128::MAX);
    let mut bytes = [0u8; 32];
    bytes[16] = 1;
    bytes[0] = 1;
    let b = U256::from_le_bytes(bytes);
    assert_eq!(a.checked_mul(&b), Some(U256::max_value()));
}

#[test]
fn saturating_mul_clamps() {
    assert_eq!(
        U256::from_u64(6).saturating_mul(&U256::from_u64(7)),
        U256::from_u64(42)
    );
    assert_eq!(
        U256::max_value().saturating_mul(&U256::from_u64(2)),
        U256::max_value()
    );
}

#[test]
fn checked_div_divides() {
    assert!(U256::from_u64(42).checked_div(&U256::zero()).is_none());
    assert_eq!(
        U256::from_u64(42).checked_div(&U256::from_u64(6)),
        Some(U256::from_u64(7))
    );
    assert_eq!(
        U256::from_u64(43).checked_div(&U256::from_u64(6)),
        Some(U256::from_u64(7))
    );
    assert_eq!(
        U256::one().checked_div(&U256::from_u64(2)),
        Some(U256::zero())
    );
    assert_eq!(
        U256::max_value().checked_div(&U256::one()),
        Some(U256::max_value())
    );
    assert_eq!(
        U256::max_value().checked_div(&U256::max_value()),
        Some(U256::one())
    );
    // (2^256 - 1) / 2 == 2^255 - 1, the middle of the distance field.
    assert_eq!(
        U256::max_value().checked_div(&U256::from_u64(2)),
        Some(U256::middle())
    );
}

#[test]
fn division_inverts_multiplication() {
    let a = U256::from_u128(0x0123456789ABCDEF_FEDCBA9876543210u128);
    let b = U256::from_u64(97);
    let product = a.checked_mul(&b).unwrap();
    assert_eq!(product.checked_div(&b), Some(a));
    assert_eq!(product.rem_u64(97), 0);
}
