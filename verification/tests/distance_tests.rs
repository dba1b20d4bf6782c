use subspace_core_primitives::{bidirectional_distance, U256};

#[test]
fn distance_is_symmetric() {
    let a = U256::from_u64(17);
    let b = U256::from_u128(u128::MAX - 3);
    assert_eq!(bidirectional_distance(&a, &b), bidirectional_distance(&b, &a));

    let c = U256::max_value();
    assert_eq!(bidirectional_distance(&a, &c), bidirectional_distance(&c, &a));
}

#[test]
fn distance_to_self_is_zero() {
    let a = U256::from_u64(12345);
    assert_eq!(bidirectional_distance(&a, &a), U256::zero());
    assert_eq!(
        bidirectional_distance(&U256::max_value(), &U256::max_value()),
        U256::zero()
    );
}

#[test]
fn distance_takes_shorter_arc() {
    // Walking from the maximum value to zero is one step forward around
    // the ring, not the whole ring backwards.
    assert_eq!(
        bidirectional_distance(&U256::zero(), &U256::max_value()),
        U256::one()
    );
    assert_eq!(
        bidirectional_distance(&U256::zero(), &U256::from_u64(5)),
        U256::from_u64(5)
    );
}

#[test]
fn distance_is_bounded_by_middle() {
    let samples = [
        (U256::zero(), U256::max_value()),
        (U256::from_u64(100), U256::from_u128(1 << 100)),
        (U256::middle(), U256::zero()),
        (U256::max_value(), U256::from_u64(9)),
    ];
    for (a, b) in samples {
        let d = bidirectional_distance(&a, &b);
        assert!(d.le(&U256::middle()));
    }
}

#[test]
fn exactly_opposite_points_exceed_middle() {
    // The one exception to the middle bound: two points exactly opposite
    // on the ring, where both arcs have the same length.
    let mut high_bit = [0u8; 32];
    high_bit[0] = 0x80;
    let opposite = U256::from_be_bytes(high_bit);
    let d = bidirectional_distance(&U256::zero(), &opposite);
    assert_eq!(d, opposite);
    assert!(!d.le(&U256::middle()));
    assert_eq!(d, U256::middle().wrapping_add(&U256::one()));
}
