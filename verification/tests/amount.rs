use voting_token::amount::U256;

#[test]
fn constructors_set_the_low_limb() {
    assert_eq!(U256::zero(), U256::from_u64(0));
    assert_eq!(U256::from_u64(42), U256 { w0: 42, w1: 0, w2: 0, w3: 0 });
}

#[test]
fn comparison_is_by_value() {
    assert!(U256::from_u64(3).lt(&U256::from_u64(4)));
    assert!(!U256::from_u64(4).lt(&U256::from_u64(4)));
    assert!(!U256::from_u64(5).lt(&U256::from_u64(4)));
    let high = U256 { w0: 0, w1: 0, w2: 0, w3: 1 };
    assert!(U256::from_u64(u64::MAX).lt(&high));
    assert!(!high.lt(&U256::from_u64(u64::MAX)));
}

#[test]
fn addition_carries_across_limbs() {
    let a = U256 { w0: u64::MAX, w1: u64::MAX, w2: 0, w3: 0 };
    let sum = a.checked_add(&U256::from_u64(1)).unwrap();
    assert_eq!(sum, U256 { w0: 0, w1: 0, w2: 1, w3: 0 });
}

#[test]
fn addition_reports_overflow() {
    assert!(U256::max_value().checked_add(&U256::from_u64(1)).is_none());
    assert_eq!(
        U256::max_value().checked_add(&U256::zero()).unwrap(),
        U256::max_value()
    );
}

#[test]
fn unchecked_addition_matches() {
    assert_eq!(
        U256::from_u64(7).add(&U256::from_u64(8)),
        U256::from_u64(15)
    );
}

#[test]
fn subtraction_borrows_across_limbs() {
    let a = U256 { w0: 0, w1: 0, w2: 1, w3: 0 };
    let diff = a.sub(&U256::from_u64(1));
    assert_eq!(diff, U256 { w0: u64::MAX, w1: u64::MAX, w2: 0, w3: 0 });
    assert_eq!(U256::from_u64(9).sub(&U256::from_u64(4)), U256::from_u64(5));
}

#[test]
fn multiplication_carries_and_overflows() {
    let half = U256 { w0: 1 << 63, w1: 0, w2: 0, w3: 0 };
    assert_eq!(
        half.checked_mul_u64(4).unwrap(),
        U256 { w0: 0, w1: 2, w2: 0, w3: 0 }
    );
    assert!(U256::max_value().checked_mul_u64(2).is_none());
    assert_eq!(
        U256::max_value().checked_mul_u64(1).unwrap(),
        U256::max_value()
    );
    assert_eq!(U256::from_u64(6).checked_mul_u64(7).unwrap(), U256::from_u64(42));
}

#[test]
fn division_truncates() {
    assert_eq!(U256::from_u64(7).div_u64(2), U256::from_u64(3));
    let two_to_64 = U256 { w0: 0, w1: 1, w2: 0, w3: 0 };
    assert_eq!(two_to_64.div_u64(2), U256::from_u64(1 << 63));
    assert_eq!(
        U256::from_u64(5_000_000_000_000_000_000).div_u64(1_000_000_000_000_000_000),
        U256::from_u64(5)
    );
    assert_eq!(U256::max_value().div_u64(1), U256::max_value());
}
