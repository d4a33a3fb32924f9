use snails_exchange::bigint::{NumConvertError, U192, U256, U576, U704};

fn pow2_576(k: u32) -> U576 {
    // 2^k for k < 576, built from 2^64 steps.
    let mut v = U576::from_u128(1);
    let mut left = k;
    while left >= 64 {
        v = v.checked_mul(&U576::from_u128(1u128 << 64)).unwrap();
        left -= 64;
    }
    v.checked_mul(&U576::from_u128(1u128 << left)).unwrap()
}

#[test]
fn narrow_conversions_at_the_edges() {
    assert_eq!(U192::from_u128(u64::MAX as u128).to_u64(), Some(u64::MAX));
    assert_eq!(U192::from_u128(u64::MAX as u128 + 1).to_u64(), None);
    assert_eq!(
        U256::from_u128(u64::MAX as u128 + 1).try_to_u64(),
        Err(NumConvertError::ConversionFailure)
    );
    assert_eq!(U256::from_u128(u128::MAX).to_u128(), Some(u128::MAX));
    assert_eq!(U256::from_u128(u128::MAX).try_to_u128(), Ok(u128::MAX));
    let over = U256::from_u128(u128::MAX).checked_add(&U256::from_u128(1)).unwrap();
    assert_eq!(over.to_u128(), None);
    assert_eq!(over.try_to_u128(), Err(NumConvertError::ConversionFailure));
    assert_eq!(U704::from_u128(42).to_u64(), Some(42));
    assert_eq!(U704::from_u128(42).try_to_u128(), Ok(42));
}

#[test]
fn narrowing_to_192_bits() {
    let top = pow2_576(192);
    assert!(top.to_u192().is_none());
    assert_eq!(top.try_to_u192().err(), Some(NumConvertError::ConversionFailure));
    let below = top.checked_sub(&U576::from_u128(1)).unwrap();
    let narrow = below.to_u192().unwrap();
    let back = U576::from_u192(&narrow).checked_add(&U576::from_u128(1)).unwrap();
    assert!(back.checked_sub(&top).unwrap().is_zero());
    let wide = U704::from_u192(&U192::from_u128(99));
    assert_eq!(wide.try_to_u192().unwrap().to_u128(), Some(99));
    assert_eq!(U704::from_u128(7).to_u192().unwrap().to_u64(), Some(7));
}

#[test]
fn multiplication_overflows_exactly_at_the_width() {
    let half = pow2_576(288);
    assert!(half.checked_mul(&half).is_none());
    let below = half.checked_sub(&U576::from_u128(1)).unwrap();
    assert!(below.checked_mul(&below).is_some());
    assert!(U192::from_u128(u128::MAX)
        .checked_mul(&U192::from_u128(1u128 << 64))
        .is_some());
    assert!(U192::from_u128(u128::MAX)
        .checked_mul(&U192::from_u128((1u128 << 64) + 1))
        .is_none());
}

#[test]
fn wide_products_and_quotients() {
    let a = pow2_576(200).checked_add(&U576::from_u128(7)).unwrap();
    let b = pow2_576(100).checked_add(&U576::from_u128(9)).unwrap();
    let product = a.checked_mul(&b).unwrap();
    assert_eq!(product.checked_div(&a).unwrap().to_u128(), Some((1u128 << 100) + 9));
    let big = pow2_576(575).checked_add(&U576::from_u128(12345)).unwrap();
    assert_eq!(big.checked_div(&pow2_576(500)).unwrap().to_u128(), Some(1u128 << 75));
    let third = big.checked_div(&U576::from_u128(3)).unwrap();
    let rebuilt = third
        .checked_mul(&U576::from_u128(3))
        .unwrap()
        .checked_add(&U576::from_u128(2))
        .unwrap();
    assert!(rebuilt.checked_sub(&big).unwrap().is_zero());
    assert!(big.checked_div(&U576::from_u128(0)).is_none());
    assert_eq!(U256::from_u128(1000).checked_div(&U256::from_u128(7)).unwrap().to_u128(), Some(142));
}

#[test]
fn addition_and_subtraction_fail_instead_of_wrapping() {
    let top = pow2_576(575);
    assert!(top.checked_add(&top).is_none());
    let almost = top.checked_sub(&U576::from_u128(1)).unwrap();
    assert!(top.checked_add(&almost).is_some());
    assert!(U192::from_u128(3).checked_sub(&U192::from_u128(4)).is_none());
    assert_eq!(U192::from_u128(4).checked_sub(&U192::from_u128(3)).unwrap().to_u128(), Some(1));
    assert!(U576::from_u128(3).less_than(&U576::from_u128(4)));
    assert!(!U576::from_u128(4).less_than(&U576::from_u128(4)));
    assert!(U576::from_u128(0).is_zero());
    assert_eq!(U576::from_u128(5).duplicate().to_u128(), Some(5));
}
