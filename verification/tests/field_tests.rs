use interval_fss::{Fp, MODULUS};

#[test]
fn field_identities() {
    assert_eq!(Fp::zero().val, 0);
    assert_eq!(Fp::one().val, 1);
}

#[test]
fn field_reduction_is_mod_p() {
    assert_eq!(Fp::from_u64(0).val, 0);
    assert_eq!(Fp::from_u64(MODULUS).val, 0);
    assert_eq!(Fp::from_u64(MODULUS + 5).val, 5);
    assert_eq!(Fp::from_u64(u64::MAX).val, u64::MAX % MODULUS);
}

#[test]
fn field_addition_wraps() {
    let a = Fp { val: MODULUS - 1 };
    let b = Fp { val: 2 };
    assert_eq!(a.add(&b).val, 1);
    assert_eq!(Fp { val: 3 }.add(&Fp { val: 4 }).val, 7);
}

#[test]
fn field_negation_and_subtraction() {
    assert_eq!(Fp::zero().neg().val, 0);
    assert_eq!(Fp { val: 10 }.neg().val, MODULUS - 10);
    assert_eq!(Fp { val: 10 }.sub(&Fp { val: 4 }).val, 6);
    assert_eq!(Fp { val: 4 }.sub(&Fp { val: 10 }).val, MODULUS - 6);
    let x = Fp { val: 123456789 };
    assert_eq!(x.add(&x.neg()).val, 0);
}
