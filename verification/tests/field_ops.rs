use galois_field::field::{FieldError, Fp};

#[test]
fn test_ops_fp2() {
    let a = Fp::<2>(3);
    let b = Fp::<2>(3);
    assert_eq!(a.add(b), Fp(0), "{} + {}", a.0, b.0);
    assert_eq!(a.sub(b), Fp(0), "{} - {}", a.0, b.0);
    assert_eq!(a.sub(b), Fp(2), "{} - {}", a.0, b.0);
    assert_eq!(a.mul(b), Fp(1), "{} * {}", a.0, b.0);
    assert_eq!(a.mul(b), Fp(3), "{} * {}", a.0, b.0);
    assert_eq!(a.div(b).unwrap(), Fp(1), "{} / {}", a.0, b.0);

    let a = Fp::<2>(3);
    let b = Fp::<2>(100);
    assert_eq!(a.add(b), Fp(1), "{} + {}", a.0, b.0);
    assert_eq!(a.sub(b), Fp(1), "{} - {}", a.0, b.0);
}

#[test]
fn test_ops_fp99991() {
    let a = Fp::<99991>(3);
    let b = Fp::<99991>(1000000);
    assert_eq!(a.add(b), Fp(93), "{} + {}", a.0, b.0);
    assert_eq!(a.sub(b), Fp(99904), "{} - {}", a.0, b.0);
    assert_eq!(a.mul(b), Fp(270), "{} * {}", a.0, b.0);
    assert_eq!(a.div(b).unwrap(), Fp(96658), "{} / {}", a.0, b.0);
    let a = Fp::<99991>(1);
    assert_eq!(a.div(b).unwrap(), Fp(98880), "{} / {}", a.0, b.0);
}

#[test]
fn constructor_scenarios_fp2() {
    assert_eq!(Fp::<2>::n(3).add(Fp::n(3)), Fp::n(0));
    assert_eq!(Fp::<2>::n(3).sub(Fp::n(3)), Fp::n(0));
    assert_eq!(Fp::<2>::n(3).sub(Fp::n(3)), Fp(2));
    assert_eq!(Fp::<2>::n(3).mul(Fp::n(3)), Fp::n(1));
    assert_eq!(Fp::<2>::n(3).div(Fp::n(3)).unwrap(), Fp::n(1));
    assert_eq!(Fp::<2>::n(3).add(Fp::n(100)), Fp::n(1));
}

#[test]
fn constructor_scenarios_fp99991() {
    assert_eq!(Fp::<99991>::n(3).add(Fp::n(1000000)), Fp::n(93));
    assert_eq!(Fp::<99991>::n(3).sub(Fp::n(1000000)), Fp::n(99904));
    assert_eq!(Fp::<99991>::n(3).mul(Fp::n(1000000)), Fp::n(270));
    assert_eq!(Fp::<99991>::n(3).div(Fp::n(1000000)).unwrap(), Fp::n(96658));
    assert_eq!(Fp::<99991>::n(1).div(Fp::n(1000000)).unwrap(), Fp::n(98880));
}

#[test]
fn closure_results_are_canonical() {
    let a = Fp::<99991>(u64::MAX);
    let b = Fp::<99991>(u64::MAX - 17);
    assert!(a.add(b).0 < 99991);
    assert!(a.sub(b).0 < 99991);
    assert!(b.sub(a).0 < 99991);
    assert!(a.mul(b).0 < 99991);
    assert!(a.neg().0 < 99991);
    assert_eq!(Fp::<99991>(u64::MAX).add(Fp(u64::MAX)), Fp(22715));
    assert_eq!(Fp::<99991>(u64::MAX).mul(Fp(u64::MAX)), Fp(29414));
    assert_eq!(Fp::<99991>(5).sub(Fp(u64::MAX)), Fp(38643));
    assert_eq!(Fp::<99991>(u64::MAX).neg(), Fp(38638));
}

#[test]
fn additive_identity_and_inverse() {
    let a = Fp::<99991>(123456789);
    assert_eq!(a.add(Fp::n(0)), a);
    assert_eq!(a.add(a.neg()), Fp::n(0));
    let z = Fp::<7>(0);
    assert_eq!(z.add(z.neg()), Fp::n(0));
    assert_eq!(z.neg(), Fp::n(0));
}

#[test]
fn multiplicative_identity() {
    let a = Fp::<99991>(123456789);
    assert_eq!(a.mul(Fp::n(1)), a);
    let b = Fp::<2>(3);
    assert_eq!(b.mul(Fp::n(1)), b);
}

#[test]
fn inverse_correctness() {
    let a = Fp::<99991>(3);
    let inv = a.modinv().unwrap();
    assert_eq!(inv, Fp(66661));
    assert_eq!(a.mul(inv), Fp::n(1));
    let b = Fp::<99991>(1000000);
    assert_eq!(b.mul(b.modinv().unwrap()), Fp::n(1));
    let c = Fp::<2>(3);
    assert_eq!(c.mul(c.modinv().unwrap()), Fp::n(1));
}

#[test]
fn division_consistency() {
    let a = Fp::<99991>(271828);
    let b = Fp::<99991>(1000000);
    assert_eq!(a.div(b).unwrap().mul(b), a);
    let one = Fp::<2>(3);
    assert_eq!(one.div(one).unwrap().mul(one), one);
}

#[test]
fn congruence_respecting_equality() {
    assert_eq!(Fp::<99991>(100000), Fp::<99991>(9));
    assert_eq!(Fp::<99991>::n(100000), Fp::<99991>::n(9));
    assert_eq!(Fp::<2>(3), Fp::<2>(101));
    assert_ne!(Fp::<99991>(100000), Fp::<99991>(10));
}

#[test]
fn inverse_of_zero_is_undefined() {
    assert_eq!(
        Fp::<2>::n(0).modinv(),
        Err(FieldError::InverseUndefined { value: 0, modulus: 2 })
    );
    assert_eq!(
        Fp::<7>::n(0).modinv(),
        Err(FieldError::InverseUndefined { value: 0, modulus: 7 })
    );
    assert_eq!(
        Fp::<99991>::n(0).modinv(),
        Err(FieldError::InverseUndefined { value: 0, modulus: 99991 })
    );
    // an unreduced element congruent to zero, and division by it
    assert_eq!(
        Fp::<99991>(199982).modinv(),
        Err(FieldError::InverseUndefined { value: 199982, modulus: 99991 })
    );
    assert_eq!(
        Fp::<99991>(5).div(Fp(0)),
        Err(FieldError::InverseUndefined { value: 0, modulus: 99991 })
    );
}

#[test]
fn assignment_variants() {
    let mut a = Fp::<99991>(3);
    a.add_assign(Fp(1000000));
    assert_eq!(a, Fp(93));
    a.sub_assign(Fp(93));
    assert_eq!(a, Fp(0));
    let mut b = Fp::<99991>(3);
    b.mul_assign(Fp(1000000));
    assert_eq!(b, Fp(270));
    let mut c = Fp::<99991>(3);
    c.div_assign(Fp(1000000)).unwrap();
    assert_eq!(c, Fp(96658));
    let mut d = Fp::<99991>(5);
    let e = d.div_assign(Fp(0));
    assert_eq!(e, Err(FieldError::InverseUndefined { value: 0, modulus: 99991 }));
    assert_eq!(d.0, 5);
}

#[test]
fn default_is_zero() {
    let d: Fp<7> = Default::default();
    assert_eq!(d.0, 0);
    assert_eq!(d, Fp::n(0));
}
