use mainly_lang::rational::Rational;

#[test]
fn from_int_is_over_one() {
    let r = Rational::from_int(7);
    assert_eq!(r, Rational { num: 7, den: 1 });
}

#[test]
fn add_keeps_exact_value() {
    let a = Rational { num: 1, den: 10 };
    let b = Rational { num: 2, den: 10 };
    assert_eq!(a.checked_add(b), Some(Rational { num: 30, den: 100 }));
}

#[test]
fn sub_keeps_exact_value() {
    let a = Rational { num: 10, den: 1 };
    let b = Rational { num: 2, den: 1 };
    assert_eq!(a.checked_sub(b), Some(Rational { num: 8, den: 1 }));
}

#[test]
fn mul_keeps_exact_value() {
    let a = Rational { num: 5, den: 2 };
    let b = Rational { num: 4, den: 3 };
    assert_eq!(a.checked_mul(b), Some(Rational { num: 20, den: 6 }));
}

#[test]
fn div_keeps_exact_value() {
    let a = Rational { num: 1, den: 1 };
    let b = Rational { num: 3, den: 1 };
    assert_eq!(a.checked_div(b), Some(Rational { num: 1, den: 3 }));
}

#[test]
fn div_by_negative_keeps_denominator_positive() {
    let a = Rational { num: 1, den: 1 };
    let b = Rational { num: -2, den: 1 };
    assert_eq!(a.checked_div(b), Some(Rational { num: -1, den: 2 }));
}

#[test]
fn add_overflow_is_reported() {
    let a = Rational { num: i64::MAX, den: 1 };
    let b = Rational { num: 1, den: 1 };
    assert_eq!(a.checked_add(b), None);
}

#[test]
fn mul_overflow_is_reported() {
    let a = Rational { num: 1, den: i64::MAX };
    let b = Rational { num: 1, den: 2 };
    assert_eq!(a.checked_mul(b), None);
}

#[test]
fn is_zero_looks_at_numerator() {
    assert!(Rational { num: 0, den: 5 }.is_zero());
    assert!(!Rational { num: 3, den: 5 }.is_zero());
}
