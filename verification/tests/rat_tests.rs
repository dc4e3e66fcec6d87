//! Exact rational arithmetic.

use prodplan::rat::Ratio;

fn r(num: u32, den: u32) -> Ratio {
    Ratio::new(num, den).unwrap()
}

#[test]
fn new_reduces_to_lowest_terms() {
    let x = r(6, 4);
    assert_eq!(x.num(), 3);
    assert_eq!(x.den(), 2);
}

#[test]
fn new_rejects_zero_denominator() {
    assert!(Ratio::new(1, 0).is_none());
}

#[test]
fn zero_and_one() {
    assert_eq!(Ratio::zero().num(), 0);
    assert_eq!(Ratio::zero().den(), 1);
    assert_eq!(Ratio::one().num(), 1);
    assert_eq!(Ratio::one().den(), 1);
}

#[test]
fn addition_is_exact() {
    let x = r(1, 3);
    let y = r(1, 6);
    let s = x.checked_add(&y).unwrap();
    assert_eq!((s.num(), s.den()), (1, 2));
}

#[test]
fn multiplication_is_exact() {
    let x = r(2, 3);
    let y = r(9, 4);
    let p = x.checked_mul(&y).unwrap();
    assert_eq!((p.num(), p.den()), (3, 2));
}

#[test]
fn division_is_exact() {
    let x = r(6, 1);
    let y = r(11, 10);
    let q = x.checked_div(&y).unwrap();
    assert_eq!((q.num(), q.den()), (60, 11));
}

#[test]
fn overflow_yields_none() {
    // Two large primes: the product cannot reduce into u32 components.
    let x = r(4294967291, 1);
    let y = r(4294967279, 1);
    assert!(x.checked_mul(&y).is_none());
}

#[test]
fn comparisons_are_exact() {
    let x = r(1, 3);
    let y = r(2, 6);
    let z = r(3, 8);
    assert!(x.eq_value(&y));
    assert!(x.lt(&z));
    assert!(x.le(&y));
    assert!(!z.lt(&x));
    assert!(x.is_zero() == false);
    assert!(Ratio::zero().is_zero());
}
