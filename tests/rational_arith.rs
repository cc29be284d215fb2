use elliptic::{gcd, Rational, RationalError, Sign};
use num_bigint::BigUint;

fn big(n: u64) -> BigUint {
    BigUint::from(n)
}

fn frac(sign: Sign, p: u64, q: u64) -> Rational {
    Rational::new(sign, big(p), big(q))
}

#[test]
fn sum_of_integers_renders_plainly() {
    let r = Rational::from(3).add(&Rational::from(2));
    assert!(r == Rational::from(5));
    assert!(r == frac(Sign::Pos, 5, 1));
    assert_eq!(r.to_string(), "5");
}

#[test]
fn difference_of_halves_and_thirds() {
    let half = frac(Sign::Pos, 1, 2);
    let third = frac(Sign::Pos, 1, 3);
    let r = half.sub(&third);
    assert!(r == frac(Sign::Pos, 1, 6));
    assert_eq!(r.to_string(), "1/6");
}

#[test]
fn construction_reduces_to_lowest_terms() {
    let r = frac(Sign::Pos, 6, 8);
    assert_eq!(r.to_string(), "3/4");
    assert!(r == frac(Sign::Pos, 3, 4));
    assert!(frac(Sign::Neg, 10, 4) == frac(Sign::Neg, 5, 2));
    assert!(frac(Sign::Pos, 7, 7) == Rational::from(1));
}

#[test]
fn scaled_fractions_are_equal() {
    for k in 1..6u64 {
        assert!(frac(Sign::Neg, 3 * k, 7 * k) == frac(Sign::Neg, 3, 7));
    }
}

#[test]
fn zero_numerator_has_no_sign() {
    let z = frac(Sign::Neg, 0, 5);
    assert!(z == Rational::zero());
    assert!(z.is_zero());
    assert_eq!(z.to_string(), "0");
    assert!(Rational::from(4).neg().neg() == Rational::from(4));
    assert_eq!(Rational::zero().neg().to_string(), "0");
}

#[test]
fn negative_values_render_with_leading_minus() {
    let r = Rational::from(-65).div(&Rational::from(6)).unwrap();
    assert_eq!(r.to_string(), "-65/6");
    let s = Rational::from(65).div(&Rational::from(-6)).unwrap();
    assert!(r == s);
    assert_eq!(Rational::from(-7).to_string(), "-7");
}

#[test]
fn divide_by_zero_fails() {
    assert_eq!(Rational::from(5).div(&Rational::zero()).unwrap_err(), RationalError::DivideByZero);
    assert_eq!(
        frac(Sign::Neg, 2, 3).div(&frac(Sign::Neg, 0, 9)).unwrap_err(),
        RationalError::DivideByZero
    );
}

#[test]
fn field_laws_on_examples() {
    let a = frac(Sign::Neg, 3, 4);
    let b = frac(Sign::Pos, 5, 6);
    let c = frac(Sign::Neg, 7, 10);
    assert!(a.add(&a.neg()) == Rational::zero());
    assert!(a.div(&b).unwrap().mul(&b) == a);
    assert!(a.mul(&b) == b.mul(&a));
    assert!(a.add(&b).add(&c) == a.add(&b.add(&c)));
    assert_eq!(a.mul(&b).to_string(), "-5/8");
    assert_eq!(a.add(&b).to_string(), "1/12");
    assert_eq!(a.div(&c).unwrap().to_string(), "15/14");
}

#[test]
fn mixed_signs_in_sums() {
    assert_eq!(Rational::from(-3).add(&Rational::from(5)).to_string(), "2");
    assert_eq!(Rational::from(3).add(&Rational::from(-5)).to_string(), "-2");
    assert_eq!(Rational::from(-3).sub(&Rational::from(-3)).to_string(), "0");
}

#[test]
fn extreme_integers() {
    let m = Rational::from(i32::MIN);
    assert_eq!(m.to_string(), "-2147483648");
    assert_eq!(m.mul(&m).to_string(), "4611686018427387904");
}

#[test]
fn gcd_of_naturals() {
    assert_eq!(gcd(big(12), big(18)), big(6));
    assert_eq!(gcd(big(0), big(9)), big(9));
    assert_eq!(gcd(big(9), big(0)), big(9));
    assert_eq!(gcd(big(17), big(5)), big(1));
}

#[test]
fn sign_helpers() {
    assert_eq!(Sign::Pos.flip(), Sign::Neg);
    assert_eq!(Sign::Neg.flip(), Sign::Pos);
    assert_eq!(Sign::Neg.to_string(), "-");
    assert_eq!(Sign::Pos.to_string(), "");
    assert_eq!(Sign::Neg.mul(Sign::Neg), Sign::Pos);
    assert_eq!(Sign::Pos.mul(Sign::Neg), Sign::Neg);
}

#[test]
fn integer_convenience_operations() {
    let r = frac(Sign::Pos, 1, 2);
    assert_eq!(r.add_int(3).to_string(), "7/2");
    assert_eq!(r.sub_int(1).to_string(), "-1/2");
    assert_eq!(r.mul_int(-4).to_string(), "-2");
    assert_eq!(r.mul_int(0).to_string(), "0");
}
