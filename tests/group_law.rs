use elliptic::{from_coeffs, Curve, Point, PointError, Rational, Sign};
use num_bigint::BigUint;

fn curve73() -> Curve {
    from_coeffs(&[0, 0, 0, 73, 0])
}

fn p0() -> Point {
    Point::new(curve73(), Rational::from(36), Rational::from(222))
}

fn sum(a: &Point, b: &Point) -> Point {
    a.add(b).unwrap()
}

#[test]
fn curve_from_coefficients() {
    let c = from_coeffs(&[1, -2, 3, -4, 6]);
    assert_eq!((c.a1, c.a2, c.a3, c.a4, c.a6), (1, -2, 3, -4, 6));
    assert!(c == Curve { a1: 1, a2: -2, a3: 3, a4: -4, a6: 6 });
    assert!(c != curve73());
}

#[test]
fn scenario_point_on_curve() {
    let p = p0();
    assert!(p.verify());
    let d = p.double();
    assert!(d.verify());
    let nine = p.scalar_multiply(9).unwrap();
    let also_nine = sum(&p, &p.double().double().double());
    assert!(nine.verify());
    assert!(also_nine.verify());
    assert!(nine == also_nine);
}

#[test]
fn off_curve_point_fails_verify() {
    let p = Point::new(curve73(), Rational::from(36), Rational::from(221));
    assert!(!p.verify());
    assert!(Point::origin(curve73()).verify());
}

#[test]
fn identity_law() {
    let p = p0();
    let o = Point::origin(curve73());
    assert!(sum(&p, &o) == p);
    assert!(sum(&o, &p) == p);
    assert!(sum(&o, &o) == o);
}

#[test]
fn inverse_law() {
    let p = p0();
    let n = p.neg();
    assert!(n == Point::new(curve73(), Rational::from(36), Rational::from(-222)));
    assert!(sum(&p, &n).is_origin());
    assert!(n.neg() == p);
    assert!(p.is_inverse(&n));
    assert!(!p.is_inverse(&p));
    assert!(p.sub(&p).unwrap().is_origin());
}

#[test]
fn commutativity() {
    let p = p0();
    let q = p.double();
    let r = p.scalar_multiply(3).unwrap();
    assert!(sum(&p, &q) == sum(&q, &p));
    assert!(sum(&q, &r) == sum(&r, &q));
}

#[test]
fn doubling_matches_self_sum() {
    let p = p0();
    assert!(p.double() == sum(&p, &p));
    let q = p.scalar_multiply(5).unwrap();
    assert!(q.double() == sum(&q, &q));
    assert!(Point::origin(curve73()).double().is_origin());
}

#[test]
fn doubling_two_torsion_gives_origin() {
    let t = Point::new(curve73(), Rational::zero(), Rational::zero());
    assert!(t.verify());
    assert!(t.double().is_origin());
    assert!(sum(&t, &t).is_origin());
}

#[test]
fn scalar_multiple_matches_repeated_sum() {
    let p = p0();
    let mut acc = Point::origin(curve73());
    for n in 0..16 {
        assert!(p.scalar_multiply(n).unwrap() == acc);
        assert!(p.scalar_multiply(-n).unwrap() == acc.neg());
        acc = sum(&acc, &p);
    }
}

#[test]
fn closure_under_the_group_law() {
    let p = p0();
    let q = p.scalar_multiply(2).unwrap();
    let r = sum(&p, &q);
    assert!(r.verify());
    assert!(r.double().verify());
    assert!(sum(&r, &q).verify());
}

#[test]
fn curve_mismatch_fails() {
    let p = p0();
    let other = from_coeffs(&[0, 0, 0, 74, 0]);
    let q = Point::new(other, Rational::from(36), Rational::from(222));
    assert!(!p.same_curve(&q));
    assert_eq!(p.add(&q).unwrap_err(), PointError::CurveMismatch);
    assert_eq!(p.sub(&q).unwrap_err(), PointError::CurveMismatch);
    assert_eq!(Point::origin(other).add(&p).unwrap_err(), PointError::CurveMismatch);
}

#[test]
fn vertical_tangent_off_curve_divides_by_zero() {
    let c = from_coeffs(&[0, 0, 0, 1, 0]);
    let p = Point::new(c, Rational::zero(), Rational::from(5));
    let q = Point::new(c, Rational::zero(), Rational::zero());
    assert_eq!(q.add(&p).unwrap_err(), PointError::DivideByZero);
    let third = Rational::new(Sign::Pos, BigUint::from(1u8), BigUint::from(3u8));
    let s = Point::new(c, Rational::zero(), third);
    assert!(s.add(&p).is_ok());
}

#[test]
fn points_render() {
    assert_eq!(Point::origin(curve73()).to_string(), "Origin");
    assert_eq!(p0().to_string(), "(36, 222)");
    let half = Rational::new(Sign::Neg, BigUint::from(1u8), BigUint::from(2u8));
    assert_eq!(Point::new(curve73(), half, Rational::from(3)).to_string(), "(-1/2, 3)");
}

#[test]
fn curve_of_point() {
    assert!(p0().curve() == curve73());
    assert!(!p0().is_origin());
}
