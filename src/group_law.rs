use vstd::prelude::*;
use crate::curve::Curve;
use crate::fraction::{
    Frac, canonical, fint, fzero, fadd, fneg, fsub, fmul, fdiv, lemma_fint_canonical,
    lemma_ops_canonical, lemma_twice, lemma_add_assoc, lemma_add_eq_zero, lemma_neg_add,
    lemma_add_sub_cancel, lemma_add_right_comm, lemma_sub_swap, lemma_div_neg_neg, lemma_mul_comm,
    lemma_add_comm, lemma_canonical_zero,
};

verus! {

/// Why a group-law operation failed.
#[derive(Clone, Copy, PartialEq, Eq, Structural, Debug)]
pub enum PointError {
    /// The two points lie on curves with different coefficients.
    CurveMismatch,
    /// A slope would divide by zero (possible only for points off the curve).
    DivideByZero,
}

/// Where a point is: the point at infinity, or affine coordinates.
pub enum Position {
    Origin,
    Finite(Frac, Frac),
}

/// The mathematical value of a `Point`.
pub struct PointView {
    pub curve: Curve,
    pub place: Position,
}

pub open spec fn coeff(k: i32) -> Frac {
    fint(k as int)
}

pub open spec fn origin_of(c: Curve) -> PointView {
    PointView { curve: c, place: Position::Origin }
}

pub open spec fn finite_of(c: Curve, x: Frac, y: Frac) -> PointView {
    PointView { curve: c, place: Position::Finite(x, y) }
}

/// Coordinates in lowest terms.
pub open spec fn valid(p: PointView) -> bool {
    match p.place {
        Position::Origin => true,
        Position::Finite(x, y) => canonical(x) && canonical(y),
    }
}

/// The `y` of the reflection of `(x, y)`: `-y - a1·x - a3`.
pub open spec fn neg_y(c: Curve, x: Frac, y: Frac) -> Frac {
    fsub(fsub(fneg(y), fmul(coeff(c.a1), x)), coeff(c.a3))
}

pub open spec fn point_neg(p: PointView) -> PointView {
    match p.place {
        Position::Origin => p,
        Position::Finite(x, y) => finite_of(p.curve, x, neg_y(p.curve, x, y)),
    }
}

/// `y² + a1·xy + a3·y`
pub open spec fn curve_lhs(c: Curve, x: Frac, y: Frac) -> Frac {
    fadd(fadd(fmul(y, y), fmul(coeff(c.a1), fmul(x, y))), fmul(coeff(c.a3), y))
}

/// `x³ + a2·x² + a4·x + a6`
pub open spec fn curve_rhs(c: Curve, x: Frac) -> Frac {
    let x2 = fmul(x, x);
    fadd(fadd(fadd(fmul(x, x2), fmul(coeff(c.a2), x2)), fmul(coeff(c.a4), x)), coeff(c.a6))
}

/// The point satisfies its curve's equation (the origin always does).
pub open spec fn on_curve(p: PointView) -> bool {
    match p.place {
        Position::Origin => true,
        Position::Finite(x, y) => curve_lhs(p.curve, x, y) == curve_rhs(p.curve, x),
    }
}

/// Numerator of the tangent slope: `3x² + 2·a2·x + a4 - a1·y`.
pub open spec fn tangent_num(c: Curve, x: Frac, y: Frac) -> Frac {
    fsub(
        fadd(fadd(fmul(fint(3), fmul(x, x)), fmul(fint(2), fmul(coeff(c.a2), x))), coeff(c.a4)),
        fmul(coeff(c.a1), y),
    )
}

/// Denominator of the tangent slope and intercept: `2y + a1·x + a3`.
pub open spec fn tangent_den(c: Curve, x: Frac, y: Frac) -> Frac {
    fadd(fadd(fmul(fint(2), y), fmul(coeff(c.a1), x)), coeff(c.a3))
}

/// Numerator of the tangent intercept: `-x³ + a4·x + 2·a6 - a3·y`.
pub open spec fn tangent_intercept_num(c: Curve, x: Frac, y: Frac) -> Frac {
    fsub(
        fadd(fadd(fneg(fmul(x, fmul(x, x))), fmul(coeff(c.a4), x)), fmul(fint(2), coeff(c.a6))),
        fmul(coeff(c.a3), y),
    )
}

/// Slope of the secant: `(y2 - y1) / (x2 - x1)`.
pub open spec fn secant_slope(x1: Frac, y1: Frac, x2: Frac, y2: Frac) -> Frac {
    fdiv(fsub(y2, y1), fsub(x2, x1))
}

/// Intercept of the secant: `(y1·x2 - x1·y2) / (x2 - x1)`.
pub open spec fn secant_intercept(x1: Frac, y1: Frac, x2: Frac, y2: Frac) -> Frac {
    fdiv(fsub(fmul(y1, x2), fmul(x1, y2)), fsub(x2, x1))
}

/// `λ² + a1·λ - a2 - x1 - x2`
pub open spec fn third_x(c: Curve, l: Frac, x1: Frac, x2: Frac) -> Frac {
    fsub(fsub(fadd(fmul(l, l), fmul(coeff(c.a1), l)), coeff(c.a2)), fadd(x1, x2))
}

/// `-(λ + a1)·x3 - ν - a3`
pub open spec fn third_y(c: Curve, l: Frac, nu: Frac, x3: Frac) -> Frac {
    fsub(fmul(fneg(x3), fadd(l, coeff(c.a1))), fadd(nu, coeff(c.a3)))
}

/// The point on the line of slope `l` and intercept `nu`, through points with
/// `x` coordinates `x1` and `x2`, reflected.
pub open spec fn line_sum(c: Curve, l: Frac, nu: Frac, x1: Frac, x2: Frac) -> PointView {
    finite_of(c, third_x(c, l, x1, x2), third_y(c, l, nu, third_x(c, l, x1, x2)))
}

/// The group sum of two points.
pub open spec fn point_add(p: PointView, q: PointView) -> Result<PointView, PointError> {
    if p.curve != q.curve {
        Err(PointError::CurveMismatch)
    } else {
        let c = p.curve;
        match p.place {
            Position::Origin => Ok(q),
            Position::Finite(x1, y1) => match q.place {
                Position::Origin => Ok(p),
                Position::Finite(x2, y2) => {
                    if p == point_neg(q) {
                        Ok(origin_of(c))
                    } else if x1 == x2 {
                        let den = tangent_den(c, x1, y1);
                        if den == fzero() {
                            Err(PointError::DivideByZero)
                        } else {
                            let l = fdiv(tangent_num(c, x1, y1), den);
                            let nu = fdiv(tangent_intercept_num(c, x1, y1), den);
                            Ok(line_sum(c, l, nu, x1, x2))
                        }
                    } else {
                        let l = secant_slope(x1, y1, x2, y2);
                        let nu = secant_intercept(x1, y1, x2, y2);
                        Ok(line_sum(c, l, nu, x1, x2))
                    }
                },
            },
        }
    }
}

/// The doubled point, by the tangent line.
pub open spec fn point_double(p: PointView) -> PointView {
    let c = p.curve;
    match p.place {
        Position::Origin => p,
        Position::Finite(x, y) => {
            if p == point_neg(p) {
                origin_of(c)
            } else {
                let l = fdiv(tangent_num(c, x, y), tangent_den(c, x, y));
                let x3 = fsub(fsub(fadd(fmul(l, l), fmul(coeff(c.a1), l)), coeff(c.a2)), fmul(fint(2), x));
                let y3 = fsub(fadd(fneg(fmul(coeff(c.a1), x3)), fmul(l, fsub(x, x3))), fadd(y, coeff(c.a3)));
                finite_of(c, x3, y3)
            }
        },
    }
}

/// `m·base` for `m >= 1` by double-and-add over the binary digits of `m`,
/// most significant first.
pub open spec fn ladder(base: PointView, m: nat) -> Result<PointView, PointError>
    decreases m,
{
    if m <= 1 {
        Ok(base)
    } else {
        match ladder(base, m / 2) {
            Err(e) => Err(e),
            Ok(h) => {
                let d = point_double(h);
                if m % 2 == 1 {
                    point_add(d, base)
                } else {
                    Ok(d)
                }
            },
        }
    }
}

/// `n·p` for any integer `n`.
pub open spec fn point_multiple(p: PointView, n: int) -> Result<PointView, PointError> {
    if p.place is Origin || n == 0 {
        Ok(origin_of(p.curve))
    } else if n < 0 {
        ladder(point_neg(p), (-n) as nat)
    } else {
        ladder(p, n as nat)
    }
}

/// A vanishing tangent denominator `2y + a1·x + a3` means that `(x, y)` is
/// its own reflection.
pub proof fn lemma_tangent_den_zero(c: Curve, x: Frac, y: Frac)
    requires
        canonical(x),
        canonical(y),
        tangent_den(c, x, y) == fzero(),
    ensures
        y == neg_y(c, x, y),
{
    let m = fmul(coeff(c.a1), x);
    let k = coeff(c.a3);
    lemma_fint_canonical(c.a1 as int);
    lemma_fint_canonical(c.a3 as int);
    lemma_ops_canonical(coeff(c.a1), x);
    lemma_ops_canonical(y, y);
    lemma_ops_canonical(y, m);
    lemma_ops_canonical(fadd(y, m), k);
    lemma_twice(y);
    lemma_add_assoc(y, y, m);
    lemma_add_assoc(y, fadd(y, m), k);
    lemma_add_eq_zero(y, fadd(fadd(y, m), k));
    lemma_neg_add(fadd(y, m), k);
    lemma_neg_add(y, m);
}

proof fn lemma_neg_y_involution(c: Curve, x: Frac, y: Frac)
    requires
        canonical(x),
        canonical(y),
    ensures
        neg_y(c, x, neg_y(c, x, y)) == y,
{
    let m = fmul(coeff(c.a1), x);
    let k = coeff(c.a3);
    lemma_fint_canonical(c.a1 as int);
    lemma_fint_canonical(c.a3 as int);
    lemma_ops_canonical(coeff(c.a1), x);
    lemma_ops_canonical(y, m);
    lemma_ops_canonical(fneg(y), fneg(m));
    lemma_ops_canonical(fadd(y, m), k);
    lemma_ops_canonical(m, k);
    lemma_ops_canonical(y, k);
    lemma_neg_add(fadd(fneg(y), fneg(m)), fneg(k));
    lemma_neg_add(fneg(y), fneg(m));
    lemma_add_right_comm(fadd(y, m), k, fneg(m));
    lemma_add_sub_cancel(y, m);
    lemma_add_sub_cancel(y, k);
}

/// Negation of points is an involution.
pub proof fn lemma_point_neg_neg(p: PointView)
    requires
        valid(p),
    ensures
        point_neg(point_neg(p)) == p,
{
    if let Position::Finite(x, y) = p.place {
        lemma_neg_y_involution(p.curve, x, y);
    }
}

/// A point plus its negation is the origin.
pub proof fn lemma_add_inverse(p: PointView)
    requires
        valid(p),
    ensures
        point_add(p, point_neg(p)) == Ok::<PointView, PointError>(origin_of(p.curve)),
{
    lemma_point_neg_neg(p);
}

/// The origin is the identity on both sides.
pub proof fn lemma_add_identity(p: PointView)
    ensures
        point_add(p, origin_of(p.curve)) == Ok::<PointView, PointError>(p),
        point_add(origin_of(p.curve), p) == Ok::<PointView, PointError>(p),
{
}

/// Points of different curves do not combine.
pub proof fn lemma_curve_mismatch(p: PointView, q: PointView)
    requires
        p.curve != q.curve,
    ensures
        point_add(p, q) == Err::<PointView, PointError>(PointError::CurveMismatch),
        point_add(q, p) == Err::<PointView, PointError>(PointError::CurveMismatch),
{
}

/// Finite points with one `x` coordinate are equal or each other's negation,
/// as two points of a curve always are.
pub open spec fn x_determines_pair(p: PointView, q: PointView) -> bool {
    match (p.place, q.place) {
        (Position::Finite(x1, _), Position::Finite(x2, _)) => x1 == x2 ==> (p == q || p == point_neg(q)),
        _ => true,
    }
}

/// Addition commutes, on any two points whose common `x`, if any, is shared
/// only by equal or mutually negated points.
pub proof fn lemma_add_comm_points(p: PointView, q: PointView)
    requires
        valid(p),
        valid(q),
        x_determines_pair(p, q),
    ensures
        point_add(p, q) == point_add(q, p),
{
    if p.curve == q.curve {
        if let (Position::Finite(x1, y1), Position::Finite(x2, y2)) = (p.place, q.place) {
            lemma_point_neg_neg(p);
            lemma_point_neg_neg(q);
            assert(p == point_neg(q) <==> q == point_neg(p));
            if p != point_neg(q) && x1 != x2 {
                let c = p.curve;
                lemma_ops_canonical(x1, x2);
                lemma_ops_canonical(y1, y2);
                lemma_ops_canonical(y1, x2);
                lemma_ops_canonical(x1, y2);
                lemma_ops_canonical(fmul(y1, x2), fmul(x1, y2));
                lemma_sub_swap(x2, x1);
                lemma_sub_swap(y2, y1);
                lemma_mul_comm(y2, x1);
                lemma_mul_comm(x2, y1);
                lemma_sub_swap(fmul(y1, x2), fmul(x1, y2));
                lemma_canonical_zero(fsub(x2, x1));
                if fsub(x2, x1).num == 0 {
                    crate::fraction::lemma_sub_zero(x2, x1);
                }
                lemma_div_neg_neg(fsub(y2, y1), fsub(x2, x1));
                lemma_div_neg_neg(fsub(fmul(y1, x2), fmul(x1, y2)), fsub(x2, x1));
                lemma_add_comm(x1, x2);
                assert(secant_slope(x1, y1, x2, y2) == secant_slope(x2, y2, x1, y1));
                assert(secant_intercept(x1, y1, x2, y2) == secant_intercept(x2, y2, x1, y1));
            }
        }
    }
}

/// Doubling and adding a point to itself agree on whether the result is the
/// origin, and otherwise on its `x` coordinate.
pub proof fn lemma_double_matches_self_sum_x(p: PointView)
    requires
        valid(p),
    ensures
        point_double(p).place is Origin ==> point_add(p, p) == Ok::<PointView, PointError>(
            point_double(p),
        ),
        point_double(p).place matches Position::Finite(x3, _) ==> (point_add(p, p) matches Ok(
            s,
        ) && s.place matches Position::Finite(x, _) && x == x3),
{
    if let Position::Finite(x, y) = p.place {
        if p != point_neg(p) {
            let c = p.curve;
            if tangent_den(c, x, y) == fzero() {
                lemma_tangent_den_zero(c, x, y);
            }
            lemma_twice(x);
        }
    }
}

} // verus!
