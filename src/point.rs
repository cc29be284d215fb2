use vstd::prelude::*;
use vstd::string::StringExecFns;
use crate::curve::Curve;
use crate::fraction::{fzero, fsub, lemma_sub_zero};
use crate::group_law::{
    PointError, Position, PointView, coeff, origin_of, finite_of, valid, point_neg, on_curve,
    tangent_num, tangent_den, tangent_intercept_num, secant_slope, secant_intercept, point_add,
    point_double, ladder, point_multiple, lemma_tangent_den_zero,
};
use crate::rational::{Rational, render};

verus! {

/// The two shapes of a point.
#[derive(Debug)]
pub enum PointKind {
    Origin,
    Finite(Rational, Rational),
}

/// A point of a curve: the point at infinity, or affine rational coordinates.
#[derive(Debug)]
pub struct Point {
    curve: Curve,
    point: PointKind,
}

impl View for Point {
    type V = PointView;

    closed spec fn view(&self) -> PointView {
        PointView {
            curve: self.curve,
            place: match self.point {
                PointKind::Origin => Position::Origin,
                PointKind::Finite(x, y) => Position::Finite(x@, y@),
            },
        }
    }
}

/// How a point is written: `Origin`, or `(x, y)`.
pub open spec fn render_point(p: PointView) -> Seq<char> {
    match p.place {
        Position::Origin => seq!['O', 'r', 'i', 'g', 'i', 'n'],
        Position::Finite(x, y) => seq!['('] + render(x) + seq![',', ' '] + render(y) + seq![')'],
    }
}

fn coefficient(k: i32) -> (r: Rational)
    ensures
        r.wf(),
        r@ == coeff(k),
{
    Rational::from(k)
}

/// Slope of the tangent at `(x, y)`, whose denominator must not vanish.
fn big_lambda(x: &Rational, y: &Rational, c: &Curve) -> (r: Rational)
    requires
        x.wf(),
        y.wf(),
        tangent_den(*c, x@, y@) != fzero(),
    ensures
        r.wf(),
        r@ == crate::fraction::fdiv(tangent_num(*c, x@, y@), tangent_den(*c, x@, y@)),
{
    let numerator = tangent_numerator(x, y, c);
    let denominator = tangent_denominator(x, y, c);
    numerator.div(&denominator).unwrap()
}

fn tangent_numerator(x: &Rational, y: &Rational, c: &Curve) -> (r: Rational)
    requires
        x.wf(),
        y.wf(),
    ensures
        r.wf(),
        r@ == tangent_num(*c, x@, y@),
{
    let three_x2 = Rational::from(3).mul(&x.mul(x));
    let two_a2_x = Rational::from(2).mul(&coefficient(c.a2).mul(x));
    three_x2.add(&two_a2_x).add(&coefficient(c.a4)).sub(&coefficient(c.a1).mul(y))
}

fn tangent_denominator(x: &Rational, y: &Rational, c: &Curve) -> (r: Rational)
    requires
        x.wf(),
        y.wf(),
    ensures
        r.wf(),
        r@ == tangent_den(*c, x@, y@),
{
    Rational::from(2).mul(y).add(&coefficient(c.a1).mul(x)).add(&coefficient(c.a3))
}

/// Slope and intercept of the tangent at `(x, y)`; fails where the tangent
/// is vertical.
fn big_lambda_nu(x: &Rational, y: &Rational, c: &Curve) -> (r: Result<(Rational, Rational), PointError>)
    requires
        x.wf(),
        y.wf(),
    ensures
        tangent_den(*c, x@, y@) == fzero() <==> r is Err,
        r is Err ==> r == Err::<(Rational, Rational), PointError>(PointError::DivideByZero),
        r matches Ok((l, nu)) ==> l.wf() && nu.wf() && l@ == crate::fraction::fdiv(
            tangent_num(*c, x@, y@),
            tangent_den(*c, x@, y@),
        ) && nu@ == crate::fraction::fdiv(tangent_intercept_num(*c, x@, y@), tangent_den(*c, x@, y@)),
{
    let denominator = tangent_denominator(x, y, c);
    if denominator.is_zero() {
        return Err(PointError::DivideByZero);
    }
    let lambda = tangent_numerator(x, y, c).div(&denominator).unwrap();
    let cube = x.mul(&x.mul(x));
    let numerator = cube.neg().add(&coefficient(c.a4).mul(x)).add(
        &Rational::from(2).mul(&coefficient(c.a6)),
    ).sub(&coefficient(c.a3).mul(y));
    let nu = numerator.div(&denominator).unwrap();
    Ok((lambda, nu))
}

/// Slope and intercept of the secant through two points with distinct `x`.
fn small_lambda_nu(x1: &Rational, y1: &Rational, x2: &Rational, y2: &Rational) -> (r: (
    Rational,
    Rational,
))
    requires
        x1.wf(),
        y1.wf(),
        x2.wf(),
        y2.wf(),
        x1@ != x2@,
    ensures
        r.0.wf(),
        r.1.wf(),
        r.0@ == secant_slope(x1@, y1@, x2@, y2@),
        r.1@ == secant_intercept(x1@, y1@, x2@, y2@),
{
    let denominator = x2.sub(x1);
    proof {
        x1.lemma_wf();
        x2.lemma_wf();
        if fsub(x2@, x1@) == fzero() {
            lemma_sub_zero(x2@, x1@);
        }
    }
    let lambda = y2.sub(y1).div(&denominator).unwrap();
    let nu = y1.mul(x2).sub(&x1.mul(y2)).div(&denominator).unwrap();
    (lambda, nu)
}

proof fn lemma_ladder_unfold(base: PointView, v: nat, h: PointView)
    requires
        v > 1,
        ladder(base, v / 2) == Ok::<PointView, PointError>(h),
    ensures
        ladder(base, v) == (if v % 2 == 1 {
            point_add(point_double(h), base)
        } else {
            Ok(point_double(h))
        }),
{
}

/// A failure part way up the ladder is the failure of the whole ladder.
proof fn lemma_ladder_failure(base: PointView, vals: Seq<nat>, i: int, e: PointError)
    requires
        0 <= i < vals.len(),
        forall|j: int| 0 <= j < vals.len() ==> vals[j] >= 1,
        forall|j: int| 0 <= j && j + 1 < vals.len() ==> vals[j + 1] == #[trigger] vals[j] / 2,
        ladder(base, vals[i]) == Err::<PointView, PointError>(e),
    ensures
        ladder(base, vals[0]) == Err::<PointView, PointError>(e),
    decreases i,
{
    if i > 0 {
        assert(vals[i - 1] / 2 == vals[i]);
        assert(vals[i - 1] > 1);
        lemma_ladder_failure(base, vals, i - 1, e);
    }
}

impl Point {
    /// Both coordinates of a finite point are well formed.
    pub closed spec fn wf(&self) -> bool {
        match self.point {
            PointKind::Origin => true,
            PointKind::Finite(x, y) => x.wf() && y.wf(),
        }
    }

    pub proof fn lemma_wf(&self)
        requires
            self.wf(),
        ensures
            valid(self@),
    {
        match self.point {
            PointKind::Origin => {},
            PointKind::Finite(x, y) => {
                x.lemma_wf();
                y.lemma_wf();
            },
        }
    }

    pub fn same_curve(&self, other: &Point) -> (r: bool)
        ensures
            r == (self@.curve == other@.curve),
    {
        self.curve == other.curve
    }

    /// `self` is the negation of `other`.
    pub fn is_inverse(&self, other: &Point) -> (r: bool)
        requires
            self.wf(),
            other.wf(),
        ensures
            r == (self@ == point_neg(other@)),
    {
        let n = other.neg();
        self.eq(&n)
    }

    /// Whether the point satisfies its curve's equation.
    pub fn verify(&self) -> (r: bool)
        requires
            self.wf(),
        ensures
            r == on_curve(self@),
    {
        let c = self.curve;
        match &self.point {
            PointKind::Origin => true,
            PointKind::Finite(x, y) => {
                let x2 = x.mul(x);
                let lhs = y.mul(y).add(&coefficient(c.a1).mul(&x.mul(y))).add(
                    &coefficient(c.a3).mul(y),
                );
                let rhs = x.mul(&x2).add(&coefficient(c.a2).mul(&x2)).add(
                    &coefficient(c.a4).mul(x),
                ).add(&coefficient(c.a6));
                lhs.eq(&rhs)
            },
        }
    }

    pub fn origin(curve: Curve) -> (r: Point)
        ensures
            r.wf(),
            r@ == origin_of(curve),
    {
        Point { curve, point: PointKind::Origin }
    }

    /// The finite point `(x, y)`; the curve equation is not checked.
    pub fn new(curve: Curve, x: Rational, y: Rational) -> (r: Point)
        requires
            x.wf(),
            y.wf(),
        ensures
            r.wf(),
            r@ == finite_of(curve, x@, y@),
    {
        Point { curve, point: PointKind::Finite(x, y) }
    }

    pub fn curve(&self) -> (r: Curve)
        ensures
            r == self@.curve,
    {
        self.curve
    }

    pub fn is_origin(&self) -> (r: bool)
        ensures
            r == (self@.place is Origin),
    {
        match &self.point {
            PointKind::Origin => true,
            PointKind::Finite(_, _) => false,
        }
    }

    /// A copy of the point.
    pub fn duplicate(&self) -> (r: Point)
        requires
            self.wf(),
        ensures
            r.wf(),
            r@ == self@,
    {
        match &self.point {
            PointKind::Origin => Point::origin(self.curve),
            PointKind::Finite(x, y) => Point::new(self.curve, x.duplicate(), y.duplicate()),
        }
    }

    pub fn double(&self) -> (r: Point)
        requires
            self.wf(),
        ensures
            r.wf(),
            r@ == point_double(self@),
    {
        let c = self.curve;
        let (x1, y1) = match &self.point {
            PointKind::Origin => {
                return Point::origin(c);
            },
            PointKind::Finite(x, y) => (x, y),
        };
        if self.is_inverse(self) {
            return Point::origin(c);
        }
        proof {
            x1.lemma_wf();
            y1.lemma_wf();
            if tangent_den(c, x1@, y1@) == fzero() {
                lemma_tangent_den_zero(c, x1@, y1@);
            }
        }
        let lambda = big_lambda(x1, y1, &c);
        let m = &lambda;
        let x = m.mul(m).add(&coefficient(c.a1).mul(m)).sub(&coefficient(c.a2)).sub(
            &Rational::from(2).mul(x1),
        );
        let y = coefficient(c.a1).mul(&x).neg().add(&lambda.mul(&x1.sub(&x))).sub(
            &y1.add(&coefficient(c.a3)),
        );
        Point::new(c, x, y)
    }

    pub fn neg(&self) -> (r: Point)
        requires
            self.wf(),
        ensures
            r.wf(),
            r@ == point_neg(self@),
    {
        let c = self.curve;
        match &self.point {
            PointKind::Origin => Point::origin(c),
            PointKind::Finite(x, y) => {
                let ny = y.neg().sub(&coefficient(c.a1).mul(x)).sub(&coefficient(c.a3));
                Point::new(c, x.duplicate(), ny)
            },
        }
    }

    /// The group sum; fails on points of different curves, and where a
    /// slope would divide by zero.
    pub fn add(&self, other: &Point) -> (r: Result<Point, PointError>)
        requires
            self.wf(),
            other.wf(),
        ensures
            r matches Ok(p) ==> p.wf() && point_add(self@, other@) == Ok::<PointView, PointError>(p@),
            r matches Err(e) ==> point_add(self@, other@) == Err::<PointView, PointError>(e),
    {
        if !self.same_curve(other) {
            return Err(PointError::CurveMismatch);
        }
        let c = self.curve;
        let (x1, y1) = match &self.point {
            PointKind::Origin => {
                return Ok(other.duplicate());
            },
            PointKind::Finite(x, y) => (x, y),
        };
        let (x2, y2) = match &other.point {
            PointKind::Origin => {
                return Ok(self.duplicate());
            },
            PointKind::Finite(x, y) => (x, y),
        };
        if self.is_inverse(other) {
            return Ok(Point::origin(c));
        }
        let (lambda, nu) = if x1.eq(x2) {
            match big_lambda_nu(x1, y1, &c) {
                Ok(line) => line,
                Err(e) => {
                    return Err(e);
                },
            }
        } else {
            small_lambda_nu(x1, y1, x2, y2)
        };
        let m = &lambda;
        let x = m.mul(m).add(&coefficient(c.a1).mul(m)).sub(&coefficient(c.a2)).sub(
            &x1.add(x2),
        );
        let y = x.neg().mul(&m.add(&coefficient(c.a1))).sub(&nu.add(&coefficient(c.a3)));
        Ok(Point::new(c, x, y))
    }

    /// `self + (-other)`.
    pub fn sub(&self, other: &Point) -> (r: Result<Point, PointError>)
        requires
            self.wf(),
            other.wf(),
        ensures
            r matches Ok(p) ==> p.wf() && point_add(self@, point_neg(other@)) == Ok::<
                PointView,
                PointError,
            >(p@),
            r matches Err(e) ==> point_add(self@, point_neg(other@)) == Err::<PointView, PointError>(e),
    {
        self.add(&other.neg())
    }

    /// `number·self`, by double-and-add over the binary digits of `|number|`,
    /// most significant first.
    #[verifier::rlimit(40)]
    pub fn scalar_multiply(&self, number: i32) -> (r: Result<Point, PointError>)
        requires
            self.wf(),
        ensures
            r matches Ok(p) ==> p.wf() && point_multiple(self@, number as int) == Ok::<
                PointView,
                PointError,
            >(p@),
            r matches Err(e) ==> point_multiple(self@, number as int) == Err::<PointView, PointError>(e),
    {
        let c = self.curve;
        if self.is_origin() || number == 0 {
            return Ok(Point::origin(c));
        }
        let wide = number as i64;
        let (magnitude, base) = if wide < 0 {
            ((-wide) as u32, self.neg())
        } else {
            (wide as u32, self.duplicate())
        };
        let ghost m = magnitude as nat;
        assert(point_multiple(self@, number as int) == ladder(base@, m));
        let mut bits: Vec<bool> = Vec::new();
        let ghost mut vals: Seq<nat> = seq![];
        let mut k: u32 = magnitude;
        while k > 0
            invariant
                bits@.len() == vals.len(),
                forall|j: int| 0 <= j < vals.len() ==> bits@[j] == (vals[j] % 2 == 1),
                forall|j: int| 0 <= j < vals.len() ==> vals[j] >= 1,
                forall|j: int| 0 <= j && j + 1 < vals.len() ==> vals[j + 1] == #[trigger] vals[j] / 2,
                vals.len() > 0 ==> vals[0] == m && k == vals.last() / 2,
                vals.len() == 0 ==> k == m,
                m >= 1,
            decreases k,
        {
            bits.push(k % 2 == 1);
            proof {
                vals = vals.push(k as nat);
            }
            k = k / 2;
        }
        let mut acc = base.duplicate();
        let mut i: usize = bits.len() - 1;
        assert(vals[i as int] == 1);
        while i > 0
            invariant
                bits@.len() == vals.len(),
                forall|j: int| 0 <= j < vals.len() ==> bits@[j] == (vals[j] % 2 == 1),
                forall|j: int| 0 <= j < vals.len() ==> vals[j] >= 1,
                forall|j: int| 0 <= j && j + 1 < vals.len() ==> vals[j + 1] == #[trigger] vals[j] / 2,
                vals[0] == m,
                point_multiple(self@, number as int) == ladder(base@, m),
                i < bits@.len(),
                base.wf(),
                acc.wf(),
                ladder(base@, vals[i as int]) == Ok::<PointView, PointError>(acc@),
            decreases i,
        {
            i = i - 1;
            assert(vals[i as int] / 2 == vals[i as int + 1]);
            assert(vals[i as int] > 1);
            proof {
                lemma_ladder_unfold(base@, vals[i as int], acc@);
            }
            acc = acc.double();
            if bits[i] {
                match acc.add(&base) {
                    Ok(s) => {
                        acc = s;
                    },
                    Err(e) => {
                        proof {
                            lemma_ladder_failure(base@, vals, i as int, e);
                        }
                        return Err(e);
                    },
                }
            }
        }
        Ok(acc)
    }

    /// `Origin`, or `(x, y)` with the coordinates written as fractions.
    pub fn to_string(&self) -> (r: String)
        requires
            self.wf(),
        ensures
            r@ == render_point(self@),
    {
        match &self.point {
            PointKind::Origin => {
                proof {
                    reveal_strlit("Origin");
                }
                String::from_str("Origin")
            },
            PointKind::Finite(x, y) => {
                proof {
                    reveal_strlit("(");
                    reveal_strlit(", ");
                    reveal_strlit(")");
                }
                let mut s = String::from_str("(");
                let xs = x.to_string();
                s.append(xs.as_str());
                s.append(", ");
                let ys = y.to_string();
                s.append(ys.as_str());
                s.append(")");
                s
            },
        }
    }
}

impl PartialEq for Point {
    fn eq(&self, other: &Point) -> (r: bool) {
        if self.curve != other.curve {
            return false;
        }
        match (&self.point, &other.point) {
            (PointKind::Origin, PointKind::Origin) => true,
            (PointKind::Finite(x1, y1), PointKind::Finite(x2, y2)) => x1.eq(x2) && y1.eq(y2),
            _ => false,
        }
    }
}

impl vstd::std_specs::cmp::PartialEqSpecImpl for Point {
    open spec fn obeys_eq_spec() -> bool {
        true
    }

    open spec fn eq_spec(&self, other: &Point) -> bool {
        self@ == other@
    }
}

} // verus!
