use vstd::prelude::*;
use vstd::string::StringExecFns;
use num_bigint::BigUint;
use crate::bignum::{
    big_value, decimal, big_from_u64, big_is_zero, big_clone, big_add, big_sub, big_mul,
    big_div, big_eq, big_ge, big_to_decimal,
};
use crate::divisibility::{lemma_gcd_divides, lemma_divides_elim};
use crate::fraction::{
    Frac, magnitude, canonical, reduce, fint, fzero, fadd, fneg, fsub, fmul, fdiv, fraction,
    lemma_reduce_canonical, lemma_reduce_zero, lemma_fint_canonical, lemma_canonical_zero,
};
use crate::utils::gcd;

verus! {

/// Sign of a `Rational`; zero is always `Pos`.
#[derive(Clone, Copy, PartialEq, Eq, Structural, Debug)]
pub enum Sign {
    Pos,
    Neg,
}

/// The integer with sign `s` and magnitude `m`.
pub open spec fn signed(s: Sign, m: nat) -> int {
    if s == Sign::Neg { -m } else { m as int }
}

/// The sign that a product of the two signs has.
pub open spec fn sign_product(a: Sign, b: Sign) -> Sign {
    if a == b { Sign::Pos } else { Sign::Neg }
}

impl Sign {
    pub fn flip(&self) -> (r: Sign)
        ensures
            r != *self,
    {
        match self {
            Sign::Pos => Sign::Neg,
            Sign::Neg => Sign::Pos,
        }
    }

    /// `"-"` for `Neg`, the empty string for `Pos`.
    pub fn to_string(&self) -> (r: String)
        ensures
            r@ == (if *self == Sign::Neg { seq!['-'] } else { Seq::<char>::empty() }),
    {
        match self {
            Sign::Pos => String::new(),
            Sign::Neg => {
                proof {
                    reveal_strlit("-");
                }
                String::from_str("-")
            },
        }
    }

    pub fn mul(self, other: Sign) -> (r: Sign)
        ensures
            r == sign_product(self, other),
    {
        if self == other {
            Sign::Pos
        } else {
            Sign::Neg
        }
    }
}

/// Why an arithmetic operation on `Rational`s failed.
#[derive(Clone, Copy, PartialEq, Eq, Structural, Debug)]
pub enum RationalError {
    DivideByZero,
}

/// An exact rational number: a sign and two magnitudes, kept in lowest terms.
#[derive(Debug)]
pub struct Rational {
    sign: Sign,
    p: BigUint,
    q: BigUint,
}

impl View for Rational {
    type V = Frac;

    closed spec fn view(&self) -> Frac {
        Frac { num: signed(self.sign, big_value(self.p)), den: big_value(self.q) as int }
    }
}

/// How a fraction in lowest terms is written: `p` when the denominator is 1,
/// else `p/q`, with a leading `-` when negative.
pub open spec fn render(f: Frac) -> Seq<char> {
    (if f.num < 0 { seq!['-'] } else { Seq::<char>::empty() }) + decimal(magnitude(f.num)) + (
    if f.den == 1 {
        Seq::<char>::empty()
    } else {
        seq!['/'] + decimal(f.den as nat)
    })
}

proof fn lemma_signed_scale(s: Sign, m: nat, k: nat)
    ensures
        signed(s, m) * k == signed(s, m * k),
{
    if s == Sign::Neg {
        assert((-m) * k == -(m * k)) by (nonlinear_arith);
    }
}

proof fn lemma_signed_product(s1: Sign, m1: nat, s2: Sign, m2: nat)
    ensures
        signed(s1, m1) * signed(s2, m2) == signed(sign_product(s1, s2), m1 * m2),
{
    if s1 == Sign::Neg && s2 == Sign::Neg {
        assert((-m1) * (-m2) == m1 * m2) by (nonlinear_arith);
    } else if s1 == Sign::Neg {
        assert((-m1) * m2 == -(m1 * m2)) by (nonlinear_arith);
    } else if s2 == Sign::Neg {
        assert(m1 * (-m2) == -(m1 * m2)) by (nonlinear_arith);
    }
}

impl Rational {
    /// Lowest terms, positive denominator, and no negative zero.
    pub closed spec fn wf(&self) -> bool {
        &&& canonical(self@)
        &&& (big_value(self.p) == 0 ==> self.sign == Sign::Pos)
    }

    pub proof fn lemma_wf(&self)
        requires
            self.wf(),
        ensures
            canonical(self@),
    {
    }

    /// `±numerator / denominator` in lowest terms.
    pub fn new(sign: Sign, numerator: BigUint, denominator: BigUint) -> (r: Rational)
        requires
            big_value(denominator) > 0,
        ensures
            r.wf(),
            r@ == reduce(signed(sign, big_value(numerator)), big_value(denominator) as int),
    {
        let ghost n = big_value(numerator);
        let ghost d = big_value(denominator);
        if big_is_zero(&numerator) {
            proof {
                lemma_reduce_zero(d as int);
            }
            return Rational::zero();
        }
        let g = gcd(big_clone(&numerator), big_clone(&denominator));
        proof {
            lemma_gcd_divides(n, d);
            lemma_divides_elim(big_value(g), n);
            lemma_reduce_canonical(signed(sign, n), d as int);
            assert(magnitude(signed(sign, n)) == n);
        }
        let p = big_div(&numerator, &g);
        let q = big_div(&denominator, &g);
        proof {
            assert(big_value(p) > 0) by (nonlinear_arith)
                requires n == big_value(g) * big_value(p), n > 0;
        }
        Rational { sign, p, q }
    }

    pub fn zero() -> (r: Rational)
        ensures
            r.wf(),
            r@ == fzero(),
    {
        proof {
            lemma_fint_canonical(0);
        }
        Rational { sign: Sign::Pos, p: big_from_u64(0), q: big_from_u64(1) }
    }

    pub fn is_zero(&self) -> (r: bool)
        requires
            self.wf(),
        ensures
            r == (self@ == fzero()),
    {
        proof {
            lemma_canonical_zero(self@);
        }
        big_is_zero(&self.p)
    }

    pub fn from(num: i32) -> (r: Rational)
        ensures
            r.wf(),
            r@ == fint(num as int),
    {
        let wide = num as i64;
        let (sign, m) = if wide >= 0 {
            (Sign::Pos, wide as u64)
        } else {
            (Sign::Neg, (-wide) as u64)
        };
        proof {
            lemma_fint_canonical(num as int);
        }
        Rational { sign, p: big_from_u64(m), q: big_from_u64(1) }
    }

    /// A copy of the value.
    pub fn duplicate(&self) -> (r: Rational)
        requires
            self.wf(),
        ensures
            r.wf(),
            r@ == self@,
    {
        Rational { sign: self.sign, p: big_clone(&self.p), q: big_clone(&self.q) }
    }

    pub fn add(&self, other: &Rational) -> (r: Rational)
        requires
            self.wf(),
            other.wf(),
        ensures
            r.wf(),
            r@ == fadd(self@, other@),
    {
        let denominator = big_mul(&self.q, &other.q);
        let num1 = big_mul(&self.p, &other.q);
        let num2 = big_mul(&self.q, &other.p);
        let ghost a = self@;
        let ghost b = other@;
        let ghost target = a.num * b.den + b.num * a.den;
        proof {
            lemma_signed_scale(self.sign, big_value(self.p), big_value(other.q));
            lemma_signed_scale(other.sign, big_value(other.p), big_value(self.q));
            assert(big_value(self.q) * big_value(other.p) == big_value(other.p) * big_value(self.q))
                by (nonlinear_arith);
            assert(target == signed(self.sign, big_value(num1)) + signed(other.sign, big_value(num2)));
            assert(big_value(denominator) > 0) by (nonlinear_arith)
                requires big_value(denominator) == big_value(self.q) * big_value(other.q),
                    big_value(self.q) > 0, big_value(other.q) > 0;
        }
        let numerator: BigUint;
        let sign: Sign;
        if self.sign == other.sign {
            numerator = big_add(&num1, &num2);
            sign = self.sign;
        } else if big_ge(&num1, &num2) {
            numerator = big_sub(&num1, &num2);
            sign = self.sign;
        } else {
            numerator = big_sub(&num2, &num1);
            sign = other.sign;
        }
        assert(signed(sign, big_value(numerator)) == target);
        Rational::new(sign, numerator, denominator)
    }

    pub fn neg(&self) -> (r: Rational)
        requires
            self.wf(),
        ensures
            r.wf(),
            r@ == fneg(self@),
    {
        if big_is_zero(&self.p) {
            proof {
                lemma_canonical_zero(self@);
            }
            return Rational::zero();
        }
        proof {
            assert(magnitude(-self@.num) == magnitude(self@.num));
        }
        Rational { sign: self.sign.flip(), p: big_clone(&self.p), q: big_clone(&self.q) }
    }

    pub fn sub(&self, other: &Rational) -> (r: Rational)
        requires
            self.wf(),
            other.wf(),
        ensures
            r.wf(),
            r@ == fsub(self@, other@),
    {
        self.add(&other.neg())
    }

    pub fn mul(&self, other: &Rational) -> (r: Rational)
        requires
            self.wf(),
            other.wf(),
        ensures
            r.wf(),
            r@ == fmul(self@, other@),
    {
        let ghost a = self@;
        let ghost b = other@;
        if self.is_zero() || other.is_zero() {
            proof {
                assert(a.num * b.num == 0) by (nonlinear_arith)
                    requires a.num == 0 || b.num == 0;
                assert(a.den * b.den > 0) by (nonlinear_arith)
                    requires a.den > 0, b.den > 0;
                lemma_reduce_zero(a.den * b.den);
            }
            return Rational::zero();
        }
        let sign = self.sign.mul(other.sign);
        let numerator = big_mul(&self.p, &other.p);
        let denominator = big_mul(&self.q, &other.q);
        proof {
            lemma_signed_product(self.sign, big_value(self.p), other.sign, big_value(other.p));
            assert(big_value(denominator) > 0) by (nonlinear_arith)
                requires big_value(denominator) == big_value(self.q) * big_value(other.q),
                    big_value(self.q) > 0, big_value(other.q) > 0;
        }
        Rational::new(sign, numerator, denominator)
    }

    /// Fails exactly when the divisor is zero.
    pub fn div(&self, other: &Rational) -> (r: Result<Rational, RationalError>)
        requires
            self.wf(),
            other.wf(),
        ensures
            other@ == fzero() ==> r == Err::<Rational, RationalError>(RationalError::DivideByZero),
            other@ != fzero() ==> r.is_ok() && r.unwrap().wf() && r.unwrap()@ == fdiv(
                self@,
                other@,
            ),
    {
        if other.is_zero() {
            return Err(RationalError::DivideByZero);
        }
        let ghost a = self@;
        let ghost b = other@;
        let sign = self.sign.mul(other.sign);
        let numerator = big_mul(&self.p, &other.q);
        let denominator = big_mul(&self.q, &other.p);
        proof {
            let (p1, q1, p2, q2) = (big_value(self.p), big_value(self.q), big_value(other.p), big_value(other.q));
            lemma_canonical_zero(b);
            assert(p2 > 0);
            assert(q1 * p2 > 0) by (nonlinear_arith)
                requires q1 > 0, p2 > 0;
            if other.sign == Sign::Pos {
                assert(a.den * b.num == q1 * p2);
                lemma_signed_scale(self.sign, p1, q2);
                if p1 == 0 {
                    assert(p1 * q2 == 0) by (nonlinear_arith)
                        requires p1 == 0;
                }
            } else {
                assert(a.den * b.num == -(q1 * p2)) by (nonlinear_arith)
                    requires a.den == q1, b.num == -p2;
                lemma_signed_scale(self.sign, p1, q2);
                assert(-(a.den * b.num) == q1 * p2);
                if p1 == 0 {
                    assert(p1 * q2 == 0) by (nonlinear_arith)
                        requires p1 == 0;
                }
            }
        }
        Ok(Rational::new(sign, numerator, denominator))
    }

    /// `self + k` for a machine integer `k`.
    pub fn add_int(&self, k: i32) -> (r: Rational)
        requires
            self.wf(),
        ensures
            r.wf(),
            r@ == fadd(self@, fint(k as int)),
    {
        self.add(&Rational::from(k))
    }

    /// `self - k` for a machine integer `k`.
    pub fn sub_int(&self, k: i32) -> (r: Rational)
        requires
            self.wf(),
        ensures
            r.wf(),
            r@ == fsub(self@, fint(k as int)),
    {
        self.sub(&Rational::from(k))
    }

    /// `self * k` for a machine integer `k`.
    pub fn mul_int(&self, k: i32) -> (r: Rational)
        requires
            self.wf(),
        ensures
            r.wf(),
            r@ == fmul(self@, fint(k as int)),
    {
        self.mul(&Rational::from(k))
    }

    /// `p` when the denominator is 1, else `p/q`; a leading `-` when negative.
    pub fn to_string(&self) -> (r: String)
        requires
            self.wf(),
        ensures
            r@ == render(self@),
    {
        let mut s = self.sign.to_string();
        let digits = big_to_decimal(&self.p);
        s.append(digits.as_str());
        let one = big_from_u64(1);
        if !big_eq(&self.q, &one) {
            proof {
                reveal_strlit("/");
            }
            s.append("/");
            let below = big_to_decimal(&self.q);
            s.append(below.as_str());
        }
        proof {
            assert(magnitude(self@.num) == big_value(self.p));
        }
        s
    }
}

impl PartialEq for Rational {
    fn eq(&self, other: &Rational) -> (r: bool) {
        big_eq(&self.q, &other.q) && big_eq(&self.p, &other.p) && (self.sign == other.sign
            || big_is_zero(&self.p))
    }
}

impl vstd::std_specs::cmp::PartialEqSpecImpl for Rational {
    open spec fn obeys_eq_spec() -> bool {
        true
    }

    open spec fn eq_spec(&self, other: &Rational) -> bool {
        self@ == other@
    }
}

} // verus!
