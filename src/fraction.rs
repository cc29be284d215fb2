use vstd::prelude::*;
use crate::divisibility::{
    gcd,
    lemma_gcd_divides,
    lemma_divides_elim,
    lemma_gcd_quotients_coprime,
    lemma_reduced_unique,
    lemma_gcd_zero_left,
    lemma_gcd_one_right,
};

verus! {

/// A fraction of integers: the mathematical value of a `Rational`.
pub struct Frac {
    pub num: int,
    pub den: int,
}

pub open spec fn magnitude(n: int) -> nat {
    if n < 0 { (-n) as nat } else { n as nat }
}

/// Positive denominator, numerator and denominator coprime. The zero fraction
/// is then `0/1`.
pub open spec fn canonical(f: Frac) -> bool {
    f.den > 0 && gcd(magnitude(f.num), f.den as nat) == 1
}

/// `n/d` (for `d > 0`) in lowest terms.
pub open spec fn reduce(n: int, d: int) -> Frac {
    let g = gcd(magnitude(n), d as nat) as int;
    Frac {
        num: if n < 0 { -(magnitude(n) as int / g) } else { magnitude(n) as int / g },
        den: d / g,
    }
}

/// `n/d` for any nonzero `d`, in lowest terms.
pub open spec fn fraction(n: int, d: int) -> Frac {
    if d < 0 { reduce(-n, -d) } else { reduce(n, d) }
}

pub open spec fn fint(k: int) -> Frac {
    Frac { num: k, den: 1 }
}

pub open spec fn fzero() -> Frac {
    fint(0)
}

pub open spec fn fadd(a: Frac, b: Frac) -> Frac {
    reduce(a.num * b.den + b.num * a.den, a.den * b.den)
}

pub open spec fn fneg(a: Frac) -> Frac {
    Frac { num: -a.num, den: a.den }
}

pub open spec fn fsub(a: Frac, b: Frac) -> Frac {
    fadd(a, fneg(b))
}

pub open spec fn fmul(a: Frac, b: Frac) -> Frac {
    reduce(a.num * b.num, a.den * b.den)
}

/// `a / b` for `b` nonzero.
pub open spec fn fdiv(a: Frac, b: Frac) -> Frac {
    fraction(a.num * b.den, a.den * b.num)
}

pub proof fn lemma_reduce_canonical(n: int, d: int)
    requires
        d > 0,
    ensures
        canonical(reduce(n, d)),
        reduce(n, d).num * d == n * reduce(n, d).den,
{
    let m = magnitude(n);
    lemma_gcd_quotients_coprime(m, d as nat);
    lemma_gcd_divides(m, d as nat);
    let g = gcd(m, d as nat);
    lemma_divides_elim(g, m);
    lemma_divides_elim(g, d as nat);
    let a1 = m / g;
    let b1 = (d as nat) / g;
    assert(b1 > 0) by (nonlinear_arith)
        requires d == g * b1, d > 0, g > 0;
    let r = reduce(n, d);
    assert(r.den == b1);
    assert(magnitude(r.num) == a1);
    if n < 0 {
        assert(r.num * d == n * r.den) by (nonlinear_arith)
            requires r.num == -a1, n == -m, m == g * a1, d == g * b1, r.den == b1;
    } else {
        assert(r.num * d == n * r.den) by (nonlinear_arith)
            requires r.num == a1, n == m, m == g * a1, d == g * b1, r.den == b1;
    }
}

/// Equal fractions reduce alike.
pub proof fn lemma_reduce_equiv(n1: int, d1: int, n2: int, d2: int)
    requires
        d1 > 0,
        d2 > 0,
        n1 * d2 == n2 * d1,
    ensures
        reduce(n1, d1) == reduce(n2, d2),
{
    lemma_reduce_canonical(n1, d1);
    lemma_reduce_canonical(n2, d2);
    let r1 = reduce(n1, d1);
    let r2 = reduce(n2, d2);
    assert(r1.num * r2.den == r2.num * r1.den) by (nonlinear_arith)
        requires
            r1.num * d1 == n1 * r1.den,
            r2.num * d2 == n2 * r2.den,
            n1 * d2 == n2 * d1,
            d1 > 0,
            d2 > 0,
    {
        assert(r1.num * r2.den * (d1 * d2) == r2.num * r1.den * (d1 * d2));
    }
    assert(magnitude(r1.num) * r2.den == magnitude(r2.num) * r1.den
        && (r1.num < 0 <==> r2.num < 0)) by (nonlinear_arith)
        requires
            r1.num * r2.den == r2.num * r1.den,
            r1.den > 0,
            r2.den > 0,
            magnitude(r1.num) == if r1.num < 0 { -r1.num } else { r1.num },
            magnitude(r2.num) == if r2.num < 0 { -r2.num } else { r2.num },
    ;
    lemma_reduced_unique(magnitude(r1.num), r1.den as nat, magnitude(r2.num), r2.den as nat);
}

/// Zero reduces to `0/1`.
pub proof fn lemma_reduce_zero(d: int)
    requires
        d > 0,
    ensures
        reduce(0, d) == fzero(),
{
    lemma_gcd_zero_left(d as nat);
    assert(d / d == 1) by (nonlinear_arith)
        requires d > 0;
}

/// Integers are in lowest terms.
pub proof fn lemma_fint_canonical(k: int)
    ensures
        canonical(fint(k)),
{
    lemma_gcd_one_right(magnitude(k));
}

/// The only canonical zero is `0/1`.
pub proof fn lemma_canonical_zero(f: Frac)
    requires
        canonical(f),
    ensures
        f.num == 0 <==> f == fzero(),
{
    lemma_gcd_zero_left(f.den as nat);
}

/// A fraction in lowest terms reduces to itself.
pub proof fn lemma_reduce_canonical_id(f: Frac)
    requires
        canonical(f),
    ensures
        reduce(f.num, f.den) == f,
{
}

/// Reduction of a fraction `n/d` depends on its value alone: it is in lowest
/// terms, and scaling numerator and denominator by a nonzero `k` changes nothing.
pub proof fn lemma_fraction_reduced(n: int, d: int, k: int)
    requires
        d != 0,
        k != 0,
    ensures
        canonical(fraction(n, d)),
        fraction(n, d) == fraction(k * n, k * d),
{
    if d < 0 {
        lemma_reduce_canonical(-n, -d);
    } else {
        lemma_reduce_canonical(n, d);
    }
    let (a, b) = if d < 0 { (-n, -d) } else { (n, d) };
    let (ka, kb) = if k * d < 0 { (-(k * n), -(k * d)) } else { (k * n, k * d) };
    assert(kb > 0 && a * kb == ka * b) by (nonlinear_arith)
        requires
            k != 0,
            d != 0,
            a == (if d < 0 { -n } else { n }),
            b == (if d < 0 { -d } else { d }),
            ka == (if k * d < 0 { -(k * n) } else { k * n }),
            kb == (if k * d < 0 { -(k * d) } else { k * d }),
    ;
    lemma_reduce_equiv(a, b, ka, kb);
}


proof fn lemma_cross_add(xn: int, xd: int, n: int, d: int, cn: int, cd: int)
    requires
        xn * d == n * xd,
    ensures
        (xn * cd + cn * xd) * (d * cd) == (n * cd + cn * d) * (xd * cd),
{
    assert((xn * cd + cn * xd) * (d * cd) == (xn * d) * (cd * cd) + cn * xd * d * cd)
        by (nonlinear_arith);
    assert((n * cd + cn * d) * (xd * cd) == n * cd * (xd * cd) + cn * d * (xd * cd))
        by (nonlinear_arith);
    assert(n * cd * (xd * cd) == (n * xd) * (cd * cd)) by (nonlinear_arith);
    assert(cn * d * (xd * cd) == cn * xd * d * cd) by (nonlinear_arith);
}

proof fn lemma_assoc_identity(an: int, ad: int, bn: int, bd: int, cn: int, cd: int)
    ensures
        (an * bd + bn * ad) * cd + cn * (ad * bd) == (bn * cd + cn * bd) * ad + an * (bd * cd),
        (ad * bd) * cd == (bd * cd) * ad,
{
    assert((an * bd + bn * ad) * cd == an * bd * cd + bn * ad * cd) by (nonlinear_arith);
    assert((bn * cd + cn * bd) * ad == bn * cd * ad + cn * bd * ad) by (nonlinear_arith);
    assert(an * (bd * cd) == an * bd * cd) by (nonlinear_arith);
    assert(bn * ad * cd == bn * cd * ad) by (nonlinear_arith);
    assert(cn * (ad * bd) == cn * bd * ad) by (nonlinear_arith);
    assert((ad * bd) * cd == (bd * cd) * ad) by (nonlinear_arith);
}

/// If `x` has the value `n/d`, adding `c` to it is reduced from `n/d + c`.
proof fn lemma_add_congruent(x: Frac, n: int, d: int, c: Frac)
    requires
        x.den > 0,
        d > 0,
        c.den > 0,
        x.num * d == n * x.den,
    ensures
        fadd(x, c) == reduce(n * c.den + c.num * d, d * c.den),
{
    lemma_cross_add(x.num, x.den, n, d, c.num, c.den);
    assert(x.den * c.den > 0 && d * c.den > 0) by (nonlinear_arith)
        requires x.den > 0, d > 0, c.den > 0;
    lemma_reduce_equiv(x.num * c.den + c.num * x.den, x.den * c.den, n * c.den + c.num * d, d * c.den);
}

/// If `x` has the value `n/d`, multiplying it by `c` is reduced from `(n/d) * c`.
proof fn lemma_mul_congruent(x: Frac, n: int, d: int, c: Frac)
    requires
        x.den > 0,
        d > 0,
        c.den > 0,
        x.num * d == n * x.den,
    ensures
        fmul(x, c) == reduce(n * c.num, d * c.den),
{
    assert((x.num * c.num) * (d * c.den) == (n * c.num) * (x.den * c.den) && x.den * c.den > 0 && d
        * c.den > 0) by (nonlinear_arith)
        requires
            x.den > 0,
            d > 0,
            c.den > 0,
            x.num * d == n * x.den,
    ;
    lemma_reduce_equiv(x.num * c.num, x.den * c.den, n * c.num, d * c.den);
}

/// Sums and products of fractions in lowest terms are in lowest terms.
pub proof fn lemma_ops_canonical(a: Frac, b: Frac)
    requires
        canonical(a),
        canonical(b),
    ensures
        canonical(fadd(a, b)),
        canonical(fneg(a)),
        canonical(fsub(a, b)),
        canonical(fmul(a, b)),
        b.num != 0 ==> canonical(fdiv(a, b)),
{
    assert(a.den * b.den > 0) by (nonlinear_arith)
        requires a.den > 0, b.den > 0;
    lemma_reduce_canonical(a.num * b.den + b.num * a.den, a.den * b.den);
    lemma_reduce_canonical(a.num * b.den + (-b.num) * a.den, a.den * b.den);
    lemma_reduce_canonical(a.num * b.num, a.den * b.den);
    assert(magnitude(-a.num) == magnitude(a.num));
    if b.num != 0 {
        assert(a.den * b.num != 0) by (nonlinear_arith)
            requires a.den > 0, b.num != 0;
        lemma_fraction_reduced(a.num * b.den, a.den * b.num, 1);
    }
}

/// Every value plus its negation is zero.
pub proof fn lemma_add_neg(a: Frac)
    requires
        canonical(a),
    ensures
        fadd(a, fneg(a)) == fzero(),
{
    assert(a.num * a.den + (-a.num) * a.den == 0 && a.den * a.den > 0) by (nonlinear_arith)
        requires a.den > 0;
    lemma_reduce_zero(a.den * a.den);
}

/// Dividing by a nonzero `b` and multiplying back by `b` gives the value back.
pub proof fn lemma_div_mul(a: Frac, b: Frac)
    requires
        canonical(a),
        canonical(b),
        b.num != 0,
    ensures
        fmul(fdiv(a, b), b) == a,
{
    let (n, d) = if a.den * b.num < 0 {
        (-(a.num * b.den), -(a.den * b.num))
    } else {
        (a.num * b.den, a.den * b.num)
    };
    assert(d > 0 && (n * b.num) * a.den == a.num * (d * b.den)) by (nonlinear_arith)
        requires
            a.den > 0,
            b.den > 0,
            b.num != 0,
            n == (if a.den * b.num < 0 { -(a.num * b.den) } else { a.num * b.den }),
            d == (if a.den * b.num < 0 { -(a.den * b.num) } else { a.den * b.num }),
    ;
    lemma_reduce_canonical(n, d);
    lemma_mul_congruent(fdiv(a, b), n, d, b);
    assert(d * b.den > 0) by (nonlinear_arith)
        requires d > 0, b.den > 0;
    lemma_reduce_equiv(n * b.num, d * b.den, a.num, a.den);
    lemma_reduce_canonical_id(a);
}

/// Multiplication commutes.
pub proof fn lemma_mul_comm(a: Frac, b: Frac)
    ensures
        fmul(a, b) == fmul(b, a),
{
    assert(a.num * b.num == b.num * a.num && a.den * b.den == b.den * a.den) by (nonlinear_arith);
}

/// Addition commutes.
pub proof fn lemma_add_comm(a: Frac, b: Frac)
    ensures
        fadd(a, b) == fadd(b, a),
{
    assert(a.num * b.den + b.num * a.den == b.num * a.den + a.num * b.den && a.den * b.den == b.den
        * a.den) by (nonlinear_arith);
}

/// Addition is associative.
pub proof fn lemma_add_assoc(a: Frac, b: Frac, c: Frac)
    requires
        canonical(a),
        canonical(b),
        canonical(c),
    ensures
        fadd(fadd(a, b), c) == fadd(a, fadd(b, c)),
{
    let n1 = a.num * b.den + b.num * a.den;
    let d1 = a.den * b.den;
    let n2 = b.num * c.den + c.num * b.den;
    let d2 = b.den * c.den;
    assert(d1 > 0 && d2 > 0) by (nonlinear_arith)
        requires a.den > 0, b.den > 0, c.den > 0, d1 == a.den * b.den, d2 == b.den * c.den;
    lemma_reduce_canonical(n1, d1);
    lemma_reduce_canonical(n2, d2);
    lemma_add_congruent(fadd(a, b), n1, d1, c);
    lemma_add_comm(a, fadd(b, c));
    lemma_add_congruent(fadd(b, c), n2, d2, a);
    lemma_assoc_identity(a.num, a.den, b.num, b.den, c.num, c.den);
}


/// Zero is the additive identity.
pub proof fn lemma_add_zero(a: Frac)
    requires
        canonical(a),
    ensures
        fadd(a, fzero()) == a,
{
    assert(a.num * 1 + 0 * a.den == a.num && a.den * 1 == a.den) by (nonlinear_arith);
    lemma_reduce_canonical_id(a);
}

proof fn lemma_reduce_neg(n: int, d: int)
    requires
        d > 0,
    ensures
        fneg(reduce(n, d)) == reduce(-n, d),
{
    assert(magnitude(-n) == magnitude(n));
    let g = gcd(magnitude(n), d as nat) as int;
    assert(gcd(magnitude(-n), d as nat) as int == g);
    if n == 0 {
        lemma_reduce_zero(d);
    }
}

/// Negation distributes over addition.
pub proof fn lemma_neg_add(a: Frac, b: Frac)
    requires
        canonical(a),
        canonical(b),
    ensures
        fneg(fadd(a, b)) == fadd(fneg(a), fneg(b)),
{
    assert(a.den * b.den > 0) by (nonlinear_arith)
        requires a.den > 0, b.den > 0;
    lemma_reduce_neg(a.num * b.den + b.num * a.den, a.den * b.den);
    assert(-(a.num * b.den + b.num * a.den) == (-a.num) * b.den + (-b.num) * a.den)
        by (nonlinear_arith);
}

/// Negation is an involution.
pub proof fn lemma_neg_neg(a: Frac)
    ensures
        fneg(fneg(a)) == a,
{
}

/// A summand determines the other: `a + b == 0` forces `a == -b`.
pub proof fn lemma_add_eq_zero(a: Frac, b: Frac)
    requires
        canonical(a),
        canonical(b),
        fadd(a, b) == fzero(),
    ensures
        a == fneg(b),
{
    lemma_ops_canonical(a, b);
    lemma_add_zero(a);
    lemma_add_neg(b);
    lemma_add_assoc(a, b, fneg(b));
    lemma_add_comm(fzero(), fneg(b));
    lemma_add_zero(fneg(b));
}

/// `2·y == y + y`.
pub proof fn lemma_twice(y: Frac)
    requires
        canonical(y),
    ensures
        fmul(fint(2), y) == fadd(y, y),
{
    assert((2 * y.num) * (y.den * y.den) == (y.num * y.den + y.num * y.den) * (1 * y.den) && 1
        * y.den > 0 && y.den * y.den > 0) by (nonlinear_arith)
        requires y.den > 0;
    lemma_reduce_equiv(2 * y.num, 1 * y.den, y.num * y.den + y.num * y.den, y.den * y.den);
}

/// A zero difference means equal values.
pub proof fn lemma_sub_zero(a: Frac, b: Frac)
    requires
        canonical(a),
        canonical(b),
        fsub(a, b) == fzero(),
    ensures
        a == b,
{
    lemma_add_eq_zero(a, fneg(b));
}


/// Adding `b` and then `-b` gives `a` back.
pub proof fn lemma_add_sub_cancel(a: Frac, b: Frac)
    requires
        canonical(a),
        canonical(b),
    ensures
        fadd(fadd(a, b), fneg(b)) == a,
{
    lemma_ops_canonical(a, b);
    lemma_add_assoc(a, b, fneg(b));
    lemma_add_neg(b);
    lemma_add_zero(a);
}

/// The last two summands may change places.
pub proof fn lemma_add_right_comm(a: Frac, b: Frac, c: Frac)
    requires
        canonical(a),
        canonical(b),
        canonical(c),
    ensures
        fadd(fadd(a, b), c) == fadd(fadd(a, c), b),
{
    lemma_add_assoc(a, b, c);
    lemma_add_comm(b, c);
    lemma_add_assoc(a, c, b);
}

/// Swapping the operands of a difference negates it.
pub proof fn lemma_sub_swap(a: Frac, b: Frac)
    requires
        canonical(a),
        canonical(b),
    ensures
        fsub(b, a) == fneg(fsub(a, b)),
{
    lemma_ops_canonical(a, b);
    lemma_neg_add(a, fneg(b));
    lemma_add_comm(fneg(a), b);
}

/// Negating both sides of a quotient changes nothing.
pub proof fn lemma_div_neg_neg(u: Frac, v: Frac)
    requires
        u.den > 0,
        v.num != 0,
    ensures
        fdiv(fneg(u), fneg(v)) == fdiv(u, v),
{
    let n = u.num * v.den;
    let d = u.den * v.num;
    assert((-u.num) * v.den == -1 * n && u.den * (-v.num) == -1 * d && d != 0) by (nonlinear_arith)
        requires n == u.num * v.den, d == u.den * v.num, u.den > 0, v.num != 0;
    lemma_fraction_reduced(n, d, -1);
}

} // verus!
