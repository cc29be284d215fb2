use vstd::prelude::*;
use vstd::arithmetic::div_mod::{
    lemma_fundamental_div_mod,
    lemma_fundamental_div_mod_converse,
};

verus! {

/// Greatest common divisor of two naturals, by Euclid's recursion.
pub open spec fn gcd(a: nat, b: nat) -> nat
    decreases b,
{
    if b == 0 {
        a
    } else {
        gcd(b, a % b)
    }
}

pub proof fn lemma_gcd_zero_left(d: nat)
    ensures
        gcd(0, d) == d,
{
    if d > 0 {
        assert(gcd(0, d) == gcd(d, 0));
    }
}

pub proof fn lemma_gcd_one_right(a: nat)
    ensures
        gcd(a, 1) == 1,
{
    assert(a % 1 == 0);
    assert(gcd(a, 1) == gcd(1, 0));
}

/// `d` divides `n` (for a positive `d`).
pub open spec fn divides(d: nat, n: nat) -> bool {
    d > 0 && n % d == 0
}

pub proof fn lemma_divides_intro(d: nat, n: nat, k: nat)
    requires
        d > 0,
        n == d * k,
    ensures
        divides(d, n),
        n / d == k,
{
    assert(n == k * d + 0) by (nonlinear_arith)
        requires n == d * k;
    lemma_fundamental_div_mod_converse(n as int, d as int, k as int, 0);
}

pub proof fn lemma_divides_elim(d: nat, n: nat)
    requires
        divides(d, n),
    ensures
        n == d * (n / d),
{
    lemma_fundamental_div_mod(n as int, d as int);
}

/// `(a * c) % (b * c) == (a % b) * c`.
proof fn lemma_mod_scaled(a: nat, b: nat, c: nat)
    requires
        b > 0,
        c > 0,
    ensures
        (a * c) % (b * c) == (a % b) * c,
        b * c > 0,
{
    lemma_fundamental_div_mod(a as int, b as int);
    let q = a / b;
    let r = a % b;
    assert(0 <= r < b);
    assert(a * c == q * (b * c) + r * c) by (nonlinear_arith)
        requires a == b * q + r;
    assert(0 <= r * c < b * c) by (nonlinear_arith)
        requires 0 <= r < b, c > 0;
    lemma_fundamental_div_mod_converse((a * c) as int, (b * c) as int, q as int, (r * c) as int);
}

/// The gcd divides both arguments, and is positive unless both are zero.
pub proof fn lemma_gcd_divides(a: nat, b: nat)
    requires
        a > 0 || b > 0,
    ensures
        gcd(a, b) > 0,
        divides(gcd(a, b), a),
        divides(gcd(a, b), b),
    decreases b,
{
    if b == 0 {
        lemma_divides_intro(a, a, 1);
        lemma_divides_intro(a, 0, 0);
    } else {
        lemma_gcd_divides(b, a % b);
        let g = gcd(b, a % b);
        lemma_divides_elim(g, b);
        lemma_divides_elim(g, a % b);
        lemma_fundamental_div_mod(a as int, b as int);
        let k1 = b / g;
        let k2 = (a % b) / g;
        let q = a / b;
        assert(a == g * (k1 * q + k2)) by (nonlinear_arith)
            requires a == b * q + a % b, b == g * k1, a % b == g * k2;
        lemma_divides_intro(g, a, k1 * q + k2);
    }
}

/// Every common divisor divides the gcd.
pub proof fn lemma_common_divisor_divides_gcd(d: nat, a: nat, b: nat)
    requires
        divides(d, a),
        divides(d, b),
    ensures
        divides(d, gcd(a, b)),
    decreases b,
{
    if b > 0 {
        lemma_divides_elim(d, a);
        lemma_divides_elim(d, b);
        lemma_fundamental_div_mod(a as int, b as int);
        let ka = a / d;
        let kb = b / d;
        let q = a / b;
        let r = a % b;
        let k: int = ka - kb * q;
        assert(r == d * k) by (nonlinear_arith)
            requires a == b * q + r, a == d * ka, b == d * kb, k == ka - kb * q;
        assert(k >= 0) by (nonlinear_arith)
            requires r == d * k, r >= 0, d > 0;
        lemma_divides_intro(d, r, k as nat);
        lemma_common_divisor_divides_gcd(d, b, r);
    }
}

/// `gcd(a * c, b * c) == gcd(a, b) * c`.
pub proof fn lemma_gcd_scaled(a: nat, b: nat, c: nat)
    requires
        c > 0,
    ensures
        gcd(a * c, b * c) == gcd(a, b) * c,
    decreases b,
{
    if b == 0 {
        assert(b * c == 0);
    } else {
        lemma_mod_scaled(a, b, c);
        lemma_gcd_scaled(b, a % b, c);
    }
}

/// Euclid's lemma: if `a` divides `b * c` and is coprime to `b`, it divides `c`.
pub proof fn lemma_euclid(a: nat, b: nat, c: nat)
    requires
        a > 0,
        gcd(b, a) == 1,
        divides(a, b * c),
    ensures
        divides(a, c),
{
    if c == 0 {
        lemma_divides_intro(a, 0, 0);
    } else {
        lemma_gcd_scaled(b, a, c);
        assert(gcd(b, a) * c == c);
        lemma_divides_intro(a, a * c, c);
        lemma_common_divisor_divides_gcd(a, b * c, a * c);
    }
}

/// Two positive naturals that divide each other are equal.
pub proof fn lemma_divides_antisym(x: nat, y: nat)
    requires
        divides(x, y),
        divides(y, x),
    ensures
        x == y,
{
    lemma_divides_elim(x, y);
    lemma_divides_elim(y, x);
    let k1 = y / x;
    let k2 = x / y;
    assert(x == y) by (nonlinear_arith)
        requires y == x * k1, x == y * k2, x > 0, y > 0;
}

/// Dividing both arguments by their gcd leaves them coprime.
pub proof fn lemma_gcd_quotients_coprime(a: nat, b: nat)
    requires
        b > 0,
    ensures
        gcd(a, b) > 0,
        gcd(a / gcd(a, b), b / gcd(a, b)) == 1,
{
    lemma_gcd_divides(a, b);
    let g = gcd(a, b);
    lemma_divides_elim(g, a);
    lemma_divides_elim(g, b);
    let a1 = a / g;
    let b1 = b / g;
    assert(a1 * g == a && b1 * g == b) by (nonlinear_arith)
        requires a == g * a1, b == g * b1;
    lemma_gcd_scaled(a1, b1, g);
    assert(gcd(a1, b1) == 1) by (nonlinear_arith)
        requires gcd(a1, b1) * g == g, g > 0;
}

/// A fraction in lowest terms is unique: equal cross products of two reduced
/// pairs force equal pairs.
pub proof fn lemma_reduced_unique(p1: nat, q1: nat, p2: nat, q2: nat)
    requires
        q1 > 0,
        q2 > 0,
        gcd(p1, q1) == 1,
        gcd(p2, q2) == 1,
        p1 * q2 == p2 * q1,
    ensures
        p1 == p2,
        q1 == q2,
{
    assert(p1 * q2 == q1 * p2) by (nonlinear_arith)
        requires p1 * q2 == p2 * q1;
    lemma_divides_intro(q1, p1 * q2, p2);
    lemma_euclid(q1, p1, q2);
    assert(p2 * q1 == q2 * p1) by (nonlinear_arith)
        requires p1 * q2 == p2 * q1;
    lemma_divides_intro(q2, p2 * q1, p1);
    lemma_euclid(q2, p2, q1);
    lemma_divides_antisym(q1, q2);
    assert(p1 == p2) by (nonlinear_arith)
        requires p1 * q2 == p2 * q1, q1 == q2, q1 > 0;
}

} // verus!
