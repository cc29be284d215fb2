use vstd::prelude::*;
use num_bigint::BigUint;

verus! {

#[verifier::external_type_specification]
#[verifier::external_body]
pub struct ExBigUint(BigUint);

/// The natural number that a `BigUint` holds.
pub uninterp spec fn big_value(b: BigUint) -> nat;

/// The character of a decimal digit `d < 10`.
pub open spec fn digit_char(d: nat) -> char {
    if d == 0 { '0' } else if d == 1 { '1' } else if d == 2 { '2' } else if d == 3 { '3' }
    else if d == 4 { '4' } else if d == 5 { '5' } else if d == 6 { '6' } else if d == 7 { '7' }
    else if d == 8 { '8' } else { '9' }
}

/// The decimal digits of `n`, most significant first, without leading zeros.
pub open spec fn decimal(n: nat) -> Seq<char>
    decreases n,
{
    if n < 10 {
        seq![digit_char(n)]
    } else {
        decimal(n / 10).push(digit_char(n % 10))
    }
}

/// Relies on `BigUint: From<u64>`: the value is the integer given.
#[verifier::external_body]
pub(crate) fn big_from_u64(n: u64) -> (r: BigUint)
    ensures
        big_value(r) == n as nat,
{
    BigUint::from(n)
}

/// Relies on `num_traits::Zero::is_zero` for `BigUint`: true exactly on zero.
#[verifier::external_body]
pub(crate) fn big_is_zero(b: &BigUint) -> (r: bool)
    ensures
        r == (big_value(*b) == 0),
{
    num_traits::Zero::is_zero(b)
}

/// Relies on `Clone` for `BigUint`: the copy holds the same value.
#[verifier::external_body]
pub(crate) fn big_clone(b: &BigUint) -> (r: BigUint)
    ensures
        big_value(r) == big_value(*b),
{
    b.clone()
}

/// Relies on `&BigUint + &BigUint`: the exact sum.
#[verifier::external_body]
pub(crate) fn big_add(a: &BigUint, b: &BigUint) -> (r: BigUint)
    ensures
        big_value(r) == big_value(*a) + big_value(*b),
{
    a + b
}

/// Relies on `&BigUint - &BigUint`: the exact difference; it panics when it
/// would be negative, which `requires` leaves out.
#[verifier::external_body]
pub(crate) fn big_sub(a: &BigUint, b: &BigUint) -> (r: BigUint)
    requires
        big_value(*a) >= big_value(*b),
    ensures
        big_value(r) == big_value(*a) - big_value(*b),
{
    a - b
}

/// Relies on `&BigUint * &BigUint`: the exact product.
#[verifier::external_body]
pub(crate) fn big_mul(a: &BigUint, b: &BigUint) -> (r: BigUint)
    ensures
        big_value(r) == big_value(*a) * big_value(*b),
{
    a * b
}

/// Relies on `&BigUint / &BigUint`: the truncated quotient; it panics on a
/// zero divisor, which `requires` leaves out.
#[verifier::external_body]
pub(crate) fn big_div(a: &BigUint, b: &BigUint) -> (r: BigUint)
    requires
        big_value(*b) > 0,
    ensures
        big_value(r) == big_value(*a) / big_value(*b),
{
    a / b
}

/// Relies on `&BigUint % &BigUint`: the remainder; it panics on a zero
/// divisor, which `requires` leaves out.
#[verifier::external_body]
pub(crate) fn big_rem(a: &BigUint, b: &BigUint) -> (r: BigUint)
    requires
        big_value(*b) > 0,
    ensures
        big_value(r) == big_value(*a) % big_value(*b),
{
    a % b
}

/// Relies on `PartialEq` for `BigUint`: equal exactly when the values are.
#[verifier::external_body]
pub(crate) fn big_eq(a: &BigUint, b: &BigUint) -> (r: bool)
    ensures
        r == (big_value(*a) == big_value(*b)),
{
    a == b
}

/// Relies on `PartialOrd` for `BigUint`: the order of the values.
#[verifier::external_body]
pub(crate) fn big_ge(a: &BigUint, b: &BigUint) -> (r: bool)
    ensures
        r == (big_value(*a) >= big_value(*b)),
{
    a >= b
}

/// Relies on `Display` for `BigUint` (through `to_string`): plain decimal digits.
#[verifier::external_body]
pub(crate) fn big_to_decimal(b: &BigUint) -> (r: String)
    ensures
        r@ == decimal(big_value(*b)),
{
    b.to_string()
}

} // verus!
