use vstd::prelude::*;
use num_bigint::BigUint;
use crate::bignum::{big_value, big_is_zero, big_clone, big_rem};
use crate::divisibility::gcd as gcd_of;

verus! {

/// Greatest common divisor of two arbitrary-precision naturals (Euclid).
pub fn gcd(item1: BigUint, item2: BigUint) -> (r: BigUint)
    ensures
        big_value(r) == gcd_of(big_value(item1), big_value(item2)),
{
    let mut a = item1;
    let mut b = item2;
    while !big_is_zero(&b)
        invariant
            gcd_of(big_value(a), big_value(b)) == gcd_of(big_value(item1), big_value(item2)),
        decreases big_value(b),
    {
        let temp = big_clone(&b);
        b = big_rem(&a, &b);
        a = temp;
    }
    a
}

} // verus!
