use vstd::prelude::*;

verus! {

/// A long Weierstrass curve `y² + a1·xy + a3·y = x³ + a2·x² + a4·x + a6`.
#[derive(Clone, Copy, PartialEq, Eq, Structural, Debug)]
pub struct Curve {
    pub a1: i32,
    pub a2: i32,
    pub a3: i32,
    pub a4: i32,
    pub a6: i32,
}

/// The curve with coefficients `[a1, a2, a3, a4, a6]`.
pub fn from_coeffs(coeffs: &[i32; 5]) -> (r: Curve)
    ensures
        r.a1 == coeffs[0],
        r.a2 == coeffs[1],
        r.a3 == coeffs[2],
        r.a4 == coeffs[3],
        r.a6 == coeffs[4],
{
    let a1 = coeffs[0];
    let a2 = coeffs[1];
    let a3 = coeffs[2];
    let a4 = coeffs[3];
    let a6 = coeffs[4];
    Curve { a1, a2, a3, a4, a6 }
}

} // verus!
