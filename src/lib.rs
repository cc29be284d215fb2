pub mod bignum;
pub mod divisibility;
pub mod fraction;
pub mod utils;
pub mod rational;
pub mod curve;
pub mod group_law;
pub mod point;

pub use curve::{Curve, from_coeffs};
pub use group_law::PointError;
pub use point::{Point, PointKind};
pub use rational::{Rational, RationalError, Sign};
pub use utils::gcd;
