//! Points of the Edwards curve `x^2 + y^2 = 1 - 39081 x^2 y^2`.

pub mod affine;
pub mod extended;

pub use extended::ExtendedPoint;
