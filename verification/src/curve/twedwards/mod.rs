//! Points of the twisted Edwards curve `y^2 - x^2 = 1 - 39082 x^2 y^2`,
//! which the isogeny joins to the Edwards curve.

pub mod affine;
pub mod extended;
pub mod extensible;
pub mod projective;
