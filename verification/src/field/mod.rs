//! Arithmetic modulo the Goldilocks prime and modulo the order of the
//! prime-order subgroup.

use vstd::prelude::*;

pub mod algebra;
pub mod element;
pub mod inversion;
pub mod karatsuba;
pub mod power;
pub mod scalar;

pub use element::FieldElement28;
pub use scalar::Scalar;

verus! {

/// The field element type used by the curve arithmetic.
pub type FieldElement = FieldElement28;

} // verus!
