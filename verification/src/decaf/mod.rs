//! The Decaf encoding: the group of cosets of the four-element subgroup of
//! the twisted Edwards curve, with one canonical byte string for each
//! coset.

pub mod decaf;
pub mod laws;
pub mod ops;

pub use decaf::{CompressedDecaf, DecafPoint};
