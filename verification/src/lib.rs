//! Group arithmetic for the Ed448-Goldilocks curve: the base field, the scalar
//! field, the Edwards and twisted Edwards point groups joined by their
//! isogenies, scalar multiplication and the Decaf encoding.
#![allow(non_snake_case)]

mod constant_time;
pub mod curve;
pub mod decaf;
pub mod field;
