//! Multiplication of a point of the twisted Edwards curve by a scalar.

pub mod double_and_add;
pub mod signed_multi_comb;
pub mod variable_base;
pub mod window;
