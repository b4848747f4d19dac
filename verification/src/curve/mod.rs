//! The Edwards curve, its twisted form and the maps between them.

pub mod constants;
pub mod edwards;
pub mod group_law;
pub mod laws;
pub mod montgomery;
pub mod scalar_mul;
pub mod twedwards;
