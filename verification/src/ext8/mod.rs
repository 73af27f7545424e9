//! The octic-extension precompile family.

pub mod gas_model;
pub mod precompiles;
