//! The quintic-extension precompile family, with the multi-field
//! `EXTFIELD_MAC` and `EXTFIELD_LIN_PROD` precompiles and the arithmetic and
//! MAC test-vector generators.

pub mod extfield;
pub mod gas_model;
pub mod precompiles;
pub mod vectors;
