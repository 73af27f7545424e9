//! Verified building blocks of the KoalaBear extension-field precompiles:
//! the extension-field element types, the packed 32-byte word codec, the
//! precompile request parsers and evaluators, the gas model and the
//! deterministic test-vector generators.

pub mod addresses;
pub mod codec;
pub mod ext5;
pub mod ext8;
pub mod field;
pub mod gas_model;
pub mod laws;
pub mod precompile;
