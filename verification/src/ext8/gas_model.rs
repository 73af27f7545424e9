//! The locked gas schedule of the octic arithmetic precompiles.

use crate::gas_model::OperationGasModel;
use vstd::prelude::*;

verus! {

/// The gas charged by each octic arithmetic precompile, with the metadata
/// of the benchmark run that produced it. The batch entries are charged per item.
pub struct LockedGasSchedule {
    pub foundry_version: String,
    pub foundry_commit: String,
    pub min_realistic_effective_gas: u64,
    pub samples: usize,
    pub ops_per_sample: usize,
    pub vector_seed: u64,
    pub ext8_mul: OperationGasModel,
    pub ext8_square: OperationGasModel,
    pub ext8_add: OperationGasModel,
    pub ext8_sub: OperationGasModel,
    pub ext8_mul_base: OperationGasModel,
    pub ext8_mul_batch: OperationGasModel,
    pub ext8_square_batch: OperationGasModel,
    pub ext8_mul_base_batch: OperationGasModel,
}

} // verus!
