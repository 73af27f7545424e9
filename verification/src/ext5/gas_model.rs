//! The locked gas schedule of the quintic arithmetic precompiles.

use crate::gas_model::OperationGasModel;
use vstd::prelude::*;

verus! {

/// The gas charged by each quintic arithmetic precompile, with the metadata
/// of the benchmark run that produced it. The batch entries are charged per item.
pub struct LockedGasSchedule {
    pub foundry_version: String,
    pub foundry_commit: String,
    pub min_realistic_effective_gas: u64,
    pub samples: usize,
    pub ops_per_sample: usize,
    pub vector_seed: u64,
    pub ext5_mul: OperationGasModel,
    pub ext5_square: OperationGasModel,
    pub ext5_add: OperationGasModel,
    pub ext5_sub: OperationGasModel,
    pub ext5_mul_base: OperationGasModel,
    pub ext5_mul_batch: OperationGasModel,
    pub ext5_square_batch: OperationGasModel,
    pub ext5_mul_base_batch: OperationGasModel,
}

} // verus!
