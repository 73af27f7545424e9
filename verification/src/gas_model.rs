//! The gas model shared by both precompile families: how a measured median
//! runtime becomes an assigned gas cost, and the gas schedules that the
//! multi-field `EXTFIELD_MAC` and `EXTFIELD_LIN_PROD` precompiles read.

use vstd::prelude::*;

verus! {

/// Gas per microsecond of the EIP-1108 pricing, in hundredths (25.86 gas/us).
pub const EIP1108_GAS_PER_MICROSECOND_X100: u64 = 2586;

/// The factor by which measured runtimes are inflated before pricing.
pub const SAFETY_MULTIPLIER: u64 = 8;

/// The smallest gas cost considered realistic for a precompile call.
pub const MIN_REALISTIC_EFFECTIVE_GAS: u64 = 700;

/// Assigned costs are rounded up to a multiple of this many gas.
pub const ROUND_TO_GAS: u64 = 50;

/// Timed samples per benchmark.
pub const BENCH_SAMPLES: usize = 101;

/// Operations per timed sample.
pub const OPS_PER_SAMPLE: usize = 1024;

/// The largest term count a calibrated `EXTFIELD_MAC` schedule allows.
pub const EXTFIELD_MAC_N_MAX: usize = 1024;

/// `EXTFIELD_LIN_PROD` mode: every term is `alpha + beta * x`, all extension elements.
pub const EXTFIELD_LIN_PROD_FLAG_EXPLICIT: u32 = 0;

/// `EXTFIELD_LIN_PROD` mode: every term is `1 + beta * x`, all extension elements.
pub const EXTFIELD_LIN_PROD_FLAG_ALPHA_ONE_EXT_BETA: u32 = 1;

/// `EXTFIELD_LIN_PROD` mode: every term is `1 + x * beta`, with `beta` a base scalar.
pub const EXTFIELD_LIN_PROD_FLAG_ALPHA_ONE_BASE_BETA: u32 = 3;

/// Field id of the quintic KoalaBear extension in `EXTFIELD_MAC` and `EXTFIELD_LIN_PROD` requests.
pub const EXTFIELD_MAC_FIELD_ID_KOALABEAR_EXT5: u16 = 1;

/// Field id of the octic KoalaBear extension in `EXTFIELD_MAC` and `EXTFIELD_LIN_PROD` requests.
pub const EXTFIELD_MAC_FIELD_ID_KOALABEAR_EXT8: u16 = 2;

/// `ceil(a / b)` for `a >= 0`, `b > 0`.
pub open spec fn ceil_div(a: int, b: int) -> int {
    (a + b - 1) / b
}

/// The gas assigned to a median runtime of `ns` nanoseconds:
/// `SAFETY_MULTIPLIER * 25.86 gas/us * ns / 1000`, rounded up to a multiple
/// of `ROUND_TO_GAS`.
pub open spec fn assigned_gas_spec(ns: int) -> int {
    ROUND_TO_GAS * ceil_div(
        SAFETY_MULTIPLIER * EIP1108_GAS_PER_MICROSECOND_X100 * ns,
        100 * 1000 * ROUND_TO_GAS,
    )
}

/// The price rounds up: it is a multiple of `ROUND_TO_GAS`, it covers the
/// exact price `SAFETY_MULTIPLIER * 25.86 * ns / 1000`, and it exceeds it by
/// less than one `ROUND_TO_GAS` step.
pub proof fn law_assigned_gas_rounds_up(ns: int)
    requires
        ns >= 0,
    ensures
        assigned_gas_spec(ns) % (ROUND_TO_GAS as int) == 0,
        assigned_gas_spec(ns) * 100_000 >= 20688 * ns,
        (assigned_gas_spec(ns) - ROUND_TO_GAS) * 100_000 < 20688 * ns,
{
    let q = (20688 * ns + 4_999_999) / 5_000_000;
    assert(assigned_gas_spec(ns) == 50 * q);
    assert(q * 5_000_000 <= 20688 * ns + 4_999_999 < q * 5_000_000 + 5_000_000) by (nonlinear_arith)
        requires
            q == (20688 * ns + 4_999_999) / 5_000_000,
            ns >= 0,
    ;
}

/// A longer median runtime is never priced lower.
pub proof fn law_assigned_gas_monotone(ns1: int, ns2: int)
    requires
        0 <= ns1 <= ns2,
    ensures
        assigned_gas_spec(ns1) <= assigned_gas_spec(ns2),
{
    let a = 20688 * ns1 + 4_999_999;
    let b = 20688 * ns2 + 4_999_999;
    vstd::arithmetic::div_mod::lemma_div_is_ordered(a, b, 5_000_000);
}

/// Prices a median runtime: the runtime in microseconds times the EIP-1108
/// rate and the safety multiplier, rounded up to a multiple of `ROUND_TO_GAS`.
/// The price is computed exactly, in integers.
pub fn assigned_base_gas_from_ns(median_runtime_ns: u64) -> (r: u64)
    ensures
        r == assigned_gas_spec(median_runtime_ns as int),
{
    // SAFETY_MULTIPLIER * EIP1108_GAS_PER_MICROSECOND_X100 == 20688 and
    // 100 * 1000 * ROUND_TO_GAS == 5_000_000.
    let num: u128 = 20688 * (median_runtime_ns as u128);
    let steps: u128 = (num + 4_999_999) / 5_000_000;
    assert(steps * 50 <= u64::MAX);
    (steps * 50) as u64
}

/// The nanoseconds per operation of a sample of `OPS_PER_SAMPLE` operations
/// that took `elapsed_nanos`, rounded to the nearest integer (halves up) and
/// capped at `u64::MAX`.
pub fn ns_per_op(elapsed_nanos: u128) -> (r: u64)
    ensures
        r == if (elapsed_nanos + 512) / 1024 > u64::MAX {
            u64::MAX as int
        } else {
            (elapsed_nanos + 512) / 1024
        },
{
    let ops = OPS_PER_SAMPLE as u128;
    let q = if elapsed_nanos > u128::MAX - ops / 2 {
        elapsed_nanos / ops + 1
    } else {
        (elapsed_nanos + ops / 2) / ops
    };
    assert(q == (elapsed_nanos + 512) / 1024);
    if q > u64::MAX as u128 {
        u64::MAX
    } else {
        q as u64
    }
}

// ---------------------------------------------------------------------------
// Gas schedules.
// ---------------------------------------------------------------------------

/// The measured runtime and the assigned gas of one fixed-cost operation.
pub struct OperationGasModel {
    pub median_runtime_ns: u64,
    pub assigned_base_gas: u64,
}

/// One calibration point of the `EXTFIELD_MAC` cost: `n` pairs.
pub struct MacSizeSample {
    pub n: usize,
    pub median_runtime_ns: u64,
    pub assigned_gas_at_n: u64,
}

/// The linear `EXTFIELD_MAC` cost `base + per_pair * n` and the samples it was fitted to.
pub struct ExtfieldMacGasModel {
    pub assigned_base_gas: u64,
    pub assigned_per_pair_gas: u64,
    pub samples: Vec<MacSizeSample>,
}

/// The `EXTFIELD_MAC` cost of one field and the largest term count it accepts.
pub struct ExtfieldMacFieldGasSchedule {
    pub field_id: u16,
    pub n_max: usize,
    pub extfield_mac: ExtfieldMacGasModel,
}

/// The `EXTFIELD_MAC` gas schedule: run metadata and one entry per field.
pub struct ExtfieldMacGasSchedule {
    pub foundry_version: String,
    pub foundry_commit: String,
    pub min_realistic_effective_gas: u64,
    pub samples: usize,
    pub ops_per_sample: usize,
    pub vector_seed: u64,
    pub fields: Vec<ExtfieldMacFieldGasSchedule>,
}

/// One calibration point of an `EXTFIELD_LIN_PROD` cost: `n` terms.
pub struct LinProdSizeSample {
    pub n: usize,
    pub median_runtime_ns: u64,
    pub assigned_gas_at_n: u64,
}

/// The linear `EXTFIELD_LIN_PROD` cost `base + per_term * n` of one mode.
pub struct ExtfieldLinProdGasModel {
    pub flags: u32,
    pub assigned_base_gas: u64,
    pub assigned_per_term_gas: u64,
    pub samples: Vec<LinProdSizeSample>,
    pub measurement_samples: Vec<LinProdSizeSample>,
}

/// The `EXTFIELD_LIN_PROD` modes of one field and the largest term count it accepts.
pub struct ExtfieldLinProdFieldGasSchedule {
    pub field_id: u16,
    pub n_max: usize,
    pub modes: Vec<ExtfieldLinProdGasModel>,
}

/// The `EXTFIELD_LIN_PROD` gas schedule: run metadata and one entry per field.
pub struct ExtfieldLinProdGasSchedule {
    pub foundry_version: String,
    pub foundry_commit: String,
    pub min_realistic_effective_gas: u64,
    pub samples: usize,
    pub ops_per_sample: usize,
    pub vector_seed: u64,
    pub fields: Vec<ExtfieldLinProdFieldGasSchedule>,
}

/// The first index `j >= i` of a MAC field entry with id `field_id`.
pub open spec fn first_mac_field(fields: Seq<ExtfieldMacFieldGasSchedule>, field_id: u16, i: int) -> Option<int>
    decreases fields.len() - i,
{
    if i < 0 || i >= fields.len() {
        None
    } else if fields[i].field_id == field_id {
        Some(i)
    } else {
        first_mac_field(fields, field_id, i + 1)
    }
}

/// The first index `j >= i` of a LIN_PROD field entry with id `field_id`.
pub open spec fn first_lin_prod_field(
    fields: Seq<ExtfieldLinProdFieldGasSchedule>,
    field_id: u16,
    i: int,
) -> Option<int>
    decreases fields.len() - i,
{
    if i < 0 || i >= fields.len() {
        None
    } else if fields[i].field_id == field_id {
        Some(i)
    } else {
        first_lin_prod_field(fields, field_id, i + 1)
    }
}

/// The first index `j >= i` of a LIN_PROD mode with `flags`.
pub open spec fn first_lin_prod_mode(modes: Seq<ExtfieldLinProdGasModel>, flags: u32, i: int) -> Option<int>
    decreases modes.len() - i,
{
    if i < 0 || i >= modes.len() {
        None
    } else if modes[i].flags == flags {
        Some(i)
    } else {
        first_lin_prod_mode(modes, flags, i + 1)
    }
}

/// The LIN_PROD field and mode chosen for `(field_id, flags)`: the first
/// field entry with the id, and the first of its modes with the flags.
pub open spec fn lin_prod_mode_index(
    fields: Seq<ExtfieldLinProdFieldGasSchedule>,
    field_id: u16,
    flags: u32,
) -> Option<(int, int)> {
    match first_lin_prod_field(fields, field_id, 0) {
        None => None,
        Some(i) => match first_lin_prod_mode(fields[i].modes@, flags, 0) {
            None => None,
            Some(j) => Some((i, j)),
        },
    }
}

pub proof fn lemma_first_mac_field_in(fields: Seq<ExtfieldMacFieldGasSchedule>, field_id: u16, i: int)
    ensures
        first_mac_field(fields, field_id, i) matches Some(j) ==> i <= j < fields.len()
            && fields[j].field_id == field_id,
    decreases fields.len() - i,
{
    if 0 <= i < fields.len() && fields[i].field_id != field_id {
        lemma_first_mac_field_in(fields, field_id, i + 1);
    }
}

pub proof fn lemma_first_lin_prod_field_in(fields: Seq<ExtfieldLinProdFieldGasSchedule>, field_id: u16, i: int)
    ensures
        first_lin_prod_field(fields, field_id, i) matches Some(j) ==> i <= j < fields.len()
            && fields[j].field_id == field_id,
    decreases fields.len() - i,
{
    if 0 <= i < fields.len() && fields[i].field_id != field_id {
        lemma_first_lin_prod_field_in(fields, field_id, i + 1);
    }
}

pub proof fn lemma_first_lin_prod_mode_in(modes: Seq<ExtfieldLinProdGasModel>, flags: u32, i: int)
    ensures
        first_lin_prod_mode(modes, flags, i) matches Some(j) ==> i <= j < modes.len()
            && modes[j].flags == flags,
    decreases modes.len() - i,
{
    if 0 <= i < modes.len() && modes[i].flags != flags {
        lemma_first_lin_prod_mode_in(modes, flags, i + 1);
    }
}

impl ExtfieldMacGasSchedule {
    /// The first field entry with id `field_id`, if any.
    pub fn field(&self, field_id: u16) -> (r: Option<&ExtfieldMacFieldGasSchedule>)
        ensures
            match first_mac_field(self.fields@, field_id, 0) {
                Some(i) => r == Some(&self.fields@[i]),
                None => r is None,
            },
    {
        let mut i: usize = 0;
        while i < self.fields.len()
            invariant
                0 <= i <= self.fields@.len(),
                first_mac_field(self.fields@, field_id, 0) == first_mac_field(self.fields@, field_id, i as int),
            decreases self.fields@.len() - i,
        {
            if self.fields[i].field_id == field_id {
                return Some(&self.fields[i]);
            }
            i = i + 1;
        }
        None
    }
}

impl ExtfieldLinProdGasSchedule {
    /// The first field entry with id `field_id`, if any.
    pub fn field(&self, field_id: u16) -> (r: Option<&ExtfieldLinProdFieldGasSchedule>)
        ensures
            match first_lin_prod_field(self.fields@, field_id, 0) {
                Some(i) => r == Some(&self.fields@[i]),
                None => r is None,
            },
    {
        let mut i: usize = 0;
        while i < self.fields.len()
            invariant
                0 <= i <= self.fields@.len(),
                first_lin_prod_field(self.fields@, field_id, 0) == first_lin_prod_field(
                    self.fields@,
                    field_id,
                    i as int,
                ),
            decreases self.fields@.len() - i,
        {
            if self.fields[i].field_id == field_id {
                return Some(&self.fields[i]);
            }
            i = i + 1;
        }
        None
    }

    /// The first field entry with id `field_id`, and the first of its modes
    /// with `flags`, if both exist.
    pub fn mode(&self, field_id: u16, flags: u32) -> (r: Option<
        (&ExtfieldLinProdFieldGasSchedule, &ExtfieldLinProdGasModel),
    >)
        ensures
            match lin_prod_mode_index(self.fields@, field_id, flags) {
                Some((i, j)) => r == Some((&self.fields@[i], &self.fields@[i].modes@[j])),
                None => r is None,
            },
    {
        let field = match self.field(field_id) {
            Some(f) => f,
            None => return None,
        };
        let ghost i = first_lin_prod_field(self.fields@, field_id, 0)->Some_0;
        let mut j: usize = 0;
        while j < field.modes.len()
            invariant
                first_lin_prod_field(self.fields@, field_id, 0) == Some(i),
                field == &self.fields@[i],
                0 <= j <= field.modes@.len(),
                first_lin_prod_mode(field.modes@, flags, 0) == first_lin_prod_mode(field.modes@, flags, j as int),
            decreases field.modes@.len() - j,
        {
            if field.modes[j].flags == flags {
                return Some((field, &field.modes[j]));
            }
            j = j + 1;
        }
        None
    }
}

} // verus!
