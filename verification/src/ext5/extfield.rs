//! The multi-field precompiles: `EXTFIELD_MAC`, a multiply-accumulate
//! `acc + sum a_i * b_i`, and `EXTFIELD_LIN_PROD`, a product of linear terms
//! `prod (alpha_i + beta_i * x_i)`, each over the quintic or the octic
//! extension as the request header selects.
//!
//! Both requests start with an 8-byte header: a big-endian `u16` field id, a
//! big-endian `u16` term count `n` and a big-endian `u32` of flags.

use crate::codec::{be_u32, encode_packed_ext5_word, encode_packed_ext8_word, encode_spec};
use crate::field::{ext_add, ext_const, ext_scale, OcticBinExtension, QuinticTrinomialExtension};
use crate::gas_model::{
    first_mac_field, lin_prod_mode_index, ExtfieldLinProdGasSchedule, ExtfieldMacGasSchedule,
    ExtfieldMacFieldGasSchedule, ExtfieldLinProdFieldGasSchedule,
    EXTFIELD_LIN_PROD_FLAG_ALPHA_ONE_BASE_BETA, EXTFIELD_LIN_PROD_FLAG_ALPHA_ONE_EXT_BETA,
    EXTFIELD_LIN_PROD_FLAG_EXPLICIT, EXTFIELD_MAC_FIELD_ID_KOALABEAR_EXT5,
    EXTFIELD_MAC_FIELD_ID_KOALABEAR_EXT8,
};
use crate::precompile::{
    be_u16, decode_ext8_word, decode_scalar4, decode_word, ext_at, ext_mul, outcome_is,
    output_word, read_as, read_u16, read_u32, scalar4_at, PrecompileFailure, PrecompileOutcome,
};
use vstd::prelude::*;

verus! {

/// A parsed `EXTFIELD_MAC` header, with the costs of the selected field.
#[derive(Debug, Clone, Copy, PartialEq, Eq, Structural)]
pub struct MacRequest {
    pub n: usize,
    pub has_accumulator: bool,
    pub field_id: u16,
    pub assigned_base_gas: u64,
    pub assigned_per_pair_gas: u64,
}

/// A parsed `EXTFIELD_LIN_PROD` header, with the costs of the selected mode.
#[derive(Debug, Clone, Copy, PartialEq, Eq, Structural)]
pub struct LinProdRequest {
    pub n: usize,
    pub flags: u32,
    pub field_id: u16,
    pub assigned_base_gas: u64,
    pub assigned_per_term_gas: u64,
}

/// What parsing an `EXTFIELD_MAC` header gives. Flag bit 0 announces a
/// 32-byte accumulator after the header; every other flag bit is reserved.
/// The call data must then hold exactly `n` pairs of 32-byte words.
pub open spec fn mac_header_spec(input: Seq<u8>, fields: Seq<ExtfieldMacFieldGasSchedule>) -> Result<
    MacRequest,
    PrecompileFailure,
> {
    if input.len() < 8 {
        Err(PrecompileFailure::HeaderTooShort)
    } else {
        match first_mac_field(fields, be_u16(input, 0) as u16, 0) {
            None => Err(PrecompileFailure::UnknownField),
            Some(i) => {
                let f = fields[i];
                let n = be_u16(input, 2);
                let flags = be_u32(input, 4);
                if n > f.n_max {
                    Err(PrecompileFailure::NExceedsMax)
                } else if flags > 1 {
                    Err(PrecompileFailure::ReservedFlag)
                } else if input.len() != 8 + (if flags == 1 { 32int } else { 0int }) + 64 * n {
                    Err(PrecompileFailure::LengthMismatch)
                } else {
                    Ok(
                        MacRequest {
                            n: n as usize,
                            has_accumulator: flags == 1,
                            field_id: f.field_id,
                            assigned_base_gas: f.extfield_mac.assigned_base_gas,
                            assigned_per_pair_gas: f.extfield_mac.assigned_per_pair_gas,
                        },
                    )
                }
            },
        }
    }
}

/// Where the pairs of a MAC request start.
pub open spec fn mac_pairs_start(has_accumulator: bool) -> int {
    8 + if has_accumulator { 32int } else { 0int }
}

/// The accumulator after the first `k` pairs of a MAC request over the
/// extension of degree `deg`, or the failure of the first word that does not decode.
pub open spec fn mac_fold(deg: nat, input: Seq<u8>, has_accumulator: bool, k: nat) -> Result<
    Seq<int>,
    PrecompileFailure,
>
    decreases k,
{
    if k == 0 {
        if has_accumulator {
            ext_at(deg, input, 8)
        } else {
            Ok(ext_const(deg, 0))
        }
    } else {
        match mac_fold(deg, input, has_accumulator, (k - 1) as nat) {
            Err(e) => Err(e),
            Ok(acc) => {
                let off = mac_pairs_start(has_accumulator) + 64 * (k - 1);
                match ext_at(deg, input, off) {
                    Err(e) => Err(e),
                    Ok(a) => match ext_at(deg, input, off + 32) {
                        Err(e) => Err(e),
                        Ok(b) => Ok(ext_add(acc, ext_mul(deg, a, b))),
                    },
                }
            },
        }
    }
}

/// The gas of a MAC request: `base + per_pair * n`.
pub open spec fn mac_gas(req: MacRequest) -> int {
    req.assigned_base_gas + req.assigned_per_pair_gas * req.n
}

/// What `EXTFIELD_MAC` returns: the packed accumulator.
pub open spec fn extfield_mac_spec(input: Seq<u8>, fields: Seq<ExtfieldMacFieldGasSchedule>) -> Result<
    Seq<u8>,
    PrecompileFailure,
> {
    match mac_header_spec(input, fields) {
        Err(e) => Err(e),
        Ok(req) => if req.field_id == EXTFIELD_MAC_FIELD_ID_KOALABEAR_EXT5 {
            match mac_fold(5, input, req.has_accumulator, req.n as nat) {
                Err(e) => Err(e),
                Ok(v) => Ok(encode_spec(v)),
            }
        } else if req.field_id == EXTFIELD_MAC_FIELD_ID_KOALABEAR_EXT8 {
            match mac_fold(8, input, req.has_accumulator, req.n as nat) {
                Err(e) => Err(e),
                Ok(v) => Ok(encode_spec(v)),
            }
        } else {
            Err(PrecompileFailure::UnsupportedFieldId)
        },
    }
}

/// The bytes of one LIN_PROD term in each mode.
pub open spec fn bytes_per_term(flags: u32) -> int {
    if flags == EXTFIELD_LIN_PROD_FLAG_EXPLICIT {
        96
    } else if flags == EXTFIELD_LIN_PROD_FLAG_ALPHA_ONE_EXT_BETA {
        64
    } else {
        36
    }
}

/// The modes of `EXTFIELD_LIN_PROD`.
pub open spec fn known_lin_prod_flags(flags: u32) -> bool {
    flags == EXTFIELD_LIN_PROD_FLAG_EXPLICIT || flags == EXTFIELD_LIN_PROD_FLAG_ALPHA_ONE_EXT_BETA
        || flags == EXTFIELD_LIN_PROD_FLAG_ALPHA_ONE_BASE_BETA
}

/// What parsing an `EXTFIELD_LIN_PROD` header gives. The field id and the
/// flags together select a mode of the schedule; the call data must then hold
/// exactly `n` terms of that mode.
pub open spec fn lin_prod_header_spec(
    input: Seq<u8>,
    fields: Seq<ExtfieldLinProdFieldGasSchedule>,
) -> Result<LinProdRequest, PrecompileFailure> {
    if input.len() < 8 {
        Err(PrecompileFailure::HeaderTooShort)
    } else {
        match lin_prod_mode_index(fields, be_u16(input, 0) as u16, be_u32(input, 4) as u32) {
            None => Err(PrecompileFailure::UnknownField),
            Some((i, j)) => {
                let f = fields[i];
                let m = f.modes@[j];
                let n = be_u16(input, 2);
                if n > f.n_max {
                    Err(PrecompileFailure::NExceedsMax)
                } else if !known_lin_prod_flags(m.flags) {
                    Err(PrecompileFailure::ReservedFlag)
                } else if input.len() != 8 + bytes_per_term(m.flags) * n {
                    Err(PrecompileFailure::LengthMismatch)
                } else {
                    Ok(
                        LinProdRequest {
                            n: n as usize,
                            flags: m.flags,
                            field_id: f.field_id,
                            assigned_base_gas: m.assigned_base_gas,
                            assigned_per_term_gas: m.assigned_per_term_gas,
                        },
                    )
                }
            },
        }
    }
}

/// The LIN_PROD term stored at `off`: `alpha + beta * x` in the explicit
/// mode, `1 + beta * x` when only `beta` and `x` are given, and `1 + x * beta`
/// when `beta` is a 4-byte base scalar.
pub open spec fn lin_prod_term(deg: nat, input: Seq<u8>, flags: u32, off: int) -> Result<
    Seq<int>,
    PrecompileFailure,
> {
    if flags == EXTFIELD_LIN_PROD_FLAG_EXPLICIT {
        match ext_at(deg, input, off) {
            Err(e) => Err(e),
            Ok(alpha) => match ext_at(deg, input, off + 32) {
                Err(e) => Err(e),
                Ok(beta) => match ext_at(deg, input, off + 64) {
                    Err(e) => Err(e),
                    Ok(x) => Ok(ext_add(alpha, ext_mul(deg, beta, x))),
                },
            },
        }
    } else if flags == EXTFIELD_LIN_PROD_FLAG_ALPHA_ONE_EXT_BETA {
        match ext_at(deg, input, off) {
            Err(e) => Err(e),
            Ok(beta) => match ext_at(deg, input, off + 32) {
                Err(e) => Err(e),
                Ok(x) => Ok(ext_add(ext_const(deg, 1), ext_mul(deg, beta, x))),
            },
        }
    } else {
        match scalar4_at(input, off) {
            Err(e) => Err(e),
            Ok(beta) => match ext_at(deg, input, off + 4) {
                Err(e) => Err(e),
                Ok(x) => Ok(ext_add(ext_const(deg, 1), ext_scale(x, beta))),
            },
        }
    }
}

/// The product of the first `k` LIN_PROD terms, or the failure of the first
/// word or scalar that does not decode.
pub open spec fn lin_prod_fold(deg: nat, input: Seq<u8>, flags: u32, k: nat) -> Result<
    Seq<int>,
    PrecompileFailure,
>
    decreases k,
{
    if k == 0 {
        Ok(ext_const(deg, 1))
    } else {
        match lin_prod_fold(deg, input, flags, (k - 1) as nat) {
            Err(e) => Err(e),
            Ok(acc) => match lin_prod_term(deg, input, flags, 8 + bytes_per_term(flags) * (k - 1)) {
                Err(e) => Err(e),
                Ok(t) => Ok(ext_mul(deg, acc, t)),
            },
        }
    }
}

/// The gas of a LIN_PROD request: `base + per_term * n`.
pub open spec fn lin_prod_gas(req: LinProdRequest) -> int {
    req.assigned_base_gas + req.assigned_per_term_gas * req.n
}

/// What `EXTFIELD_LIN_PROD` returns: the packed product.
pub open spec fn extfield_lin_prod_spec(
    input: Seq<u8>,
    fields: Seq<ExtfieldLinProdFieldGasSchedule>,
) -> Result<Seq<u8>, PrecompileFailure> {
    match lin_prod_header_spec(input, fields) {
        Err(e) => Err(e),
        Ok(req) => if req.field_id == EXTFIELD_MAC_FIELD_ID_KOALABEAR_EXT5 {
            match lin_prod_fold(5, input, req.flags, req.n as nat) {
                Err(e) => Err(e),
                Ok(v) => Ok(encode_spec(v)),
            }
        } else if req.field_id == EXTFIELD_MAC_FIELD_ID_KOALABEAR_EXT8 {
            match lin_prod_fold(8, input, req.flags, req.n as nat) {
                Err(e) => Err(e),
                Ok(v) => Ok(encode_spec(v)),
            }
        } else {
            Err(PrecompileFailure::UnsupportedFieldId)
        },
    }
}

proof fn lemma_mac_failure_sticks(deg: nat, input: Seq<u8>, has_accumulator: bool, k: nat, m: nat)
    requires
        k <= m,
        mac_fold(deg, input, has_accumulator, k) is Err,
    ensures
        mac_fold(deg, input, has_accumulator, m) == mac_fold(deg, input, has_accumulator, k),
    decreases m - k,
{
    if k < m {
        lemma_mac_failure_sticks(deg, input, has_accumulator, k, (m - 1) as nat);
    }
}

proof fn lemma_lin_prod_failure_sticks(deg: nat, input: Seq<u8>, flags: u32, k: nat, m: nat)
    requires
        k <= m,
        lin_prod_fold(deg, input, flags, k) is Err,
    ensures
        lin_prod_fold(deg, input, flags, m) == lin_prod_fold(deg, input, flags, k),
    decreases m - k,
{
    if k < m {
        lemma_lin_prod_failure_sticks(deg, input, flags, k, (m - 1) as nat);
    }
}

/// Parses an `EXTFIELD_MAC` header against the schedule.
pub fn parse_mac_header(input: &[u8], schedule: &ExtfieldMacGasSchedule) -> (r: Result<
    MacRequest,
    PrecompileFailure,
>)
    ensures
        match mac_header_spec(input@, schedule.fields@) {
            Ok(q) => r == Ok::<MacRequest, PrecompileFailure>(q),
            Err(e) => r == Err::<MacRequest, PrecompileFailure>(e),
        },
{
    if input.len() < 8 {
        return Err(PrecompileFailure::HeaderTooShort);
    }
    let field_id = read_u16(input, 0);
    let field = match schedule.field(field_id) {
        Some(f) => f,
        None => return Err(PrecompileFailure::UnknownField),
    };
    let n = read_u16(input, 2) as usize;
    if n > field.n_max {
        return Err(PrecompileFailure::NExceedsMax);
    }
    let flags = read_u32(input, 4);
    assert((flags & !1u32 != 0) == (flags > 1)) by (bit_vector);
    assert((flags & 1u32 != 0) == (flags % 2 == 1)) by (bit_vector);
    if flags & !1u32 != 0 {
        return Err(PrecompileFailure::ReservedFlag);
    }
    let has_accumulator = flags & 1u32 != 0;
    let expected_len: usize = 8 + if has_accumulator { 32 } else { 0 } + 64 * n;
    if input.len() != expected_len {
        return Err(PrecompileFailure::LengthMismatch);
    }
    Ok(
        MacRequest {
            n,
            has_accumulator,
            field_id: field.field_id,
            assigned_base_gas: field.extfield_mac.assigned_base_gas,
            assigned_per_pair_gas: field.extfield_mac.assigned_per_pair_gas,
        },
    )
}

/// The MAC accumulator over the degree-5 extension: the optional
/// accumulator plus the sum of the products of each pair.
fn mac_ext5(input: &[u8], request: &MacRequest) -> (r: Result<QuinticTrinomialExtension, PrecompileFailure>)
    requires
        input@.len() == mac_pairs_start(request.has_accumulator) + 64 * request.n,
    ensures
        read_as(r, mac_fold(5, input@, request.has_accumulator, request.n as nat)),
{
    let len = input.len();
    let mut offset: usize = 8;
    let mut acc = QuinticTrinomialExtension::zero();
    if request.has_accumulator {
        acc = match decode_word(input, offset) {
            Ok(x) => x,
            Err(e) => {
                proof {
                    lemma_mac_failure_sticks(5, input@, true, 0, request.n as nat);
                }
                return Err(e);
            },
        };
        offset = offset + 32;
    }
    let mut k: usize = 0;
    while k < request.n
        invariant
            len == input@.len(),
            input@.len() == mac_pairs_start(request.has_accumulator) + 64 * request.n,
            k <= request.n,
            offset == mac_pairs_start(request.has_accumulator) + 64 * k,
            mac_fold(5, input@, request.has_accumulator, k as nat) == Ok::<Seq<int>, PrecompileFailure>(acc@),
        decreases request.n - k,
    {
        let lhs = match decode_word(input, offset) {
            Ok(x) => x,
            Err(e) => {
                proof {
                    lemma_mac_failure_sticks(5, input@, request.has_accumulator, (k + 1) as nat, request.n as nat);
                }
                return Err(e);
            },
        };
        let rhs = match decode_word(input, offset + 32) {
            Ok(x) => x,
            Err(e) => {
                proof {
                    lemma_mac_failure_sticks(5, input@, request.has_accumulator, (k + 1) as nat, request.n as nat);
                }
                return Err(e);
            },
        };
        acc = acc.add(&lhs.mul(&rhs));
        offset = offset + 64;
        k = k + 1;
    }
    Ok(acc)
}

/// The MAC accumulator over the degree-8 extension: the optional
/// accumulator plus the sum of the products of each pair.
fn mac_ext8(input: &[u8], request: &MacRequest) -> (r: Result<OcticBinExtension, PrecompileFailure>)
    requires
        input@.len() == mac_pairs_start(request.has_accumulator) + 64 * request.n,
    ensures
        read_as(r, mac_fold(8, input@, request.has_accumulator, request.n as nat)),
{
    let len = input.len();
    let mut offset: usize = 8;
    let mut acc = OcticBinExtension::zero();
    if request.has_accumulator {
        acc = match decode_ext8_word(input, offset) {
            Ok(x) => x,
            Err(e) => {
                proof {
                    lemma_mac_failure_sticks(8, input@, true, 0, request.n as nat);
                }
                return Err(e);
            },
        };
        offset = offset + 32;
    }
    let mut k: usize = 0;
    while k < request.n
        invariant
            len == input@.len(),
            input@.len() == mac_pairs_start(request.has_accumulator) + 64 * request.n,
            k <= request.n,
            offset == mac_pairs_start(request.has_accumulator) + 64 * k,
            mac_fold(8, input@, request.has_accumulator, k as nat) == Ok::<Seq<int>, PrecompileFailure>(acc@),
        decreases request.n - k,
    {
        let lhs = match decode_ext8_word(input, offset) {
            Ok(x) => x,
            Err(e) => {
                proof {
                    lemma_mac_failure_sticks(8, input@, request.has_accumulator, (k + 1) as nat, request.n as nat);
                }
                return Err(e);
            },
        };
        let rhs = match decode_ext8_word(input, offset + 32) {
            Ok(x) => x,
            Err(e) => {
                proof {
                    lemma_mac_failure_sticks(8, input@, request.has_accumulator, (k + 1) as nat, request.n as nat);
                }
                return Err(e);
            },
        };
        acc = acc.add(&lhs.mul(&rhs));
        offset = offset + 64;
        k = k + 1;
    }
    Ok(acc)
}

/// The next LIN_PROD term over the degree-5 extension, stored at `offset`.
fn lin_prod_term_ext5(input: &[u8], flags: u32, offset: usize) -> (r: Result<QuinticTrinomialExtension, PrecompileFailure>)
    requires
        known_lin_prod_flags(flags),
        offset + bytes_per_term(flags) <= input@.len(),
    ensures
        read_as(r, lin_prod_term(5, input@, flags, offset as int)),
{
    let len = input.len();
    if flags == EXTFIELD_LIN_PROD_FLAG_EXPLICIT {
        let alpha = decode_word(input, offset)?;
        let beta = decode_word(input, offset + 32)?;
        let x = decode_word(input, offset + 64)?;
        Ok(alpha.add(&beta.mul(&x)))
    } else if flags == EXTFIELD_LIN_PROD_FLAG_ALPHA_ONE_EXT_BETA {
        let beta = decode_word(input, offset)?;
        let x = decode_word(input, offset + 32)?;
        Ok(QuinticTrinomialExtension::one().add(&beta.mul(&x)))
    } else {
        let beta = decode_scalar4(input, offset)?;
        let x = decode_word(input, offset + 4)?;
        Ok(QuinticTrinomialExtension::one().add(&x.mul_base(&beta)))
    }
}

/// The LIN_PROD product over the degree-5 extension: one times every term.
fn lin_prod_ext5(input: &[u8], request: &LinProdRequest) -> (r: Result<QuinticTrinomialExtension, PrecompileFailure>)
    requires
        known_lin_prod_flags(request.flags),
        input@.len() == 8 + bytes_per_term(request.flags) * request.n,
    ensures
        read_as(r, lin_prod_fold(5, input@, request.flags, request.n as nat)),
{
    let len = input.len();
    let step: usize = if request.flags == EXTFIELD_LIN_PROD_FLAG_EXPLICIT {
        96
    } else if request.flags == EXTFIELD_LIN_PROD_FLAG_ALPHA_ONE_EXT_BETA {
        64
    } else {
        36
    };
    let mut offset: usize = 8;
    let mut acc = QuinticTrinomialExtension::one();
    let mut k: usize = 0;
    while k < request.n
        invariant
            len == input@.len(),
            known_lin_prod_flags(request.flags),
            step == bytes_per_term(request.flags),
            input@.len() == 8 + bytes_per_term(request.flags) * request.n,
            k <= request.n,
            offset == 8 + step * k,
            lin_prod_fold(5, input@, request.flags, k as nat) == Ok::<Seq<int>, PrecompileFailure>(acc@),
        decreases request.n - k,
    {
        assert(offset + step <= input@.len()) by (nonlinear_arith)
            requires
                offset == 8 + step * k,
                k < request.n,
                input@.len() == 8 + step * request.n,
        ;
        let term = match lin_prod_term_ext5(input, request.flags, offset) {
            Ok(t) => t,
            Err(e) => {
                proof {
                    lemma_lin_prod_failure_sticks(5, input@, request.flags, (k + 1) as nat, request.n as nat);
                }
                return Err(e);
            },
        };
        acc = acc.mul(&term);
        offset = offset + step;
        k = k + 1;
    }
    Ok(acc)
}

/// The next LIN_PROD term over the degree-8 extension, stored at `offset`.
fn lin_prod_term_ext8(input: &[u8], flags: u32, offset: usize) -> (r: Result<OcticBinExtension, PrecompileFailure>)
    requires
        known_lin_prod_flags(flags),
        offset + bytes_per_term(flags) <= input@.len(),
    ensures
        read_as(r, lin_prod_term(8, input@, flags, offset as int)),
{
    let len = input.len();
    if flags == EXTFIELD_LIN_PROD_FLAG_EXPLICIT {
        let alpha = decode_ext8_word(input, offset)?;
        let beta = decode_ext8_word(input, offset + 32)?;
        let x = decode_ext8_word(input, offset + 64)?;
        Ok(alpha.add(&beta.mul(&x)))
    } else if flags == EXTFIELD_LIN_PROD_FLAG_ALPHA_ONE_EXT_BETA {
        let beta = decode_ext8_word(input, offset)?;
        let x = decode_ext8_word(input, offset + 32)?;
        Ok(OcticBinExtension::one().add(&beta.mul(&x)))
    } else {
        let beta = decode_scalar4(input, offset)?;
        let x = decode_ext8_word(input, offset + 4)?;
        Ok(OcticBinExtension::one().add(&x.mul_base(&beta)))
    }
}

/// The LIN_PROD product over the degree-8 extension: one times every term.
fn lin_prod_ext8(input: &[u8], request: &LinProdRequest) -> (r: Result<OcticBinExtension, PrecompileFailure>)
    requires
        known_lin_prod_flags(request.flags),
        input@.len() == 8 + bytes_per_term(request.flags) * request.n,
    ensures
        read_as(r, lin_prod_fold(8, input@, request.flags, request.n as nat)),
{
    let len = input.len();
    let step: usize = if request.flags == EXTFIELD_LIN_PROD_FLAG_EXPLICIT {
        96
    } else if request.flags == EXTFIELD_LIN_PROD_FLAG_ALPHA_ONE_EXT_BETA {
        64
    } else {
        36
    };
    let mut offset: usize = 8;
    let mut acc = OcticBinExtension::one();
    let mut k: usize = 0;
    while k < request.n
        invariant
            len == input@.len(),
            known_lin_prod_flags(request.flags),
            step == bytes_per_term(request.flags),
            input@.len() == 8 + bytes_per_term(request.flags) * request.n,
            k <= request.n,
            offset == 8 + step * k,
            lin_prod_fold(8, input@, request.flags, k as nat) == Ok::<Seq<int>, PrecompileFailure>(acc@),
        decreases request.n - k,
    {
        assert(offset + step <= input@.len()) by (nonlinear_arith)
            requires
                offset == 8 + step * k,
                k < request.n,
                input@.len() == 8 + step * request.n,
        ;
        let term = match lin_prod_term_ext8(input, request.flags, offset) {
            Ok(t) => t,
            Err(e) => {
                proof {
                    lemma_lin_prod_failure_sticks(8, input@, request.flags, (k + 1) as nat, request.n as nat);
                }
                return Err(e);
            },
        };
        acc = acc.mul(&term);
        offset = offset + step;
        k = k + 1;
    }
    Ok(acc)
}

/// `EXTFIELD_MAC`: the accumulator `acc + sum a_i * b_i` over the field the
/// header selects, charged `base + per_pair * n`.
pub fn extfield_mac_precompile(input: &[u8], schedule: &ExtfieldMacGasSchedule) -> (r: Result<
    PrecompileOutcome,
    PrecompileFailure,
>)
    requires
        mac_header_spec(input@, schedule.fields@) matches Ok(req) ==> mac_gas(req) <= u64::MAX,
    ensures
        outcome_is(
            r,
            extfield_mac_spec(input@, schedule.fields@),
            mac_gas(mac_header_spec(input@, schedule.fields@)->Ok_0),
        ),
{
    let request = parse_mac_header(input, schedule)?;
    let gas_used = request.assigned_base_gas + request.assigned_per_pair_gas * (request.n as u64);
    if request.field_id == EXTFIELD_MAC_FIELD_ID_KOALABEAR_EXT5 {
        let v = mac_ext5(input, &request)?;
        output_word(&encode_packed_ext5_word(&v), gas_used)
    } else if request.field_id == EXTFIELD_MAC_FIELD_ID_KOALABEAR_EXT8 {
        let v = mac_ext8(input, &request)?;
        output_word(&encode_packed_ext8_word(&v), gas_used)
    } else {
        Err(PrecompileFailure::UnsupportedFieldId)
    }
}

/// Parses an `EXTFIELD_LIN_PROD` header against the schedule.
pub fn parse_lin_prod_header(input: &[u8], schedule: &ExtfieldLinProdGasSchedule) -> (r: Result<
    LinProdRequest,
    PrecompileFailure,
>)
    ensures
        match lin_prod_header_spec(input@, schedule.fields@) {
            Ok(q) => r == Ok::<LinProdRequest, PrecompileFailure>(q),
            Err(e) => r == Err::<LinProdRequest, PrecompileFailure>(e),
        },
{
    if input.len() < 8 {
        return Err(PrecompileFailure::HeaderTooShort);
    }
    let field_id = read_u16(input, 0);
    let (field, mode) = match schedule.mode(field_id, read_u32(input, 4)) {
        Some(found) => found,
        None => return Err(PrecompileFailure::UnknownField),
    };
    let n = read_u16(input, 2) as usize;
    if n > field.n_max {
        return Err(PrecompileFailure::NExceedsMax);
    }
    let flags = mode.flags;
    let bytes_per_term: usize = if flags == EXTFIELD_LIN_PROD_FLAG_EXPLICIT {
        96
    } else if flags == EXTFIELD_LIN_PROD_FLAG_ALPHA_ONE_EXT_BETA {
        64
    } else if flags == EXTFIELD_LIN_PROD_FLAG_ALPHA_ONE_BASE_BETA {
        36
    } else {
        return Err(PrecompileFailure::ReservedFlag);
    };
    let expected_len: usize = 8 + bytes_per_term * n;
    if input.len() != expected_len {
        return Err(PrecompileFailure::LengthMismatch);
    }
    Ok(
        LinProdRequest {
            n,
            flags,
            field_id: field.field_id,
            assigned_base_gas: mode.assigned_base_gas,
            assigned_per_term_gas: mode.assigned_per_term_gas,
        },
    )
}

/// `EXTFIELD_LIN_PROD`: the product of the request's linear terms over the
/// field the header selects, charged `base + per_term * n` of the selected mode.
pub fn extfield_lin_prod_precompile(input: &[u8], schedule: &ExtfieldLinProdGasSchedule) -> (r: Result<
    PrecompileOutcome,
    PrecompileFailure,
>)
    requires
        lin_prod_header_spec(input@, schedule.fields@) matches Ok(req) ==> lin_prod_gas(req) <= u64::MAX,
    ensures
        outcome_is(
            r,
            extfield_lin_prod_spec(input@, schedule.fields@),
            lin_prod_gas(lin_prod_header_spec(input@, schedule.fields@)->Ok_0),
        ),
{
    let request = parse_lin_prod_header(input, schedule)?;
    let gas_used = request.assigned_base_gas + request.assigned_per_term_gas * (request.n as u64);
    if request.field_id == EXTFIELD_MAC_FIELD_ID_KOALABEAR_EXT5 {
        let v = lin_prod_ext5(input, &request)?;
        output_word(&encode_packed_ext5_word(&v), gas_used)
    } else if request.field_id == EXTFIELD_MAC_FIELD_ID_KOALABEAR_EXT8 {
        let v = lin_prod_ext8(input, &request)?;
        output_word(&encode_packed_ext8_word(&v), gas_used)
    } else {
        Err(PrecompileFailure::UnsupportedFieldId)
    }
}

/// What the no-op `EXTFIELD_MAC` returns: 32 zero bytes once the header parses.
pub open spec fn noop_extfield_mac_spec(input: Seq<u8>, fields: Seq<ExtfieldMacFieldGasSchedule>) -> Result<
    Seq<u8>,
    PrecompileFailure,
> {
    match mac_header_spec(input, fields) {
        Err(e) => Err(e),
        Ok(_) => Ok(Seq::new(32, |k: int| 0u8)),
    }
}

/// What the no-op `EXTFIELD_LIN_PROD` returns: 32 zero bytes once the header parses.
pub open spec fn noop_extfield_lin_prod_spec(
    input: Seq<u8>,
    fields: Seq<ExtfieldLinProdFieldGasSchedule>,
) -> Result<Seq<u8>, PrecompileFailure> {
    match lin_prod_header_spec(input, fields) {
        Err(e) => Err(e),
        Ok(_) => Ok(Seq::new(32, |k: int| 0u8)),
    }
}

/// The no-op `EXTFIELD_MAC`: parses the header only, returns 32 zero bytes
/// and charges nothing.
pub fn noop_extfield_mac_precompile(input: &[u8], schedule: &ExtfieldMacGasSchedule) -> (r: Result<
    PrecompileOutcome,
    PrecompileFailure,
>)
    ensures
        outcome_is(r, noop_extfield_mac_spec(input@, schedule.fields@), 0),
{
    let _ = parse_mac_header(input, schedule)?;
    let zero = [0u8; 32];
    assert(zero@ =~= Seq::new(32, |k: int| 0u8));
    output_word(&zero, 0)
}

/// The no-op `EXTFIELD_LIN_PROD`: parses the header only, returns 32 zero
/// bytes and charges nothing.
pub fn noop_extfield_lin_prod_precompile(input: &[u8], schedule: &ExtfieldLinProdGasSchedule) -> (r: Result<
    PrecompileOutcome,
    PrecompileFailure,
>)
    ensures
        outcome_is(r, noop_extfield_lin_prod_spec(input@, schedule.fields@), 0),
{
    let _ = parse_lin_prod_header(input, schedule)?;
    let zero = [0u8; 32];
    assert(zero@ =~= Seq::new(32, |k: int| 0u8));
    output_word(&zero, 0)
}

} // verus!
