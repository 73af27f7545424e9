//! The quintic precompiles: arithmetic, batched arithmetic, and the
//! multi-field `EXTFIELD_MAC` and `EXTFIELD_LIN_PROD` evaluators.

use crate::codec::encode_packed_ext5_word;
use crate::ext5::gas_model::LockedGasSchedule;
use crate::precompile::{
    arith_batch_spec, arith_item_spec, arith_items, arith_single_spec, batch_spec, decode_scalar,
    decode_word, item_count, item_width, lemma_batch_failure_sticks, output_word, push_word,
    outcome_is, ArithOp, PrecompileFailure, PrecompileOutcome,
};
use crate::addresses::{
    EXT5_MUL_ADDRESS,
    EXT5_SQUARE_ADDRESS,
    EXT5_ADD_ADDRESS,
    EXT5_SUB_ADDRESS,
    EXT5_MUL_BASE_ADDRESS,
    EXT5_MUL_BATCH_ADDRESS,
    EXT5_SQUARE_BATCH_ADDRESS,
    EXT5_MUL_BASE_BATCH_ADDRESS,
    EXTFIELD_MAC_ADDRESS,
    EXTFIELD_LIN_PROD_ADDRESS,
    NOOP_64_TO_32_ADDRESS,
    NOOP_32_TO_32_ADDRESS,
    NOOP_BATCH_64_TO_32_ADDRESS,
    NOOP_BATCH_32_TO_32_ADDRESS,
    NOOP_EXTFIELD_MAC_ADDRESS,
    NOOP_EXTFIELD_LIN_PROD_ADDRESS,
};
use vstd::prelude::*;

verus! {

/// The packed result of the item of `op` at `offset`.
fn ext5_item(input: &[u8], offset: usize, op: ArithOp) -> (r: Result<[u8; 32], PrecompileFailure>)
    requires
        offset + item_width(op) <= input@.len(),
    ensures
        match arith_item_spec(5, input@, offset as int, op) {
            Ok(b) => r is Ok && r->Ok_0@ == b,
            Err(e) => r is Err && r->Err_0 == e,
        },
{
    let len = input.len();
    let lhs = decode_word(input, offset)?;
    match op {
        ArithOp::Square => Ok(encode_packed_ext5_word(&lhs.square())),
        ArithOp::MulBase => {
            let scalar = decode_scalar(input, offset + 32)?;
            Ok(encode_packed_ext5_word(&lhs.mul_base(&scalar)))
        },
        _ => {
            let rhs = decode_word(input, offset + 32)?;
            let value = match op {
                ArithOp::Add => lhs.add(&rhs),
                ArithOp::Sub => lhs.sub(&rhs),
                _ => lhs.mul(&rhs),
            };
            Ok(encode_packed_ext5_word(&value))
        },
    }
}

/// A single-item quintic arithmetic precompile charging `gas`.
fn ext5_single(input: &[u8], op: ArithOp, gas: u64) -> (r: Result<PrecompileOutcome, PrecompileFailure>)
    ensures
        outcome_is(r, arith_single_spec(5, input@, op), gas as int),
{
    let width: usize = match op {
        ArithOp::Square => 32,
        _ => 64,
    };
    if input.len() != width {
        return Err(PrecompileFailure::InputLength);
    }
    let out = ext5_item(input, 0, op)?;
    output_word(&out, gas)
}

/// A batched quintic arithmetic precompile charging `gas_per_item` per item.
fn ext5_batch(input: &[u8], op: ArithOp, gas_per_item: u64) -> (r: Result<
    PrecompileOutcome,
    PrecompileFailure,
>)
    requires
        gas_per_item * item_count(input@, op) <= u64::MAX,
    ensures
        outcome_is(r, arith_batch_spec(5, input@, op), gas_per_item * item_count(input@, op)),
{
    let width: usize = match op {
        ArithOp::Square => 32,
        _ => 64,
    };
    if input.len() % width != 0 {
        return Err(PrecompileFailure::ItemLength);
    }
    let count = input.len() / width;
    let ghost items = arith_items(5, input@, op);
    let mut out: Vec<u8> = Vec::new();
    let mut j: usize = 0;
    while j < count
        invariant
            width == item_width(op),
            count == item_count(input@, op),
            input@.len() == input.len(),
            input@.len() as int % width as int == 0,
            j <= count,
            items == arith_items(5, input@, op),
            batch_spec(items, j as nat) == Ok::<Seq<u8>, PrecompileFailure>(out@),
        decreases count - j,
    {
        assert(width * j + width <= input@.len()) by (nonlinear_arith)
            requires
                j < count,
                count as int == input@.len() as int / (width as int),
                input@.len() as int % (width as int) == 0,
                width > 0,
        ;
        let offset = width * j;
        match ext5_item(input, offset, op) {
            Ok(w) => {
                push_word(&mut out, &w);
            },
            Err(e) => {
                proof {
                    lemma_batch_failure_sticks(items, (j + 1) as nat, count as nat);
                }
                return Err(e);
            },
        }
        j = j + 1;
    }
    let gas = gas_per_item * (count as u64);
    Ok(PrecompileOutcome { bytes: out, gas_used: gas })
}

/// `EXT5_MUL`: the product of two packed quintic words.
pub fn ext5_mul_precompile(input: &[u8], schedule: &LockedGasSchedule) -> (r: Result<
    PrecompileOutcome,
    PrecompileFailure,
>)
    ensures
        outcome_is(r, arith_single_spec(5, input@, ArithOp::Mul), schedule.ext5_mul.assigned_base_gas as int),
{
    ext5_single(input, ArithOp::Mul, schedule.ext5_mul.assigned_base_gas)
}

/// `EXT5_SQUARE`: the square of one packed quintic word.
pub fn ext5_square_precompile(input: &[u8], schedule: &LockedGasSchedule) -> (r: Result<
    PrecompileOutcome,
    PrecompileFailure,
>)
    ensures
        outcome_is(r, arith_single_spec(5, input@, ArithOp::Square), schedule.ext5_square.assigned_base_gas as int),
{
    ext5_single(input, ArithOp::Square, schedule.ext5_square.assigned_base_gas)
}

/// `EXT5_ADD`: the sum of two packed quintic words.
pub fn ext5_add_precompile(input: &[u8], schedule: &LockedGasSchedule) -> (r: Result<
    PrecompileOutcome,
    PrecompileFailure,
>)
    ensures
        outcome_is(r, arith_single_spec(5, input@, ArithOp::Add), schedule.ext5_add.assigned_base_gas as int),
{
    ext5_single(input, ArithOp::Add, schedule.ext5_add.assigned_base_gas)
}

/// `EXT5_SUB`: the difference of two packed quintic words.
pub fn ext5_sub_precompile(input: &[u8], schedule: &LockedGasSchedule) -> (r: Result<
    PrecompileOutcome,
    PrecompileFailure,
>)
    ensures
        outcome_is(r, arith_single_spec(5, input@, ArithOp::Sub), schedule.ext5_sub.assigned_base_gas as int),
{
    ext5_single(input, ArithOp::Sub, schedule.ext5_sub.assigned_base_gas)
}

/// `EXT5_MUL_BASE`: a packed quintic word times a 32-byte base scalar.
pub fn ext5_mul_base_precompile(input: &[u8], schedule: &LockedGasSchedule) -> (r: Result<
    PrecompileOutcome,
    PrecompileFailure,
>)
    ensures
        outcome_is(r, arith_single_spec(5, input@, ArithOp::MulBase), schedule.ext5_mul_base.assigned_base_gas as int),
{
    ext5_single(input, ArithOp::MulBase, schedule.ext5_mul_base.assigned_base_gas)
}

/// `EXT5_MUL_BATCH`: the products of consecutive pairs of packed quintic words, charged per item.
pub fn ext5_mul_batch_precompile(input: &[u8], schedule: &LockedGasSchedule) -> (r: Result<
    PrecompileOutcome,
    PrecompileFailure,
>)
    requires
        schedule.ext5_mul_batch.assigned_base_gas * item_count(input@, ArithOp::Mul) <= u64::MAX,
    ensures
        outcome_is(
            r,
            arith_batch_spec(5, input@, ArithOp::Mul),
            schedule.ext5_mul_batch.assigned_base_gas * item_count(input@, ArithOp::Mul),
        ),
{
    ext5_batch(input, ArithOp::Mul, schedule.ext5_mul_batch.assigned_base_gas)
}

/// `EXT5_SQUARE_BATCH`: the squares of consecutive packed quintic words, charged per item.
pub fn ext5_square_batch_precompile(input: &[u8], schedule: &LockedGasSchedule) -> (r: Result<
    PrecompileOutcome,
    PrecompileFailure,
>)
    requires
        schedule.ext5_square_batch.assigned_base_gas * item_count(input@, ArithOp::Square) <= u64::MAX,
    ensures
        outcome_is(
            r,
            arith_batch_spec(5, input@, ArithOp::Square),
            schedule.ext5_square_batch.assigned_base_gas * item_count(input@, ArithOp::Square),
        ),
{
    ext5_batch(input, ArithOp::Square, schedule.ext5_square_batch.assigned_base_gas)
}

/// `EXT5_MUL_BASE_BATCH`: each packed quintic word times the base scalar after it, charged per item.
pub fn ext5_mul_base_batch_precompile(input: &[u8], schedule: &LockedGasSchedule) -> (r: Result<
    PrecompileOutcome,
    PrecompileFailure,
>)
    requires
        schedule.ext5_mul_base_batch.assigned_base_gas * item_count(input@, ArithOp::MulBase) <= u64::MAX,
    ensures
        outcome_is(
            r,
            arith_batch_spec(5, input@, ArithOp::MulBase),
            schedule.ext5_mul_base_batch.assigned_base_gas * item_count(input@, ArithOp::MulBase),
        ),
{
    ext5_batch(input, ArithOp::MulBase, schedule.ext5_mul_base_batch.assigned_base_gas)
}

/// The precompiles that `Ext5PrecompileFactory` installs.
#[derive(Debug, Clone, Copy, PartialEq, Eq, Structural)]
pub enum Ext5Precompile {
    /// `EXT5_MUL`: the product of two quintic words.
    Ext5Mul,
    /// `EXT5_SQUARE`: the square of a quintic word.
    Ext5Square,
    /// `EXT5_ADD`: the sum of two quintic words.
    Ext5Add,
    /// `EXT5_SUB`: the difference of two quintic words.
    Ext5Sub,
    /// `EXT5_MUL_BASE`: a quintic word times a base scalar.
    Ext5MulBase,
    /// `EXT5_MUL_BATCH`: batched `EXT5_MUL`.
    Ext5MulBatch,
    /// `EXT5_SQUARE_BATCH`: batched `EXT5_SQUARE`.
    Ext5SquareBatch,
    /// `EXT5_MUL_BASE_BATCH`: batched `EXT5_MUL_BASE`.
    Ext5MulBaseBatch,
    /// `EXTFIELD_MAC`: multiply-accumulate over either extension.
    ExtfieldMac,
    /// `EXTFIELD_LIN_PROD`: product of linear terms over either extension.
    ExtfieldLinProd,
    /// `NOOP_64_TO_32`: the first word of the call data.
    Noop64To32,
    /// `NOOP_32_TO_32`: the first word of the call data.
    Noop32To32,
    /// `NOOP_BATCH_64_TO_32`: the first half of every 64-byte item.
    NoopBatch64To32,
    /// `NOOP_BATCH_32_TO_32`: the call data.
    NoopBatch32To32,
    /// `NOOP_EXTFIELD_MAC`: the `EXTFIELD_MAC` header check alone.
    NoopExtfieldMac,
    /// `NOOP_EXTFIELD_LIN_PROD`: the `EXTFIELD_LIN_PROD` header check alone.
    NoopExtfieldLinProd,
}

/// The address named for each precompile: `EXT5_ADD_ADDRESS` for `EXT5_ADD`,
/// `NOOP_64_TO_32_ADDRESS` for `NOOP_64_TO_32`, and so on.
pub open spec fn ext5_address(p: Ext5Precompile) -> u64 {
    match p {
        Ext5Precompile::Ext5Mul => EXT5_MUL_ADDRESS,
        Ext5Precompile::Ext5Square => EXT5_SQUARE_ADDRESS,
        Ext5Precompile::Ext5Add => EXT5_ADD_ADDRESS,
        Ext5Precompile::Ext5Sub => EXT5_SUB_ADDRESS,
        Ext5Precompile::Ext5MulBase => EXT5_MUL_BASE_ADDRESS,
        Ext5Precompile::Ext5MulBatch => EXT5_MUL_BATCH_ADDRESS,
        Ext5Precompile::Ext5SquareBatch => EXT5_SQUARE_BATCH_ADDRESS,
        Ext5Precompile::Ext5MulBaseBatch => EXT5_MUL_BASE_BATCH_ADDRESS,
        Ext5Precompile::ExtfieldMac => EXTFIELD_MAC_ADDRESS,
        Ext5Precompile::ExtfieldLinProd => EXTFIELD_LIN_PROD_ADDRESS,
        Ext5Precompile::Noop64To32 => NOOP_64_TO_32_ADDRESS,
        Ext5Precompile::Noop32To32 => NOOP_32_TO_32_ADDRESS,
        Ext5Precompile::NoopBatch64To32 => NOOP_BATCH_64_TO_32_ADDRESS,
        Ext5Precompile::NoopBatch32To32 => NOOP_BATCH_32_TO_32_ADDRESS,
        Ext5Precompile::NoopExtfieldMac => NOOP_EXTFIELD_MAC_ADDRESS,
        Ext5Precompile::NoopExtfieldLinProd => NOOP_EXTFIELD_LIN_PROD_ADDRESS,
    }
}

/// Some entry of `t` serves `p`.
pub open spec fn ext5_served(t: Seq<(u64, Ext5Precompile)>, p: Ext5Precompile) -> bool {
    exists|i: int| 0 <= i < t.len() && t[i].1 == p
}

/// The address and precompile of every entry of the ext5 node, in installation order.
pub open spec fn ext5_precompile_table() -> Seq<(u64, Ext5Precompile)> {
    seq![
        (EXT5_MUL_ADDRESS, Ext5Precompile::Ext5Mul),
        (EXT5_SQUARE_ADDRESS, Ext5Precompile::Ext5Square),
        (EXT5_ADD_ADDRESS, Ext5Precompile::Ext5Add),
        (EXT5_SUB_ADDRESS, Ext5Precompile::Ext5Sub),
        (EXT5_MUL_BASE_ADDRESS, Ext5Precompile::Ext5MulBase),
        (EXT5_MUL_BATCH_ADDRESS, Ext5Precompile::Ext5MulBatch),
        (EXT5_SQUARE_BATCH_ADDRESS, Ext5Precompile::Ext5SquareBatch),
        (EXT5_MUL_BASE_BATCH_ADDRESS, Ext5Precompile::Ext5MulBaseBatch),
        (EXTFIELD_MAC_ADDRESS, Ext5Precompile::ExtfieldMac),
        (EXTFIELD_LIN_PROD_ADDRESS, Ext5Precompile::ExtfieldLinProd),
        (NOOP_64_TO_32_ADDRESS, Ext5Precompile::Noop64To32),
        (NOOP_32_TO_32_ADDRESS, Ext5Precompile::Noop32To32),
        (NOOP_BATCH_64_TO_32_ADDRESS, Ext5Precompile::NoopBatch64To32),
        (NOOP_BATCH_32_TO_32_ADDRESS, Ext5Precompile::NoopBatch32To32),
        (NOOP_EXTFIELD_MAC_ADDRESS, Ext5Precompile::NoopExtfieldMac),
        (NOOP_EXTFIELD_LIN_PROD_ADDRESS, Ext5Precompile::NoopExtfieldLinProd),
    ]
}

/// The precompile set of the ext5 node.
#[derive(Debug, Default, Clone, Copy)]
pub struct Ext5PrecompileFactory;

impl Ext5PrecompileFactory {
    /// The address and precompile of every entry, in installation order.
    pub fn precompiles(&self) -> (r: Vec<(u64, Ext5Precompile)>)
        ensures
            r@ == ext5_precompile_table(),
            r@.len() == 16,
            forall|i: int| 0 <= i < r@.len() ==> #[trigger] r@[i].0 == ext5_address(r@[i].1),
            forall|p: Ext5Precompile| #[trigger] ext5_served(r@, p),
    {
        let mut r: Vec<(u64, Ext5Precompile)> = Vec::new();
        r.push((EXT5_MUL_ADDRESS, Ext5Precompile::Ext5Mul));
        r.push((EXT5_SQUARE_ADDRESS, Ext5Precompile::Ext5Square));
        r.push((EXT5_ADD_ADDRESS, Ext5Precompile::Ext5Add));
        r.push((EXT5_SUB_ADDRESS, Ext5Precompile::Ext5Sub));
        r.push((EXT5_MUL_BASE_ADDRESS, Ext5Precompile::Ext5MulBase));
        r.push((EXT5_MUL_BATCH_ADDRESS, Ext5Precompile::Ext5MulBatch));
        r.push((EXT5_SQUARE_BATCH_ADDRESS, Ext5Precompile::Ext5SquareBatch));
        r.push((EXT5_MUL_BASE_BATCH_ADDRESS, Ext5Precompile::Ext5MulBaseBatch));
        r.push((EXTFIELD_MAC_ADDRESS, Ext5Precompile::ExtfieldMac));
        r.push((EXTFIELD_LIN_PROD_ADDRESS, Ext5Precompile::ExtfieldLinProd));
        r.push((NOOP_64_TO_32_ADDRESS, Ext5Precompile::Noop64To32));
        r.push((NOOP_32_TO_32_ADDRESS, Ext5Precompile::Noop32To32));
        r.push((NOOP_BATCH_64_TO_32_ADDRESS, Ext5Precompile::NoopBatch64To32));
        r.push((NOOP_BATCH_32_TO_32_ADDRESS, Ext5Precompile::NoopBatch32To32));
        r.push((NOOP_EXTFIELD_MAC_ADDRESS, Ext5Precompile::NoopExtfieldMac));
        r.push((NOOP_EXTFIELD_LIN_PROD_ADDRESS, Ext5Precompile::NoopExtfieldLinProd));
        assert(r@ =~= ext5_precompile_table());
        proof {
            law_ext5_factory_serves_each_precompile_at_its_address();
        }
        r
    }
}

/// No two entries of the ext5 node share an address.
pub proof fn lemma_ext5_addresses_distinct()
    ensures
        forall|i: int, j: int|
            0 <= i < j < ext5_precompile_table().len() ==> #[trigger] ext5_precompile_table()[i].0
                != #[trigger] ext5_precompile_table()[j].0,
{
}

/// The ext5 node serves every precompile, each at the address named for it
/// (the entry at `EXT5_ADD_ADDRESS` is `EXT5_ADD`, the entry at
/// `EXT5_SUB_ADDRESS` is `EXT5_SUB`, and so on), and an address
/// determines the precompile served there.
pub proof fn law_ext5_factory_serves_each_precompile_at_its_address()
    ensures
        forall|i: int|
            0 <= i < ext5_precompile_table().len() ==> #[trigger] ext5_precompile_table()[i].0
                == ext5_address(ext5_precompile_table()[i].1),
        forall|p: Ext5Precompile| #[trigger] ext5_served(ext5_precompile_table(), p),
        forall|i: int, j: int|
            0 <= i < ext5_precompile_table().len() && 0 <= j < ext5_precompile_table().len()
                && #[trigger] ext5_precompile_table()[i].0 == #[trigger] ext5_precompile_table()[j].0
                ==> ext5_precompile_table()[i].1 == ext5_precompile_table()[j].1,
        forall|p: Ext5Precompile, q: Ext5Precompile| #[trigger] ext5_address(p) == #[trigger] ext5_address(q) ==> p == q,
{
    let t = ext5_precompile_table();
    assert forall|p: Ext5Precompile| #[trigger] ext5_served(t, p) by {
        match p {
            Ext5Precompile::Ext5Mul => assert(t[0].1 == p),
            Ext5Precompile::Ext5Square => assert(t[1].1 == p),
            Ext5Precompile::Ext5Add => assert(t[2].1 == p),
            Ext5Precompile::Ext5Sub => assert(t[3].1 == p),
            Ext5Precompile::Ext5MulBase => assert(t[4].1 == p),
            Ext5Precompile::Ext5MulBatch => assert(t[5].1 == p),
            Ext5Precompile::Ext5SquareBatch => assert(t[6].1 == p),
            Ext5Precompile::Ext5MulBaseBatch => assert(t[7].1 == p),
            Ext5Precompile::ExtfieldMac => assert(t[8].1 == p),
            Ext5Precompile::ExtfieldLinProd => assert(t[9].1 == p),
            Ext5Precompile::Noop64To32 => assert(t[10].1 == p),
            Ext5Precompile::Noop32To32 => assert(t[11].1 == p),
            Ext5Precompile::NoopBatch64To32 => assert(t[12].1 == p),
            Ext5Precompile::NoopBatch32To32 => assert(t[13].1 == p),
            Ext5Precompile::NoopExtfieldMac => assert(t[14].1 == p),
            Ext5Precompile::NoopExtfieldLinProd => assert(t[15].1 == p),
        }
    }
}

} // verus!
