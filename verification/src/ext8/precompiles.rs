//! The octic precompiles: arithmetic and batched arithmetic.

use crate::codec::encode_packed_ext8_word;
use crate::ext8::gas_model::LockedGasSchedule;
use crate::precompile::{
    arith_batch_spec, arith_item_spec, arith_items, arith_single_spec, batch_spec, decode_scalar,
    decode_ext8_word, item_count, item_width, lemma_batch_failure_sticks, output_word, push_word,
    outcome_is, ArithOp, PrecompileFailure, PrecompileOutcome,
};
use crate::addresses::{
    EXT8_MUL_ADDRESS,
    EXT8_SQUARE_ADDRESS,
    EXT8_ADD_ADDRESS,
    EXT8_SUB_ADDRESS,
    EXT8_MUL_BASE_ADDRESS,
    EXT8_MUL_BATCH_ADDRESS,
    EXT8_SQUARE_BATCH_ADDRESS,
    EXT8_MUL_BASE_BATCH_ADDRESS,
    NOOP_64_TO_32_ADDRESS,
    NOOP_32_TO_32_ADDRESS,
    NOOP_BATCH_64_TO_32_ADDRESS,
    NOOP_BATCH_32_TO_32_ADDRESS,
};
use vstd::prelude::*;

verus! {

/// The packed result of the item of `op` at `offset`.
fn ext8_item(input: &[u8], offset: usize, op: ArithOp) -> (r: Result<[u8; 32], PrecompileFailure>)
    requires
        offset + item_width(op) <= input@.len(),
    ensures
        match arith_item_spec(8, input@, offset as int, op) {
            Ok(b) => r is Ok && r->Ok_0@ == b,
            Err(e) => r is Err && r->Err_0 == e,
        },
{
    let len = input.len();
    let lhs = decode_ext8_word(input, offset)?;
    match op {
        ArithOp::Square => Ok(encode_packed_ext8_word(&lhs.square())),
        ArithOp::MulBase => {
            let scalar = decode_scalar(input, offset + 32)?;
            Ok(encode_packed_ext8_word(&lhs.mul_base(&scalar)))
        },
        _ => {
            let rhs = decode_ext8_word(input, offset + 32)?;
            let value = match op {
                ArithOp::Add => lhs.add(&rhs),
                ArithOp::Sub => lhs.sub(&rhs),
                _ => lhs.mul(&rhs),
            };
            Ok(encode_packed_ext8_word(&value))
        },
    }
}

/// A single-item octic arithmetic precompile charging `gas`.
fn ext8_single(input: &[u8], op: ArithOp, gas: u64) -> (r: Result<PrecompileOutcome, PrecompileFailure>)
    ensures
        outcome_is(r, arith_single_spec(8, input@, op), gas as int),
{
    let width: usize = match op {
        ArithOp::Square => 32,
        _ => 64,
    };
    if input.len() != width {
        return Err(PrecompileFailure::InputLength);
    }
    let out = ext8_item(input, 0, op)?;
    output_word(&out, gas)
}

/// A batched octic arithmetic precompile charging `gas_per_item` per item.
fn ext8_batch(input: &[u8], op: ArithOp, gas_per_item: u64) -> (r: Result<
    PrecompileOutcome,
    PrecompileFailure,
>)
    requires
        gas_per_item * item_count(input@, op) <= u64::MAX,
    ensures
        outcome_is(r, arith_batch_spec(8, input@, op), gas_per_item * item_count(input@, op)),
{
    let width: usize = match op {
        ArithOp::Square => 32,
        _ => 64,
    };
    if input.len() % width != 0 {
        return Err(PrecompileFailure::ItemLength);
    }
    let count = input.len() / width;
    let ghost items = arith_items(8, input@, op);
    let mut out: Vec<u8> = Vec::new();
    let mut j: usize = 0;
    while j < count
        invariant
            width == item_width(op),
            count == item_count(input@, op),
            input@.len() == input.len(),
            input@.len() as int % width as int == 0,
            j <= count,
            items == arith_items(8, input@, op),
            batch_spec(items, j as nat) == Ok::<Seq<u8>, PrecompileFailure>(out@),
        decreases count - j,
    {
        assert(width * j + width <= input@.len()) by (nonlinear_arith)
            requires
                j < count,
                count as int == input@.len() as int / (width as int),
                input@.len() as int % (width as int) == 0,
                width > 0,
        ;
        let offset = width * j;
        match ext8_item(input, offset, op) {
            Ok(w) => {
                push_word(&mut out, &w);
            },
            Err(e) => {
                proof {
                    lemma_batch_failure_sticks(items, (j + 1) as nat, count as nat);
                }
                return Err(e);
            },
        }
        j = j + 1;
    }
    let gas = gas_per_item * (count as u64);
    Ok(PrecompileOutcome { bytes: out, gas_used: gas })
}

/// `EXT8_MUL`: the product of two packed octic words.
pub fn ext8_mul_precompile(input: &[u8], schedule: &LockedGasSchedule) -> (r: Result<
    PrecompileOutcome,
    PrecompileFailure,
>)
    ensures
        outcome_is(r, arith_single_spec(8, input@, ArithOp::Mul), schedule.ext8_mul.assigned_base_gas as int),
{
    ext8_single(input, ArithOp::Mul, schedule.ext8_mul.assigned_base_gas)
}

/// `EXT8_SQUARE`: the square of one packed octic word.
pub fn ext8_square_precompile(input: &[u8], schedule: &LockedGasSchedule) -> (r: Result<
    PrecompileOutcome,
    PrecompileFailure,
>)
    ensures
        outcome_is(r, arith_single_spec(8, input@, ArithOp::Square), schedule.ext8_square.assigned_base_gas as int),
{
    ext8_single(input, ArithOp::Square, schedule.ext8_square.assigned_base_gas)
}

/// `EXT8_ADD`: the sum of two packed octic words.
pub fn ext8_add_precompile(input: &[u8], schedule: &LockedGasSchedule) -> (r: Result<
    PrecompileOutcome,
    PrecompileFailure,
>)
    ensures
        outcome_is(r, arith_single_spec(8, input@, ArithOp::Add), schedule.ext8_add.assigned_base_gas as int),
{
    ext8_single(input, ArithOp::Add, schedule.ext8_add.assigned_base_gas)
}

/// `EXT8_SUB`: the difference of two packed octic words.
pub fn ext8_sub_precompile(input: &[u8], schedule: &LockedGasSchedule) -> (r: Result<
    PrecompileOutcome,
    PrecompileFailure,
>)
    ensures
        outcome_is(r, arith_single_spec(8, input@, ArithOp::Sub), schedule.ext8_sub.assigned_base_gas as int),
{
    ext8_single(input, ArithOp::Sub, schedule.ext8_sub.assigned_base_gas)
}

/// `EXT8_MUL_BASE`: a packed octic word times a 32-byte base scalar.
pub fn ext8_mul_base_precompile(input: &[u8], schedule: &LockedGasSchedule) -> (r: Result<
    PrecompileOutcome,
    PrecompileFailure,
>)
    ensures
        outcome_is(r, arith_single_spec(8, input@, ArithOp::MulBase), schedule.ext8_mul_base.assigned_base_gas as int),
{
    ext8_single(input, ArithOp::MulBase, schedule.ext8_mul_base.assigned_base_gas)
}

/// `EXT8_MUL_BATCH`: the products of consecutive pairs of packed octic words, charged per item.
pub fn ext8_mul_batch_precompile(input: &[u8], schedule: &LockedGasSchedule) -> (r: Result<
    PrecompileOutcome,
    PrecompileFailure,
>)
    requires
        schedule.ext8_mul_batch.assigned_base_gas * item_count(input@, ArithOp::Mul) <= u64::MAX,
    ensures
        outcome_is(
            r,
            arith_batch_spec(8, input@, ArithOp::Mul),
            schedule.ext8_mul_batch.assigned_base_gas * item_count(input@, ArithOp::Mul),
        ),
{
    ext8_batch(input, ArithOp::Mul, schedule.ext8_mul_batch.assigned_base_gas)
}

/// `EXT8_SQUARE_BATCH`: the squares of consecutive packed octic words, charged per item.
pub fn ext8_square_batch_precompile(input: &[u8], schedule: &LockedGasSchedule) -> (r: Result<
    PrecompileOutcome,
    PrecompileFailure,
>)
    requires
        schedule.ext8_square_batch.assigned_base_gas * item_count(input@, ArithOp::Square) <= u64::MAX,
    ensures
        outcome_is(
            r,
            arith_batch_spec(8, input@, ArithOp::Square),
            schedule.ext8_square_batch.assigned_base_gas * item_count(input@, ArithOp::Square),
        ),
{
    ext8_batch(input, ArithOp::Square, schedule.ext8_square_batch.assigned_base_gas)
}

/// `EXT8_MUL_BASE_BATCH`: each packed octic word times the base scalar after it, charged per item.
pub fn ext8_mul_base_batch_precompile(input: &[u8], schedule: &LockedGasSchedule) -> (r: Result<
    PrecompileOutcome,
    PrecompileFailure,
>)
    requires
        schedule.ext8_mul_base_batch.assigned_base_gas * item_count(input@, ArithOp::MulBase) <= u64::MAX,
    ensures
        outcome_is(
            r,
            arith_batch_spec(8, input@, ArithOp::MulBase),
            schedule.ext8_mul_base_batch.assigned_base_gas * item_count(input@, ArithOp::MulBase),
        ),
{
    ext8_batch(input, ArithOp::MulBase, schedule.ext8_mul_base_batch.assigned_base_gas)
}

/// The precompiles that `Ext8PrecompileFactory` installs.
#[derive(Debug, Clone, Copy, PartialEq, Eq, Structural)]
pub enum Ext8Precompile {
    /// `EXT8_MUL`: the product of two octic words.
    Ext8Mul,
    /// `EXT8_SQUARE`: the square of a octic word.
    Ext8Square,
    /// `EXT8_ADD`: the sum of two octic words.
    Ext8Add,
    /// `EXT8_SUB`: the difference of two octic words.
    Ext8Sub,
    /// `EXT8_MUL_BASE`: a octic word times a base scalar.
    Ext8MulBase,
    /// `EXT8_MUL_BATCH`: batched `EXT8_MUL`.
    Ext8MulBatch,
    /// `EXT8_SQUARE_BATCH`: batched `EXT8_SQUARE`.
    Ext8SquareBatch,
    /// `EXT8_MUL_BASE_BATCH`: batched `EXT8_MUL_BASE`.
    Ext8MulBaseBatch,
    /// `NOOP_64_TO_32`: the first word of the call data.
    Noop64To32,
    /// `NOOP_32_TO_32`: the first word of the call data.
    Noop32To32,
    /// `NOOP_BATCH_64_TO_32`: the first half of every 64-byte item.
    NoopBatch64To32,
    /// `NOOP_BATCH_32_TO_32`: the call data.
    NoopBatch32To32,
}

/// The address named for each precompile: `EXT8_ADD_ADDRESS` for `EXT8_ADD`,
/// `NOOP_64_TO_32_ADDRESS` for `NOOP_64_TO_32`, and so on.
pub open spec fn ext8_address(p: Ext8Precompile) -> u64 {
    match p {
        Ext8Precompile::Ext8Mul => EXT8_MUL_ADDRESS,
        Ext8Precompile::Ext8Square => EXT8_SQUARE_ADDRESS,
        Ext8Precompile::Ext8Add => EXT8_ADD_ADDRESS,
        Ext8Precompile::Ext8Sub => EXT8_SUB_ADDRESS,
        Ext8Precompile::Ext8MulBase => EXT8_MUL_BASE_ADDRESS,
        Ext8Precompile::Ext8MulBatch => EXT8_MUL_BATCH_ADDRESS,
        Ext8Precompile::Ext8SquareBatch => EXT8_SQUARE_BATCH_ADDRESS,
        Ext8Precompile::Ext8MulBaseBatch => EXT8_MUL_BASE_BATCH_ADDRESS,
        Ext8Precompile::Noop64To32 => NOOP_64_TO_32_ADDRESS,
        Ext8Precompile::Noop32To32 => NOOP_32_TO_32_ADDRESS,
        Ext8Precompile::NoopBatch64To32 => NOOP_BATCH_64_TO_32_ADDRESS,
        Ext8Precompile::NoopBatch32To32 => NOOP_BATCH_32_TO_32_ADDRESS,
    }
}

/// Some entry of `t` serves `p`.
pub open spec fn ext8_served(t: Seq<(u64, Ext8Precompile)>, p: Ext8Precompile) -> bool {
    exists|i: int| 0 <= i < t.len() && t[i].1 == p
}

/// The address and precompile of every entry of the ext8 node, in installation order.
pub open spec fn ext8_precompile_table() -> Seq<(u64, Ext8Precompile)> {
    seq![
        (EXT8_MUL_ADDRESS, Ext8Precompile::Ext8Mul),
        (EXT8_SQUARE_ADDRESS, Ext8Precompile::Ext8Square),
        (EXT8_ADD_ADDRESS, Ext8Precompile::Ext8Add),
        (EXT8_SUB_ADDRESS, Ext8Precompile::Ext8Sub),
        (EXT8_MUL_BASE_ADDRESS, Ext8Precompile::Ext8MulBase),
        (EXT8_MUL_BATCH_ADDRESS, Ext8Precompile::Ext8MulBatch),
        (EXT8_SQUARE_BATCH_ADDRESS, Ext8Precompile::Ext8SquareBatch),
        (EXT8_MUL_BASE_BATCH_ADDRESS, Ext8Precompile::Ext8MulBaseBatch),
        (NOOP_64_TO_32_ADDRESS, Ext8Precompile::Noop64To32),
        (NOOP_32_TO_32_ADDRESS, Ext8Precompile::Noop32To32),
        (NOOP_BATCH_64_TO_32_ADDRESS, Ext8Precompile::NoopBatch64To32),
        (NOOP_BATCH_32_TO_32_ADDRESS, Ext8Precompile::NoopBatch32To32),
    ]
}

/// The precompile set of the ext8 node.
#[derive(Debug, Default, Clone, Copy)]
pub struct Ext8PrecompileFactory;

impl Ext8PrecompileFactory {
    /// The address and precompile of every entry, in installation order.
    pub fn precompiles(&self) -> (r: Vec<(u64, Ext8Precompile)>)
        ensures
            r@ == ext8_precompile_table(),
            r@.len() == 12,
            forall|i: int| 0 <= i < r@.len() ==> #[trigger] r@[i].0 == ext8_address(r@[i].1),
            forall|p: Ext8Precompile| #[trigger] ext8_served(r@, p),
    {
        let mut r: Vec<(u64, Ext8Precompile)> = Vec::new();
        r.push((EXT8_MUL_ADDRESS, Ext8Precompile::Ext8Mul));
        r.push((EXT8_SQUARE_ADDRESS, Ext8Precompile::Ext8Square));
        r.push((EXT8_ADD_ADDRESS, Ext8Precompile::Ext8Add));
        r.push((EXT8_SUB_ADDRESS, Ext8Precompile::Ext8Sub));
        r.push((EXT8_MUL_BASE_ADDRESS, Ext8Precompile::Ext8MulBase));
        r.push((EXT8_MUL_BATCH_ADDRESS, Ext8Precompile::Ext8MulBatch));
        r.push((EXT8_SQUARE_BATCH_ADDRESS, Ext8Precompile::Ext8SquareBatch));
        r.push((EXT8_MUL_BASE_BATCH_ADDRESS, Ext8Precompile::Ext8MulBaseBatch));
        r.push((NOOP_64_TO_32_ADDRESS, Ext8Precompile::Noop64To32));
        r.push((NOOP_32_TO_32_ADDRESS, Ext8Precompile::Noop32To32));
        r.push((NOOP_BATCH_64_TO_32_ADDRESS, Ext8Precompile::NoopBatch64To32));
        r.push((NOOP_BATCH_32_TO_32_ADDRESS, Ext8Precompile::NoopBatch32To32));
        assert(r@ =~= ext8_precompile_table());
        proof {
            law_ext8_factory_serves_each_precompile_at_its_address();
        }
        r
    }
}

/// No two entries of the ext8 node share an address.
pub proof fn lemma_ext8_addresses_distinct()
    ensures
        forall|i: int, j: int|
            0 <= i < j < ext8_precompile_table().len() ==> #[trigger] ext8_precompile_table()[i].0
                != #[trigger] ext8_precompile_table()[j].0,
{
}

/// The ext8 node serves every precompile, each at the address named for it
/// (the entry at `EXT8_ADD_ADDRESS` is `EXT8_ADD`, the entry at
/// `EXT8_SUB_ADDRESS` is `EXT8_SUB`, and so on), and an address
/// determines the precompile served there.
pub proof fn law_ext8_factory_serves_each_precompile_at_its_address()
    ensures
        forall|i: int|
            0 <= i < ext8_precompile_table().len() ==> #[trigger] ext8_precompile_table()[i].0
                == ext8_address(ext8_precompile_table()[i].1),
        forall|p: Ext8Precompile| #[trigger] ext8_served(ext8_precompile_table(), p),
        forall|i: int, j: int|
            0 <= i < ext8_precompile_table().len() && 0 <= j < ext8_precompile_table().len()
                && #[trigger] ext8_precompile_table()[i].0 == #[trigger] ext8_precompile_table()[j].0
                ==> ext8_precompile_table()[i].1 == ext8_precompile_table()[j].1,
        forall|p: Ext8Precompile, q: Ext8Precompile| #[trigger] ext8_address(p) == #[trigger] ext8_address(q) ==> p == q,
{
    let t = ext8_precompile_table();
    assert forall|p: Ext8Precompile| #[trigger] ext8_served(t, p) by {
        match p {
            Ext8Precompile::Ext8Mul => assert(t[0].1 == p),
            Ext8Precompile::Ext8Square => assert(t[1].1 == p),
            Ext8Precompile::Ext8Add => assert(t[2].1 == p),
            Ext8Precompile::Ext8Sub => assert(t[3].1 == p),
            Ext8Precompile::Ext8MulBase => assert(t[4].1 == p),
            Ext8Precompile::Ext8MulBatch => assert(t[5].1 == p),
            Ext8Precompile::Ext8SquareBatch => assert(t[6].1 == p),
            Ext8Precompile::Ext8MulBaseBatch => assert(t[7].1 == p),
            Ext8Precompile::Noop64To32 => assert(t[8].1 == p),
            Ext8Precompile::Noop32To32 => assert(t[9].1 == p),
            Ext8Precompile::NoopBatch64To32 => assert(t[10].1 == p),
            Ext8Precompile::NoopBatch32To32 => assert(t[11].1 == p),
        }
    }
}

} // verus!
