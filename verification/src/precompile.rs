//! What every precompile shares: its outcome and failure types, the readers
//! of words and scalars out of the call data, and the stateless no-op
//! precompiles used to measure call overhead.

use crate::codec::{
    be_u32, decode_ext5_spec, decode_ext8_spec, decode_packed_ext5_word, decode_packed_ext8_word,
    CodecError, KOALABEAR_MODULUS,
};
use crate::codec::encode_spec;
use crate::field::{
    canonical, ext_add, ext_scale, ext_sub, modulus, octic_mul, quintic_mul, KoalaBear,
    OcticBinExtension, QuinticTrinomialExtension,
};
use vstd::prelude::*;

verus! {

/// A successful precompile call: the returned bytes and the gas it charges.
pub struct PrecompileOutcome {
    pub bytes: Vec<u8>,
    pub gas_used: u64,
}

/// Why a precompile call was refused.
#[derive(Debug, Clone, Copy, PartialEq, Eq, Structural)]
pub enum PrecompileFailure {
    /// The call data does not have the one length the precompile accepts.
    InputLength,
    /// The call data of a batch precompile is not a whole number of items.
    ItemLength,
    /// A quintic word in the call data is not a canonical packed word.
    InvalidExt5Word(CodecError),
    /// An octic word in the call data is not a canonical packed word.
    InvalidExt8Word(CodecError),
    /// A 32-byte base scalar runs past the end of the call data.
    ScalarTruncated,
    /// A 32-byte base scalar has a nonzero byte before its last four.
    ScalarHighBytes,
    /// A base scalar is not below the prime.
    ScalarOutOfRange,
    /// A 4-byte base scalar runs past the end of the call data.
    Scalar4Truncated,
    /// The call data is shorter than the 8-byte request header.
    HeaderTooShort,
    /// The gas schedule has no entry for the requested field (and mode).
    UnknownField,
    /// The request asks for more terms than the schedule allows.
    NExceedsMax,
    /// The request sets a flag bit that has no meaning.
    ReservedFlag,
    /// The call data length does not match what the header announces.
    LengthMismatch,
    /// The schedule names a field that no evaluator exists for.
    UnsupportedFieldId,
}

/// A precompile result against its statement: the bytes and gas on success,
/// the failure otherwise.
pub open spec fn outcome_is(
    r: Result<PrecompileOutcome, PrecompileFailure>,
    s: Result<Seq<u8>, PrecompileFailure>,
    gas: int,
) -> bool {
    match s {
        Ok(b) => r is Ok && r->Ok_0.bytes@ == b && r->Ok_0.gas_used == gas,
        Err(e) => r is Err && r->Err_0 == e,
    }
}

/// The 32 bytes at `input[offset..]`, padded with zeros past the end.
pub open spec fn word_at(input: Seq<u8>, offset: int) -> Seq<u8> {
    Seq::new(32, |k: int| if offset + k < input.len() { input[offset + k] } else { 0u8 })
}

/// The quintic element read at `offset`.
pub open spec fn ext5_at(input: Seq<u8>, offset: int) -> Result<Seq<int>, PrecompileFailure> {
    match decode_ext5_spec(word_at(input, offset)) {
        Ok(c) => Ok(c),
        Err(e) => Err(PrecompileFailure::InvalidExt5Word(e)),
    }
}

/// The octic element read at `offset`.
pub open spec fn ext8_at(input: Seq<u8>, offset: int) -> Result<Seq<int>, PrecompileFailure> {
    match decode_ext8_spec(word_at(input, offset)) {
        Ok(c) => Ok(c),
        Err(e) => Err(PrecompileFailure::InvalidExt8Word(e)),
    }
}

/// The base scalar stored as a 32-byte big-endian word at `offset`.
pub open spec fn scalar_at(input: Seq<u8>, offset: int) -> Result<int, PrecompileFailure> {
    if input.len() < offset + 32 {
        Err(PrecompileFailure::ScalarTruncated)
    } else if exists|k: int| offset <= k < offset + 28 && input[k] != 0 {
        Err(PrecompileFailure::ScalarHighBytes)
    } else if be_u32(input, offset + 28) >= modulus() {
        Err(PrecompileFailure::ScalarOutOfRange)
    } else {
        Ok(be_u32(input, offset + 28))
    }
}

/// The base scalar stored as a 4-byte big-endian word at `offset`.
pub open spec fn scalar4_at(input: Seq<u8>, offset: int) -> Result<int, PrecompileFailure> {
    if input.len() < offset + 4 {
        Err(PrecompileFailure::Scalar4Truncated)
    } else if be_u32(input, offset) >= modulus() {
        Err(PrecompileFailure::ScalarOutOfRange)
    } else {
        Ok(be_u32(input, offset))
    }
}

/// An element read against its statement.
pub open spec fn read_as<T: View<V = Seq<int>>>(
    r: Result<T, PrecompileFailure>,
    s: Result<Seq<int>, PrecompileFailure>,
) -> bool {
    match s {
        Ok(c) => r is Ok && r->Ok_0@ == c,
        Err(e) => r is Err && r->Err_0 == e,
    }
}

/// The output of a batch precompile over its first `k` items: the
/// concatenated item outputs, or the failure of the first item that fails.
pub open spec fn batch_spec(
    item: spec_fn(int) -> Result<Seq<u8>, PrecompileFailure>,
    k: nat,
) -> Result<Seq<u8>, PrecompileFailure>
    decreases k,
{
    if k == 0 {
        Ok(Seq::empty())
    } else {
        match batch_spec(item, (k - 1) as nat) {
            Err(e) => Err(e),
            Ok(out) => match item(k - 1) {
                Err(e) => Err(e),
                Ok(w) => Ok(out + w),
            },
        }
    }
}

/// Once an item fails, the batch fails with that item's failure.
pub proof fn lemma_batch_failure_sticks(
    item: spec_fn(int) -> Result<Seq<u8>, PrecompileFailure>,
    k: nat,
    m: nat,
)
    requires
        k <= m,
        batch_spec(item, k) is Err,
    ensures
        batch_spec(item, m) == batch_spec(item, k),
    decreases m - k,
{
    if k < m {
        lemma_batch_failure_sticks(item, k, (m - 1) as nat);
    }
}

/// The zero-padded word at `input[offset..]`.
fn word_from(input: &[u8], offset: usize) -> (r: [u8; 32])
    ensures
        r@ == word_at(input@, offset as int),
{
    let mut word = [0u8; 32];
    if input.len() > offset {
        let available = if input.len() - offset < 32 {
            input.len() - offset
        } else {
            32
        };
        let mut k: usize = 0;
        while k < available
            invariant
                available <= 32,
                input@.len() == input.len(),
                offset + available <= input@.len(),
                available == 32 || offset + available == input@.len(),
                0 <= k <= available,
                forall|j: int|
                    0 <= j < 32 ==> #[trigger] word[j] == if j < k {
                        input@[offset + j]
                    } else {
                        0u8
                    },
            decreases available - k,
        {
            word[k] = input[offset + k];
            k = k + 1;
        }
    }
    assert(word@ =~= word_at(input@, offset as int));
    word
}

/// Reads the quintic element packed at `input[offset..]`, zero-padded.
pub fn decode_word(input: &[u8], offset: usize) -> (r: Result<QuinticTrinomialExtension, PrecompileFailure>)
    ensures
        read_as(r, ext5_at(input@, offset as int)),
{
    let word = word_from(input, offset);
    match decode_packed_ext5_word(word.as_slice()) {
        Ok(x) => Ok(x),
        Err(e) => Err(PrecompileFailure::InvalidExt5Word(e)),
    }
}

/// Reads the octic element packed at `input[offset..]`, zero-padded.
pub fn decode_ext8_word(input: &[u8], offset: usize) -> (r: Result<OcticBinExtension, PrecompileFailure>)
    ensures
        read_as(r, ext8_at(input@, offset as int)),
{
    let word = word_from(input, offset);
    match decode_packed_ext8_word(word.as_slice()) {
        Ok(x) => Ok(x),
        Err(e) => Err(PrecompileFailure::InvalidExt8Word(e)),
    }
}

/// The big-endian `u32` at `input[off..off + 4]`.
pub fn read_u32(input: &[u8], off: usize) -> (r: u32)
    requires
        off + 4 <= input@.len(),
    ensures
        r as int == be_u32(input@, off as int),
{
    let b0 = input[off] as u32;
    let b1 = input[off + 1] as u32;
    let b2 = input[off + 2] as u32;
    let b3 = input[off + 3] as u32;
    b0 * 0x100_0000 + b1 * 0x1_0000 + b2 * 0x100 + b3
}

/// The big-endian `u16` stored in `b[off..off + 2]`.
pub open spec fn be_u16(b: Seq<u8>, off: int) -> int {
    b[off] * 0x100 + b[off + 1]
}

/// The big-endian `u16` at `input[off..off + 2]`.
pub fn read_u16(input: &[u8], off: usize) -> (r: u16)
    requires
        off + 2 <= input@.len(),
    ensures
        r as int == be_u16(input@, off as int),
{
    let b0 = input[off] as u16;
    let b1 = input[off + 1] as u16;
    b0 * 0x100 + b1
}

/// Reads a base scalar stored as a 32-byte big-endian word at `offset`.
pub fn decode_scalar(input: &[u8], offset: usize) -> (r: Result<KoalaBear, PrecompileFailure>)
    requires
        offset + 32 <= usize::MAX,
    ensures
        match scalar_at(input@, offset as int) {
            Ok(v) => r is Ok && r->Ok_0@ == v,
            Err(e) => r is Err && r->Err_0 == e,
        },
{
    if input.len() < offset + 32 {
        return Err(PrecompileFailure::ScalarTruncated);
    }
    let mut k: usize = offset;
    while k < offset + 28
        invariant
            offset <= k <= offset + 28,
            offset + 32 <= usize::MAX,
            offset + 32 <= input@.len(),
            forall|j: int| offset <= j < k ==> input@[j] == 0,
        decreases offset + 28 - k,
    {
        if input[k] != 0 {
            return Err(PrecompileFailure::ScalarHighBytes);
        }
        k = k + 1;
    }
    let value = read_u32(input, offset + 28);
    if value >= KOALABEAR_MODULUS {
        return Err(PrecompileFailure::ScalarOutOfRange);
    }
    Ok(KoalaBear::from_canonical(value))
}

/// Reads a base scalar stored as a 4-byte big-endian word at `offset`.
pub fn decode_scalar4(input: &[u8], offset: usize) -> (r: Result<KoalaBear, PrecompileFailure>)
    requires
        offset + 4 <= usize::MAX,
    ensures
        match scalar4_at(input@, offset as int) {
            Ok(v) => r is Ok && r->Ok_0@ == v,
            Err(e) => r is Err && r->Err_0 == e,
        },
{
    if input.len() < offset + 4 {
        return Err(PrecompileFailure::Scalar4Truncated);
    }
    let value = read_u32(input, offset);
    if value >= KOALABEAR_MODULUS {
        return Err(PrecompileFailure::ScalarOutOfRange);
    }
    Ok(KoalaBear::from_canonical(value))
}

/// Appends a 32-byte word to `out`.
pub fn push_word(out: &mut Vec<u8>, w: &[u8; 32])
    ensures
        final(out)@ == old(out)@ + w@,
{
    let ghost start = out@;
    let mut k: usize = 0;
    while k < 32
        invariant
            0 <= k <= 32,
            out@ == start + w@.subrange(0, k as int),
        decreases 32 - k,
    {
        out.push(w[k]);
        k = k + 1;
        assert(w@.subrange(0, k as int) =~= w@.subrange(0, k - 1) + seq![w@[k - 1]]);
    }
    assert(w@.subrange(0, 32) =~= w@);
}

// ---------------------------------------------------------------------------
// The arithmetic precompiles, for either extension degree.
// ---------------------------------------------------------------------------

/// The operation an arithmetic precompile performs on each item.
#[derive(Debug, Clone, Copy, PartialEq, Eq, Structural)]
pub enum ArithOp {
    /// `lhs * rhs`, two packed words.
    Mul,
    /// `lhs * lhs`, one packed word.
    Square,
    /// `lhs + rhs`, two packed words.
    Add,
    /// `lhs - rhs`, two packed words.
    Sub,
    /// `lhs * scalar`, a packed word and a 32-byte base scalar.
    MulBase,
}

/// The bytes of one item of `op`.
pub open spec fn item_width(op: ArithOp) -> int {
    match op {
        ArithOp::Square => 32,
        _ => 64,
    }
}

/// The element of degree `deg` (5 or 8) read at `offset`.
pub open spec fn ext_at(deg: nat, input: Seq<u8>, offset: int) -> Result<Seq<int>, PrecompileFailure> {
    if deg == 5 {
        ext5_at(input, offset)
    } else {
        ext8_at(input, offset)
    }
}

/// The product in the extension of degree `deg` (5 or 8).
pub open spec fn ext_mul(deg: nat, a: Seq<int>, b: Seq<int>) -> Seq<int> {
    if deg == 5 {
        quintic_mul(a, b)
    } else {
        octic_mul(a, b)
    }
}

/// `op` applied to two elements of degree `deg`.
pub open spec fn combine(deg: nat, op: ArithOp, a: Seq<int>, b: Seq<int>) -> Seq<int> {
    match op {
        ArithOp::Add => ext_add(a, b),
        ArithOp::Sub => ext_sub(a, b),
        _ => ext_mul(deg, a, b),
    }
}

/// The packed result of the item of `op` at `offset`.
pub open spec fn arith_item_spec(deg: nat, input: Seq<u8>, offset: int, op: ArithOp) -> Result<
    Seq<u8>,
    PrecompileFailure,
> {
    match ext_at(deg, input, offset) {
        Err(e) => Err(e),
        Ok(a) => match op {
            ArithOp::Square => Ok(encode_spec(ext_mul(deg, a, a))),
            ArithOp::MulBase => match scalar_at(input, offset + 32) {
                Err(e) => Err(e),
                Ok(s) => Ok(encode_spec(ext_scale(a, s))),
            },
            _ => match ext_at(deg, input, offset + 32) {
                Err(e) => Err(e),
                Ok(b) => Ok(encode_spec(combine(deg, op, a, b))),
            },
        },
    }
}

/// What a single-item arithmetic precompile returns: the call data must be
/// exactly one item.
pub open spec fn arith_single_spec(deg: nat, input: Seq<u8>, op: ArithOp) -> Result<
    Seq<u8>,
    PrecompileFailure,
> {
    if input.len() != item_width(op) {
        Err(PrecompileFailure::InputLength)
    } else {
        arith_item_spec(deg, input, 0, op)
    }
}

/// Item `j` of a batch of `op`.
pub open spec fn arith_items(deg: nat, input: Seq<u8>, op: ArithOp) -> spec_fn(int) -> Result<
    Seq<u8>,
    PrecompileFailure,
> {
    |j: int| arith_item_spec(deg, input, item_width(op) * j, op)
}

/// The number of items in the call data of a batch of `op`.
pub open spec fn item_count(input: Seq<u8>, op: ArithOp) -> nat {
    (input.len() as int / item_width(op)) as nat
}

/// What a batch arithmetic precompile returns: the call data must be a whole
/// number of items; the output is the items' outputs, concatenated.
pub open spec fn arith_batch_spec(deg: nat, input: Seq<u8>, op: ArithOp) -> Result<
    Seq<u8>,
    PrecompileFailure,
> {
    if input.len() as int % item_width(op) != 0 {
        Err(PrecompileFailure::ItemLength)
    } else {
        batch_spec(arith_items(deg, input, op), item_count(input, op))
    }
}

/// A word read back as a precompile output.
pub fn output_word(w: &[u8; 32], gas_used: u64) -> (r: Result<PrecompileOutcome, PrecompileFailure>)
    ensures
        outcome_is(r, Ok(w@), gas_used as int),
{
    let mut bytes = Vec::new();
    push_word(&mut bytes, w);
    assert(bytes@ =~= w@);
    Ok(PrecompileOutcome { bytes, gas_used })
}

// ---------------------------------------------------------------------------
// The no-op precompiles, which measure the cost of a call itself.
// ---------------------------------------------------------------------------

/// `NOOP_64_TO_32`: the first 32 bytes of the call data, zero-padded; free.
pub fn noop_64_to_32_precompile(input: &[u8]) -> (r: Result<PrecompileOutcome, PrecompileFailure>)
    ensures
        outcome_is(r, Ok(word_at(input@, 0)), 0),
{
    let word = word_from(input, 0);
    output_word(&word, 0)
}

/// `NOOP_32_TO_32`: the first 32 bytes of the call data, zero-padded; free.
pub fn noop_32_to_32_precompile(input: &[u8]) -> (r: Result<PrecompileOutcome, PrecompileFailure>)
    ensures
        outcome_is(r, Ok(word_at(input@, 0)), 0),
{
    let word = word_from(input, 0);
    output_word(&word, 0)
}

/// Item `j` of a `NOOP_BATCH_64_TO_32` call: the first half of its 64 bytes.
pub open spec fn noop_halves(input: Seq<u8>) -> spec_fn(int) -> Result<Seq<u8>, PrecompileFailure> {
    |j: int| Ok(input.subrange(64 * j, 64 * j + 32))
}

/// What `NOOP_BATCH_64_TO_32` returns: the first half of every 64-byte item.
pub open spec fn noop_batch_64_to_32_spec(input: Seq<u8>) -> Result<Seq<u8>, PrecompileFailure> {
    if input.len() as int % 64 != 0 {
        Err(PrecompileFailure::ItemLength)
    } else {
        batch_spec(noop_halves(input), (input.len() as int / 64) as nat)
    }
}

/// `NOOP_BATCH_64_TO_32`: the first 32 bytes of every 64-byte item; free.
pub fn noop_batch_64_to_32_precompile(input: &[u8]) -> (r: Result<PrecompileOutcome, PrecompileFailure>)
    ensures
        outcome_is(r, noop_batch_64_to_32_spec(input@), 0),
{
    if input.len() % 64 != 0 {
        return Err(PrecompileFailure::ItemLength);
    }
    let count = input.len() / 64;
    let mut out: Vec<u8> = Vec::new();
    let mut j: usize = 0;
    while j < count
        invariant
            input@.len() == input.len(),
            count == input@.len() / 64,
            input@.len() % 64 == 0,
            j <= count,
            batch_spec(noop_halves(input@), j as nat) == Ok::<Seq<u8>, PrecompileFailure>(out@),
        decreases count - j,
    {
        let ghost before = out@;
        assert(64 * j + 64 <= input@.len()) by (nonlinear_arith)
            requires
                j < count,
                count == input@.len() / 64,
                input@.len() % 64 == 0,
        ;
        let offset = 64 * j;
        let mut k: usize = 0;
        while k < 32
            invariant
                count == input@.len() / 64,
                input@.len() % 64 == 0,
                j < count,
                offset == 64 * j,
                offset + 64 <= input@.len(),
                input@.len() == input.len(),
                k <= 32,
                out@ == before + input@.subrange(offset as int, offset + k),
            decreases 32 - k,
        {
            out.push(input[offset + k]);
            k = k + 1;
            assert(input@.subrange(offset as int, offset + k) =~= input@.subrange(
                offset as int,
                offset + k - 1,
            ).push(input@[offset + k - 1]));
        }
        j = j + 1;
    }
    Ok(PrecompileOutcome { bytes: out, gas_used: 0 })
}

/// What `NOOP_BATCH_32_TO_32` returns: the call data itself.
pub open spec fn noop_batch_32_to_32_spec(input: Seq<u8>) -> Result<Seq<u8>, PrecompileFailure> {
    if input.len() as int % 32 != 0 {
        Err(PrecompileFailure::ItemLength)
    } else {
        Ok(input)
    }
}

/// `NOOP_BATCH_32_TO_32`: the call data, which must be whole 32-byte items; free.
pub fn noop_batch_32_to_32_precompile(input: &[u8]) -> (r: Result<PrecompileOutcome, PrecompileFailure>)
    ensures
        outcome_is(r, noop_batch_32_to_32_spec(input@), 0),
{
    if input.len() % 32 != 0 {
        return Err(PrecompileFailure::ItemLength);
    }
    let mut out: Vec<u8> = Vec::new();
    let mut k: usize = 0;
    while k < input.len()
        invariant
            k <= input@.len(),
            out@ == input@.subrange(0, k as int),
        decreases input@.len() - k,
    {
        out.push(input[k]);
        k = k + 1;
        assert(input@.subrange(0, k as int) =~= input@.subrange(0, k - 1).push(input@[k - 1]));
    }
    assert(input@.subrange(0, input@.len() as int) =~= input@);
    Ok(PrecompileOutcome { bytes: out, gas_used: 0 })
}

} // verus!
