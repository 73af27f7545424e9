//! What the precompiles promise as a whole, proved over their statements.

use crate::codec::{
    be_byte, be_bytes_of, be_u32, be_value, decode_coeffs_spec, decode_ext5_spec, encode_spec,
    lemma_be_bytes_of_value, lemma_decode_encode, u32_word_spec,
};
use crate::field::{canonical, conv, conv_sum, ext_add, ext_const, ext_scale, modulus, octic_mul, quintic_mul};
use crate::ext5::extfield::{
    bytes_per_term, extfield_lin_prod_spec, extfield_mac_spec, known_lin_prod_flags, lin_prod_fold,
    lin_prod_header_spec, lin_prod_term, mac_fold, mac_header_spec, mac_pairs_start, MacRequest,
};
use crate::gas_model::{
    first_mac_field, lin_prod_mode_index, ExtfieldLinProdFieldGasSchedule, ExtfieldMacFieldGasSchedule, EXTFIELD_MAC_FIELD_ID_KOALABEAR_EXT5,
    EXTFIELD_MAC_FIELD_ID_KOALABEAR_EXT8,
};
use crate::precompile::{
    arith_item_spec, arith_items, arith_single_spec, be_u16, combine, ext5_at, ext8_at, ext_at,
    ext_mul, item_width, scalar4_at, scalar_at, word_at, ArithOp, PrecompileFailure,
};
use crate::ext5::vectors::{
    arith_vector_drawn, base_draw, mac_vector_a, mac_vector_b, mac_vector_drawn, mac_vector_start,
    mac_vector_sum, quintic_draw, xorshift_iter, Ext5ArithmeticVector, ExtfieldMacVector,
};
use crate::codec::hex_word_spec;
use vstd::prelude::*;

verus! {

/// The word at `off` of call data that holds 32 bytes there is those bytes.
pub proof fn lemma_word_at_inside(s: Seq<u8>, off: int)
    requires
        0 <= off,
        off + 32 <= s.len(),
    ensures
        word_at(s, off) == s.subrange(off, off + 32),
{
    assert(word_at(s, off) =~= s.subrange(off, off + 32));
}

/// An element packed into the call data is read back at its offset.
pub proof fn lemma_ext_at_packed(deg: nat, c: Seq<int>, pre: Seq<u8>, post: Seq<u8>)
    requires
        deg == 5 || deg == 8,
        canonical(c, deg),
    ensures
        ext_at(deg, pre + encode_spec(c) + post, pre.len() as int) == Ok::<Seq<int>, PrecompileFailure>(c),
{
    let s = pre + encode_spec(c) + post;
    lemma_word_at_inside(s, pre.len() as int);
    assert(s.subrange(pre.len() as int, pre.len() + 32int) =~= encode_spec(c));
    lemma_decode_encode(c, deg, deg == 5);
}

/// A base scalar packed as a 32-byte word into the call data is read back at
/// its offset.
pub proof fn lemma_scalar_at_packed(k: int, pre: Seq<u8>, post: Seq<u8>)
    requires
        0 <= k < modulus(),
    ensures
        scalar_at(pre + u32_word_spec(k) + post, pre.len() as int) == Ok::<int, PrecompileFailure>(k),
{
    let s = pre + u32_word_spec(k) + post;
    let off = pre.len() as int;
    assert forall|j: int| off <= j < off + 28 implies s[j] == 0 by {
        assert(s[j] == u32_word_spec(k)[j - off]);
    }
    assert(s[off + 28] == be_byte(k, 0) && s[off + 29] == be_byte(k, 1) && s[off + 30] == be_byte(k, 2)
        && s[off + 31] == be_byte(k, 3));
    crate::codec::lemma_be_bytes_read_back(k as u32);
}

/// The arithmetic precompiles compute on packed elements: given the packed
/// words of canonical `a` and `b` (or of `a` and a canonical scalar `k`), each
/// returns the packed result of its operation.
pub proof fn law_arith_precompiles_on_packed(deg: nat, a: Seq<int>, b: Seq<int>, k: int)
    requires
        deg == 5 || deg == 8,
        canonical(a, deg),
        canonical(b, deg),
        0 <= k < modulus(),
    ensures
        arith_single_spec(deg, encode_spec(a) + encode_spec(b), ArithOp::Mul) == Ok::<Seq<u8>, PrecompileFailure>(
            encode_spec(ext_mul(deg, a, b)),
        ),
        arith_single_spec(deg, encode_spec(a) + encode_spec(b), ArithOp::Add) == Ok::<Seq<u8>, PrecompileFailure>(
            encode_spec(ext_add(a, b)),
        ),
        arith_single_spec(deg, encode_spec(a) + encode_spec(b), ArithOp::Sub) == Ok::<Seq<u8>, PrecompileFailure>(
            encode_spec(crate::field::ext_sub(a, b)),
        ),
        arith_single_spec(deg, encode_spec(a), ArithOp::Square) == Ok::<Seq<u8>, PrecompileFailure>(
            encode_spec(ext_mul(deg, a, a)),
        ),
        arith_single_spec(deg, encode_spec(a) + u32_word_spec(k), ArithOp::MulBase) == Ok::<
            Seq<u8>,
            PrecompileFailure,
        >(encode_spec(ext_scale(a, k))),
{
    let e: Seq<u8> = Seq::empty();
    let pa = encode_spec(a);
    let pb = encode_spec(b);
    lemma_ext_at_packed(deg, a, e, pb);
    lemma_ext_at_packed(deg, b, pa, e);
    assert(e + pa + pb =~= pa + pb);
    assert(pa + pb + e =~= pa + pb);
    lemma_ext_at_packed(deg, a, e, e);
    assert(e + pa + e =~= pa);
    let pk = u32_word_spec(k);
    lemma_ext_at_packed(deg, a, e, pk);
    lemma_scalar_at_packed(k, pa, e);
    assert(e + pa + pk =~= pa + pk);
    assert(pa + pk + e =~= pa + pk);
}

/// Item `j` of a batch precompile is what the single precompile returns on
/// that item's bytes alone: a batch is its items, run one by one.
pub proof fn law_batch_item_is_single(deg: nat, input: Seq<u8>, op: ArithOp, j: int)
    requires
        deg == 5 || deg == 8,
        input.len() as int % item_width(op) == 0,
        0 <= j < input.len() as int / item_width(op),
    ensures
        arith_items(deg, input, op)(j) == arith_single_spec(
            deg,
            input.subrange(item_width(op) * j, item_width(op) * j + item_width(op)),
            op,
        ),
{
    let w = item_width(op);
    let off = w * j;
    assert(off + w <= input.len()) by (nonlinear_arith)
        requires
            w > 0,
            0 <= j < input.len() as int / w,
            off == w * j,
            input.len() as int % w == 0,
    ;
    let sl = input.subrange(off, off + w);
    lemma_word_at_inside(input, off);
    lemma_word_at_inside(sl, 0);
    assert(input.subrange(off, off + 32) =~= sl.subrange(0, 32));
    if w == 64 {
        lemma_word_at_inside(input, off + 32);
        lemma_word_at_inside(sl, 32);
        assert(input.subrange(off + 32, off + 64) =~= sl.subrange(32, 64));
        assert(forall|k: int| 0 <= k < 64 ==> sl[k] == input[off + k]);
        let hi_in = exists|k: int| off + 32 <= k < off + 32 + 28 && input[k] != 0;
        let hi_sl = exists|k: int| 32 <= k < 32 + 28 && sl[k] != 0;
        if hi_in {
            let k = choose|k: int| off + 32 <= k < off + 32 + 28 && input[k] != 0;
            assert(sl[k - off] != 0);
        }
        if hi_sl {
            let k = choose|k: int| 32 <= k < 32 + 28 && sl[k] != 0;
            assert(input[k + off] != 0);
        }
        assert(hi_in == hi_sl);
        assert(be_u32(input, off + 32 + 28) == be_u32(sl, 60int));
        assert(scalar_at(input, off + 32) == scalar_at(sl, 32));
    }
}

// ---------------------------------------------------------------------------
// Requests laid out as call data.
// ---------------------------------------------------------------------------

/// Every element of `s` is canonical of degree `deg`.
pub open spec fn all_canonical(s: Seq<Seq<int>>, deg: nat) -> bool {
    forall|i: int| 0 <= i < s.len() ==> canonical(#[trigger] s[i], deg)
}

/// The two big-endian bytes of a `u16`.
pub open spec fn be16_bytes(v: int) -> Seq<u8> {
    seq![((v / 0x100) % 0x100) as u8, (v % 0x100) as u8]
}

/// The four big-endian bytes of a `u32`.
pub open spec fn be32_bytes(v: int) -> Seq<u8> {
    seq![be_byte(v, 0), be_byte(v, 1), be_byte(v, 2), be_byte(v, 3)]
}

/// The 8-byte header of an `EXTFIELD_MAC` or `EXTFIELD_LIN_PROD` request.
pub open spec fn request_header(field_id: u16, n: nat, flags: u32) -> Seq<u8> {
    be16_bytes(field_id as int) + be16_bytes(n as int) + be32_bytes(flags as int)
}

/// Items of `w` bytes each, laid end to end.
pub open spec fn flatten_items(items: Seq<Seq<u8>>, w: int) -> Seq<u8> {
    Seq::new((w * items.len()) as nat, |k: int| items[k / w][k % w])
}

/// The call data of an `EXTFIELD_MAC` request: the header, the packed
/// accumulator if there is one, then the packed pairs.
#[verifier::opaque]
pub open spec fn mac_call(field_id: u16, acc: Option<Seq<int>>, a: Seq<Seq<int>>, b: Seq<Seq<int>>) -> Seq<u8> {
    request_header(field_id, a.len(), if acc is Some { 1u32 } else { 0u32 }) + match acc {
        Some(c) => encode_spec(c),
        None => Seq::empty(),
    } + flatten_items(Seq::new(a.len(), |i: int| encode_spec(a[i]) + encode_spec(b[i])), 64)
}

/// `acc + sum_{i < k} a_i * b_i` over the extension of degree `deg`, the
/// accumulator being zero when absent.
pub open spec fn mac_value(deg: nat, acc: Option<Seq<int>>, a: Seq<Seq<int>>, b: Seq<Seq<int>>, k: nat) -> Seq<
    int,
>
    decreases k,
{
    if k == 0 {
        match acc {
            Some(c) => c,
            None => ext_const(deg, 0),
        }
    } else {
        ext_add(mac_value(deg, acc, a, b, (k - 1) as nat), ext_mul(deg, a[k - 1], b[k - 1]))
    }
}

proof fn lemma_be16_read(v: int)
    requires
        0 <= v < 0x1_0000,
    ensures
        be_u16(be16_bytes(v), 0) == v,
{
    let x = v as u16;
    assert((((x / 0x100) % 0x100) as u8) as u16 * 0x100 + ((x % 0x100) as u8) as u16 == x) by (bit_vector);
}

proof fn lemma_be32_read(v: u32)
    ensures
        be_u32(be32_bytes(v as int), 0) == v,
{
    crate::codec::lemma_be_bytes_read_back(v);
}

/// The header fields read back from a laid-out header.
proof fn lemma_request_header_read(field_id: u16, n: nat, flags: u32, rest: Seq<u8>)
    requires
        n < 0x1_0000,
    ensures
        ({
            let s = request_header(field_id, n, flags) + rest;
            &&& s.len() == 8 + rest.len()
            &&& be_u16(s, 0) == field_id
            &&& be_u16(s, 2) == n
            &&& be_u32(s, 4) == flags
        }),
{
    let s = request_header(field_id, n, flags) + rest;
    lemma_be16_read(field_id as int);
    lemma_be16_read(n as int);
    lemma_be32_read(flags);
    assert(s[0] == be16_bytes(field_id as int)[0] && s[1] == be16_bytes(field_id as int)[1]);
    assert(s[2] == be16_bytes(n as int)[0] && s[3] == be16_bytes(n as int)[1]);
    assert(s[4] == be32_bytes(flags as int)[0] && s[5] == be32_bytes(flags as int)[1]);
    assert(s[6] == be32_bytes(flags as int)[2] && s[7] == be32_bytes(flags as int)[3]);
}

/// Item `i` of a flattened sequence sits at `w * i`.
pub proof fn lemma_flatten_item(items: Seq<Seq<u8>>, w: int, i: int)
    requires
        w > 0,
        0 <= i < items.len(),
        forall|j: int| 0 <= j < items.len() ==> (#[trigger] items[j]).len() == w,
    ensures
        w * i + w <= flatten_items(items, w).len(),
        flatten_items(items, w).subrange(w * i, w * i + w) == items[i],
{
    let f = flatten_items(items, w);
    assert(w * i + w <= w * items.len()) by (nonlinear_arith)
        requires
            w > 0,
            0 <= i < items.len(),
    ;
    assert forall|t: int| 0 <= t < w implies #[trigger] f.subrange(w * i, w * i + w)[t] == items[i][t] by {
        assert((w * i + t) / w == i && (w * i + t) % w == t) by (nonlinear_arith)
            requires
                w > 0,
                0 <= t < w,
        ;
    }
    assert(f.subrange(w * i, w * i + w) =~= items[i]);
}

/// The element packed at `off` of the call data is read back there.
proof fn lemma_ext_at_window(deg: nat, s: Seq<u8>, off: int, c: Seq<int>)
    requires
        deg == 5 || deg == 8,
        canonical(c, deg),
        0 <= off,
        off + 32 <= s.len(),
        s.subrange(off, off + 32) == encode_spec(c),
    ensures
        ext_at(deg, s, off) == Ok::<Seq<int>, PrecompileFailure>(c),
{
    lemma_word_at_inside(s, off);
    lemma_decode_encode(c, deg, deg == 5);
}

/// The 32 bytes at `t` of item `i` of items laid out after a prefix.
proof fn lemma_item_window(prefix: Seq<u8>, items: Seq<Seq<u8>>, w: int, i: int, t: int)
    requires
        w > 0,
        0 <= i < items.len(),
        0 <= t,
        t + 32 <= w,
        forall|j: int| 0 <= j < items.len() ==> (#[trigger] items[j]).len() == w,
    ensures
        ({
            let s = prefix + flatten_items(items, w);
            let off = prefix.len() + w * i + t;
            &&& off + 32 <= s.len()
            &&& s.subrange(off, off + 32) == items[i].subrange(t, t + 32)
        }),
{
    let f = flatten_items(items, w);
    let s = prefix + f;
    lemma_flatten_item(items, w, i);
    let off = prefix.len() + w * i + t;
    assert forall|k: int| 0 <= k < 32 implies #[trigger] s.subrange(off, off + 32)[k] == items[i].subrange(t, t + 32)[k] by {
        assert(s[off + k] == f[w * i + t + k]);
        assert(f.subrange(w * i, w * i + w)[t + k] == f[w * i + t + k]);
    }
    assert(s.subrange(off, off + 32) =~= items[i].subrange(t, t + 32));
}

/// The `len` bytes at `t` of item `i` of items laid out after a prefix.
proof fn lemma_item_span(prefix: Seq<u8>, items: Seq<Seq<u8>>, w: int, i: int, t: int, len: int)
    requires
        w > 0,
        0 <= i < items.len(),
        0 <= t,
        0 <= len,
        t + len <= w,
        forall|j: int| 0 <= j < items.len() ==> (#[trigger] items[j]).len() == w,
    ensures
        ({
            let s = prefix + flatten_items(items, w);
            let off = prefix.len() + w * i + t;
            &&& off + len <= s.len()
            &&& s.subrange(off, off + len) == items[i].subrange(t, t + len)
        }),
{
    let f = flatten_items(items, w);
    let s = prefix + f;
    lemma_flatten_item(items, w, i);
    let off = prefix.len() + w * i + t;
    assert forall|k: int| 0 <= k < len implies #[trigger] s.subrange(off, off + len)[k] == items[i].subrange(t, t + len)[k] by {
        assert(s[off + k] == f[w * i + t + k]);
        assert(f.subrange(w * i, w * i + w)[t + k] == f[w * i + t + k]);
    }
    assert(s.subrange(off, off + len) =~= items[i].subrange(t, t + len));
}

/// The pairs of a MAC request as 64-byte items.
pub open spec fn mac_pair_items(a: Seq<Seq<int>>, b: Seq<Seq<int>>) -> Seq<Seq<u8>> {
    Seq::new(a.len(), |i: int| encode_spec(a[i]) + encode_spec(b[i]))
}

/// The header and accumulator part of a MAC request.
pub open spec fn mac_prefix(field_id: u16, acc: Option<Seq<int>>, n: nat) -> Seq<u8> {
    request_header(field_id, n, if acc is Some { 1u32 } else { 0u32 }) + match acc {
        Some(c) => encode_spec(c),
        None => Seq::empty(),
    }
}

/// The MAC call data is its prefix followed by its pairs.
proof fn lemma_mac_call_split(field_id: u16, acc: Option<Seq<int>>, a: Seq<Seq<int>>, b: Seq<Seq<int>>)
    ensures
        mac_call(field_id, acc, a, b) == mac_prefix(field_id, acc, a.len()) + flatten_items(
            mac_pair_items(a, b),
            64,
        ),
        mac_prefix(field_id, acc, a.len()).len() == mac_pairs_start(acc is Some),
        forall|j: int|
            0 <= j < mac_pair_items(a, b).len() ==> (#[trigger] mac_pair_items(a, b)[j]).len() == 64,
{
    reveal(mac_call);
    assert(mac_call(field_id, acc, a, b) =~= mac_prefix(field_id, acc, a.len()) + flatten_items(
        mac_pair_items(a, b),
        64,
    ));
}

/// Pair `i` of a MAC request is read back at its offset.
proof fn lemma_mac_pair_read(
    deg: nat,
    field_id: u16,
    acc: Option<Seq<int>>,
    a: Seq<Seq<int>>,
    b: Seq<Seq<int>>,
    i: int,
)
    requires
        deg == 5 || deg == 8,
        a.len() == b.len(),
        0 <= i < a.len(),
        canonical(a[i], deg),
        canonical(b[i], deg),
    ensures
        ({
            let s = mac_call(field_id, acc, a, b);
            let off = mac_pairs_start(acc is Some) + 64 * i;
            &&& ext_at(deg, s, off) == Ok::<Seq<int>, PrecompileFailure>(a[i])
            &&& ext_at(deg, s, off + 32) == Ok::<Seq<int>, PrecompileFailure>(b[i])
        }),
{
    let items = mac_pair_items(a, b);
    let prefix = mac_prefix(field_id, acc, a.len());
    let s = mac_call(field_id, acc, a, b);
    lemma_mac_call_split(field_id, acc, a, b);
    lemma_item_window(prefix, items, 64, i, 0);
    lemma_item_window(prefix, items, 64, i, 32);
    assert(items[i].subrange(0, 32) =~= encode_spec(a[i]));
    assert(items[i].subrange(32, 64) =~= encode_spec(b[i]));
    lemma_ext_at_window(deg, s, prefix.len() + 64 * i, a[i]);
    lemma_ext_at_window(deg, s, prefix.len() + 64 * i + 32, b[i]);
}

/// The accumulator of a MAC request is read back after the header.
proof fn lemma_mac_acc_read(deg: nat, field_id: u16, c: Seq<int>, a: Seq<Seq<int>>, b: Seq<Seq<int>>)
    requires
        deg == 5 || deg == 8,
        canonical(c, deg),
    ensures
        ext_at(deg, mac_call(field_id, Some(c), a, b), 8) == Ok::<Seq<int>, PrecompileFailure>(c),
{
    let s = mac_call(field_id, Some(c), a, b);
    let prefix = mac_prefix(field_id, Some(c), a.len());
    lemma_mac_call_split(field_id, Some(c), a, b);
    assert forall|t: int| 0 <= t < 32 implies #[trigger] s.subrange(8, 40)[t] == encode_spec(c)[t] by {
        assert(s[8 + t] == prefix[8 + t]);
    }
    assert(s.subrange(8, 40) =~= encode_spec(c));
    lemma_ext_at_window(deg, s, 8, c);
}

proof fn lemma_mac_fold_value(
    deg: nat,
    field_id: u16,
    acc: Option<Seq<int>>,
    a: Seq<Seq<int>>,
    b: Seq<Seq<int>>,
    k: nat,
)
    requires
        deg == 5 || deg == 8,
        a.len() == b.len(),
        k <= a.len(),
        all_canonical(a, deg),
        all_canonical(b, deg),
        acc matches Some(c) ==> canonical(c, deg),
    ensures
        mac_fold(deg, mac_call(field_id, acc, a, b), acc is Some, k) == Ok::<Seq<int>, PrecompileFailure>(
            mac_value(deg, acc, a, b, k),
        ),
    decreases k,
{
    if k == 0 {
        if acc is Some {
            lemma_mac_acc_read(deg, field_id, acc->Some_0, a, b);
        }
    } else {
        lemma_mac_fold_value(deg, field_id, acc, a, b, (k - 1) as nat);
        let i = k - 1;
        assert(canonical(a[i], deg));
        assert(canonical(b[i], deg));
        lemma_mac_pair_read(deg, field_id, acc, a, b, i);
    }
}

/// The header of a well-formed MAC request parses.
proof fn lemma_mac_header_parses(
    fields: Seq<ExtfieldMacFieldGasSchedule>,
    field_id: u16,
    acc: Option<Seq<int>>,
    a: Seq<Seq<int>>,
    b: Seq<Seq<int>>,
)
    requires
        first_mac_field(fields, field_id, 0) matches Some(i) && a.len() <= fields[i].n_max,
        a.len() == b.len(),
        a.len() < 0x1_0000,
    ensures
        mac_header_spec(mac_call(field_id, acc, a, b), fields) matches Ok(req) && req.n == a.len()
            && req.has_accumulator == (acc is Some) && req.field_id == field_id,
{
    reveal(mac_call);
    let s = mac_call(field_id, acc, a, b);
    let flags: u32 = if acc is Some { 1u32 } else { 0u32 };
    let rest = match acc {
        Some(c) => encode_spec(c),
        None => Seq::empty(),
    } + flatten_items(mac_pair_items(a, b), 64);
    assert(s =~= request_header(field_id, a.len(), flags) + rest);
    lemma_request_header_read(field_id, a.len(), flags, rest);
    assert(be_u16(s, 0) as u16 == field_id);
    crate::gas_model::lemma_first_mac_field_in(fields, field_id, 0);
}

/// `EXTFIELD_MAC` multiply-accumulates: on a well-formed request for a field
/// of the schedule, with canonical words and at most the field's `n_max`
/// pairs, it returns the packed `acc + sum a_i * b_i` (the accumulator being
/// zero when the request has none) over the extension the field id names.
pub proof fn law_extfield_mac_computes(
    fields: Seq<ExtfieldMacFieldGasSchedule>,
    deg: nat,
    field_id: u16,
    acc: Option<Seq<int>>,
    a: Seq<Seq<int>>,
    b: Seq<Seq<int>>,
)
    requires
        deg == 5 && field_id == EXTFIELD_MAC_FIELD_ID_KOALABEAR_EXT5 || deg == 8 && field_id
            == EXTFIELD_MAC_FIELD_ID_KOALABEAR_EXT8,
        first_mac_field(fields, field_id, 0) matches Some(i) && a.len() <= fields[i].n_max,
        a.len() == b.len(),
        a.len() < 0x1_0000,
        all_canonical(a, deg),
        all_canonical(b, deg),
        acc matches Some(c) ==> canonical(c, deg),
    ensures
        extfield_mac_spec(mac_call(field_id, acc, a, b), fields) == Ok::<Seq<u8>, PrecompileFailure>(
            encode_spec(mac_value(deg, acc, a, b, a.len())),
        ),
{
    lemma_mac_header_parses(fields, field_id, acc, a, b);
    lemma_mac_fold_value(deg, field_id, acc, a, b, a.len());
}

// ---------------------------------------------------------------------------
// EXTFIELD_LIN_PROD.
// ---------------------------------------------------------------------------

/// Term `i` of a LIN_PROD request in mode `flags`, as bytes: `alpha`, `beta`
/// and `x` words in the explicit mode; `beta` and `x` words when alpha is one;
/// a 4-byte `beta` scalar and an `x` word when beta is a base scalar.
pub open spec fn lin_prod_item(
    flags: u32,
    alpha: Seq<Seq<int>>,
    beta: Seq<Seq<int>>,
    scalars: Seq<int>,
    x: Seq<Seq<int>>,
    i: int,
) -> Seq<u8> {
    if flags == 0 {
        encode_spec(alpha[i]) + encode_spec(beta[i]) + encode_spec(x[i])
    } else if flags == 1 {
        encode_spec(beta[i]) + encode_spec(x[i])
    } else {
        be32_bytes(scalars[i]) + encode_spec(x[i])
    }
}

/// The terms of a LIN_PROD request as items.
pub open spec fn lin_prod_items(
    flags: u32,
    alpha: Seq<Seq<int>>,
    beta: Seq<Seq<int>>,
    scalars: Seq<int>,
    x: Seq<Seq<int>>,
) -> Seq<Seq<u8>> {
    Seq::new(x.len(), |i: int| lin_prod_item(flags, alpha, beta, scalars, x, i))
}

/// The call data of an `EXTFIELD_LIN_PROD` request with `x.len()` terms.
#[verifier::opaque]
pub open spec fn lin_prod_call(
    field_id: u16,
    flags: u32,
    alpha: Seq<Seq<int>>,
    beta: Seq<Seq<int>>,
    scalars: Seq<int>,
    x: Seq<Seq<int>>,
) -> Seq<u8> {
    request_header(field_id, x.len(), flags) + flatten_items(
        lin_prod_items(flags, alpha, beta, scalars, x),
        bytes_per_term(flags),
    )
}

/// Term `i` as an extension element.
pub open spec fn lin_prod_term_value(
    deg: nat,
    flags: u32,
    alpha: Seq<Seq<int>>,
    beta: Seq<Seq<int>>,
    scalars: Seq<int>,
    x: Seq<Seq<int>>,
    i: int,
) -> Seq<int> {
    if flags == 0 {
        ext_add(alpha[i], ext_mul(deg, beta[i], x[i]))
    } else if flags == 1 {
        ext_add(ext_const(deg, 1), ext_mul(deg, beta[i], x[i]))
    } else {
        ext_add(ext_const(deg, 1), ext_scale(x[i], scalars[i]))
    }
}

/// The product of the first `k` terms.
pub open spec fn lin_prod_value(
    deg: nat,
    flags: u32,
    alpha: Seq<Seq<int>>,
    beta: Seq<Seq<int>>,
    scalars: Seq<int>,
    x: Seq<Seq<int>>,
    k: nat,
) -> Seq<int>
    decreases k,
{
    if k == 0 {
        ext_const(deg, 1)
    } else {
        ext_mul(
            deg,
            lin_prod_value(deg, flags, alpha, beta, scalars, x, (k - 1) as nat),
            lin_prod_term_value(deg, flags, alpha, beta, scalars, x, k - 1),
        )
    }
}

/// The operands of a LIN_PROD request of mode `flags` are well formed.
pub open spec fn lin_prod_operands_ok(
    deg: nat,
    flags: u32,
    alpha: Seq<Seq<int>>,
    beta: Seq<Seq<int>>,
    scalars: Seq<int>,
    x: Seq<Seq<int>>,
) -> bool {
    &&& all_canonical(x, deg)
    &&& flags == 0 ==> alpha.len() == x.len() && all_canonical(alpha, deg)
    &&& flags != 3 ==> beta.len() == x.len() && all_canonical(beta, deg)
    &&& flags == 3 ==> scalars.len() == x.len() && forall|i: int|
        0 <= i < scalars.len() ==> 0 <= #[trigger] scalars[i] < modulus()
}

proof fn lemma_lin_prod_call_split(
    field_id: u16,
    flags: u32,
    alpha: Seq<Seq<int>>,
    beta: Seq<Seq<int>>,
    scalars: Seq<int>,
    x: Seq<Seq<int>>,
)
    requires
        known_lin_prod_flags(flags),
        flags == 0 ==> alpha.len() == x.len(),
        flags != 3 ==> beta.len() == x.len(),
        flags == 3 ==> scalars.len() == x.len(),
    ensures
        lin_prod_call(field_id, flags, alpha, beta, scalars, x) == request_header(field_id, x.len(), flags)
            + flatten_items(lin_prod_items(flags, alpha, beta, scalars, x), bytes_per_term(flags)),
        forall|j: int|
            0 <= j < x.len() ==> (#[trigger] lin_prod_items(flags, alpha, beta, scalars, x)[j]).len()
                == bytes_per_term(flags),
{
    reveal(lin_prod_call);
}

proof fn lemma_lin_prod_term_read_explicit(
    deg: nat,
    field_id: u16,
    flags: u32,
    alpha: Seq<Seq<int>>,
    beta: Seq<Seq<int>>,
    scalars: Seq<int>,
    x: Seq<Seq<int>>,
    i: int,
)
    requires
        deg == 5 || deg == 8,
        known_lin_prod_flags(flags),
        lin_prod_operands_ok(deg, flags, alpha, beta, scalars, x),
        0 <= i < x.len(),
        flags == 0,
    ensures
        lin_prod_term(
            deg,
            lin_prod_call(field_id, flags, alpha, beta, scalars, x),
            flags,
            8 + bytes_per_term(flags) * i,
        ) == Ok::<Seq<int>, PrecompileFailure>(lin_prod_term_value(deg, flags, alpha, beta, scalars, x, i)),
{
    let s = lin_prod_call(field_id, flags, alpha, beta, scalars, x);
    let items = lin_prod_items(flags, alpha, beta, scalars, x);
    let w = bytes_per_term(flags);
    let prefix = request_header(field_id, x.len(), flags);
    lemma_lin_prod_call_split(field_id, flags, alpha, beta, scalars, x);
    let off = 8 + w * i;
    let item = items[i];
    assert(canonical(x[i], deg));
    assert(canonical(alpha[i], deg));
    assert(canonical(beta[i], deg));
    lemma_item_span(prefix, items, w, i, 0, 32);
    lemma_item_span(prefix, items, w, i, 32, 32);
    lemma_item_span(prefix, items, w, i, 64, 32);
    assert(item.subrange(0, 32) =~= encode_spec(alpha[i]));
    assert(item.subrange(32, 64) =~= encode_spec(beta[i]));
    assert(item.subrange(64, 96) =~= encode_spec(x[i]));
    lemma_ext_at_window(deg, s, off, alpha[i]);
    lemma_ext_at_window(deg, s, off + 32, beta[i]);
    lemma_ext_at_window(deg, s, off + 64, x[i]);
}

proof fn lemma_lin_prod_term_read_ext_beta(
    deg: nat,
    field_id: u16,
    flags: u32,
    alpha: Seq<Seq<int>>,
    beta: Seq<Seq<int>>,
    scalars: Seq<int>,
    x: Seq<Seq<int>>,
    i: int,
)
    requires
        deg == 5 || deg == 8,
        known_lin_prod_flags(flags),
        lin_prod_operands_ok(deg, flags, alpha, beta, scalars, x),
        0 <= i < x.len(),
        flags == 1,
    ensures
        lin_prod_term(
            deg,
            lin_prod_call(field_id, flags, alpha, beta, scalars, x),
            flags,
            8 + bytes_per_term(flags) * i,
        ) == Ok::<Seq<int>, PrecompileFailure>(lin_prod_term_value(deg, flags, alpha, beta, scalars, x, i)),
{
    let s = lin_prod_call(field_id, flags, alpha, beta, scalars, x);
    let items = lin_prod_items(flags, alpha, beta, scalars, x);
    let w = bytes_per_term(flags);
    let prefix = request_header(field_id, x.len(), flags);
    lemma_lin_prod_call_split(field_id, flags, alpha, beta, scalars, x);
    let off = 8 + w * i;
    let item = items[i];
    assert(canonical(x[i], deg));
    assert(canonical(beta[i], deg));
    lemma_item_span(prefix, items, w, i, 0, 32);
    lemma_item_span(prefix, items, w, i, 32, 32);
    assert(item.subrange(0, 32) =~= encode_spec(beta[i]));
    assert(item.subrange(32, 64) =~= encode_spec(x[i]));
    lemma_ext_at_window(deg, s, off, beta[i]);
    lemma_ext_at_window(deg, s, off + 32, x[i]);
}

proof fn lemma_lin_prod_term_read_base_beta(
    deg: nat,
    field_id: u16,
    flags: u32,
    alpha: Seq<Seq<int>>,
    beta: Seq<Seq<int>>,
    scalars: Seq<int>,
    x: Seq<Seq<int>>,
    i: int,
)
    requires
        deg == 5 || deg == 8,
        known_lin_prod_flags(flags),
        lin_prod_operands_ok(deg, flags, alpha, beta, scalars, x),
        0 <= i < x.len(),
        flags == 3,
    ensures
        lin_prod_term(
            deg,
            lin_prod_call(field_id, flags, alpha, beta, scalars, x),
            flags,
            8 + bytes_per_term(flags) * i,
        ) == Ok::<Seq<int>, PrecompileFailure>(lin_prod_term_value(deg, flags, alpha, beta, scalars, x, i)),
{
    let s = lin_prod_call(field_id, flags, alpha, beta, scalars, x);
    let items = lin_prod_items(flags, alpha, beta, scalars, x);
    let w = bytes_per_term(flags);
    let prefix = request_header(field_id, x.len(), flags);
    lemma_lin_prod_call_split(field_id, flags, alpha, beta, scalars, x);
    let off = 8 + w * i;
    let item = items[i];
    assert(canonical(x[i], deg));
    let k = scalars[i];
    assert(0 <= k < modulus());
    lemma_item_span(prefix, items, w, i, 0, 4);
    lemma_item_span(prefix, items, w, i, 4, 32);
    assert(item.subrange(0, 4) =~= be32_bytes(k));
    assert(item.subrange(4, 36) =~= encode_spec(x[i]));
    lemma_scalar4_window(s, off, k);
    lemma_ext_at_window(deg, s, off + 4, x[i]);
}

/// Term `i` of a LIN_PROD request is read back at its offset.
proof fn lemma_lin_prod_term_read(
    deg: nat,
    field_id: u16,
    flags: u32,
    alpha: Seq<Seq<int>>,
    beta: Seq<Seq<int>>,
    scalars: Seq<int>,
    x: Seq<Seq<int>>,
    i: int,
)
    requires
        deg == 5 || deg == 8,
        known_lin_prod_flags(flags),
        lin_prod_operands_ok(deg, flags, alpha, beta, scalars, x),
        0 <= i < x.len(),
    ensures
        lin_prod_term(
            deg,
            lin_prod_call(field_id, flags, alpha, beta, scalars, x),
            flags,
            8 + bytes_per_term(flags) * i,
        ) == Ok::<Seq<int>, PrecompileFailure>(lin_prod_term_value(deg, flags, alpha, beta, scalars, x, i)),
{
    if flags == 0 {
        lemma_lin_prod_term_read_explicit(deg, field_id, flags, alpha, beta, scalars, x, i);
    } else if flags == 1 {
        lemma_lin_prod_term_read_ext_beta(deg, field_id, flags, alpha, beta, scalars, x, i);
    } else {
        lemma_lin_prod_term_read_base_beta(deg, field_id, flags, alpha, beta, scalars, x, i);
    }
}

/// A 4-byte scalar laid out at `off` is read back there.
proof fn lemma_scalar4_window(s: Seq<u8>, off: int, k: int)
    requires
        0 <= off,
        off + 4 <= s.len(),
        0 <= k < modulus(),
        s.subrange(off, off + 4) == be32_bytes(k),
    ensures
        scalar4_at(s, off) == Ok::<int, PrecompileFailure>(k),
{
    assert(s[off] == be32_bytes(k)[0] && s[off + 1] == be32_bytes(k)[1] && s[off + 2] == be32_bytes(k)[2]
        && s[off + 3] == be32_bytes(k)[3]);
    lemma_be32_read(k as u32);
}

proof fn lemma_lin_prod_fold_value(
    deg: nat,
    field_id: u16,
    flags: u32,
    alpha: Seq<Seq<int>>,
    beta: Seq<Seq<int>>,
    scalars: Seq<int>,
    x: Seq<Seq<int>>,
    k: nat,
)
    requires
        deg == 5 || deg == 8,
        known_lin_prod_flags(flags),
        lin_prod_operands_ok(deg, flags, alpha, beta, scalars, x),
        k <= x.len(),
    ensures
        lin_prod_fold(deg, lin_prod_call(field_id, flags, alpha, beta, scalars, x), flags, k) == Ok::<
            Seq<int>,
            PrecompileFailure,
        >(lin_prod_value(deg, flags, alpha, beta, scalars, x, k)),
    decreases k,
{
    if k > 0 {
        lemma_lin_prod_fold_value(deg, field_id, flags, alpha, beta, scalars, x, (k - 1) as nat);
        lemma_lin_prod_term_read(deg, field_id, flags, alpha, beta, scalars, x, k - 1);
    }
}

/// The header of a well-formed LIN_PROD request parses.
proof fn lemma_lin_prod_header_parses(
    fields: Seq<ExtfieldLinProdFieldGasSchedule>,
    field_id: u16,
    flags: u32,
    alpha: Seq<Seq<int>>,
    beta: Seq<Seq<int>>,
    scalars: Seq<int>,
    x: Seq<Seq<int>>,
)
    requires
        known_lin_prod_flags(flags),
        lin_prod_mode_index(fields, field_id, flags) matches Some((i, j)) && x.len() <= fields[i].n_max,
        x.len() < 0x1_0000,
        flags == 0 ==> alpha.len() == x.len(),
        flags != 3 ==> beta.len() == x.len(),
        flags == 3 ==> scalars.len() == x.len(),
    ensures
        lin_prod_header_spec(lin_prod_call(field_id, flags, alpha, beta, scalars, x), fields) matches Ok(req)
            && req.n == x.len() && req.flags == flags && req.field_id == field_id,
{
    let s = lin_prod_call(field_id, flags, alpha, beta, scalars, x);
    let rest = flatten_items(lin_prod_items(flags, alpha, beta, scalars, x), bytes_per_term(flags));
    lemma_lin_prod_call_split(field_id, flags, alpha, beta, scalars, x);
    lemma_request_header_read(field_id, x.len(), flags, rest);
    assert(be_u16(s, 0) as u16 == field_id);
    assert(be_u32(s, 4) as u32 == flags);
    let (i, j) = lin_prod_mode_index(fields, field_id, flags)->Some_0;
    crate::gas_model::lemma_first_lin_prod_field_in(fields, field_id, 0);
    crate::gas_model::lemma_first_lin_prod_mode_in(fields[i].modes@, flags, 0);
}

/// `EXTFIELD_LIN_PROD` multiplies its terms: on a well-formed request for a
/// field and mode of the schedule, with canonical operands and at most the
/// field's `n_max` terms, it returns the packed product of the terms
/// (`alpha + beta * x`, `1 + beta * x` or `1 + x * beta` as the mode says),
/// one for no terms, over the extension the field id names.
pub proof fn law_extfield_lin_prod_computes(
    fields: Seq<ExtfieldLinProdFieldGasSchedule>,
    deg: nat,
    field_id: u16,
    flags: u32,
    alpha: Seq<Seq<int>>,
    beta: Seq<Seq<int>>,
    scalars: Seq<int>,
    x: Seq<Seq<int>>,
)
    requires
        deg == 5 && field_id == EXTFIELD_MAC_FIELD_ID_KOALABEAR_EXT5 || deg == 8 && field_id
            == EXTFIELD_MAC_FIELD_ID_KOALABEAR_EXT8,
        known_lin_prod_flags(flags),
        lin_prod_mode_index(fields, field_id, flags) matches Some((i, j)) && x.len() <= fields[i].n_max,
        x.len() < 0x1_0000,
        lin_prod_operands_ok(deg, flags, alpha, beta, scalars, x),
    ensures
        extfield_lin_prod_spec(lin_prod_call(field_id, flags, alpha, beta, scalars, x), fields) == Ok::<
            Seq<u8>,
            PrecompileFailure,
        >(encode_spec(lin_prod_value(deg, flags, alpha, beta, scalars, x, x.len()))),
{
    lemma_lin_prod_header_parses(fields, field_id, flags, alpha, beta, scalars, x);
    lemma_lin_prod_fold_value(deg, field_id, flags, alpha, beta, scalars, x, x.len());
}

/// Multiplying by a polynomial with only a constant coefficient scales.
proof fn lemma_conv_sum_const(a: Seq<int>, b: Seq<int>, k: int, i: nat)
    requires
        1 <= i <= a.len(),
        forall|j: int| 1 <= j < a.len() ==> a[j] == 0,
    ensures
        conv_sum(a, b, k, i) == if 0 <= k < b.len() { a[0] * b[k] } else { 0 },
    decreases i,
{
    if i > 1 {
        lemma_conv_sum_const(a, b, k, (i - 1) as nat);
        assert(a[i - 1] == 0);
    } else {
        assert(conv_sum(a, b, k, 0) == 0);
    }
}

/// A base-field element embedded as a constant extension element multiplies
/// like the base-field scalar.
pub proof fn lemma_const_mul_is_scale(deg: nat, c: int, x: Seq<int>)
    requires
        deg == 5 || deg == 8,
        x.len() == deg,
    ensures
        ext_mul(deg, ext_const(deg, c), x) == ext_scale(x, c),
{
    let a = ext_const(deg, c);
    assert forall|k: int| #[trigger] conv(a, x, k) == if 0 <= k < x.len() { c * x[k] } else { 0 } by {
        lemma_conv_sum_const(a, x, k, deg);
    }
    if deg == 5 {
        assert(conv(a, x, 0) == c * x[0] && conv(a, x, 1) == c * x[1] && conv(a, x, 2) == c * x[2]
            && conv(a, x, 3) == c * x[3] && conv(a, x, 4) == c * x[4]);
        assert(conv(a, x, 5) == 0 && conv(a, x, 6) == 0 && conv(a, x, 7) == 0 && conv(a, x, 8) == 0);
        assert(quintic_mul(a, x) =~= ext_scale(x, c)) by {
            assert(c * x[0] == x[0] * c && c * x[1] == x[1] * c && c * x[2] == x[2] * c && c * x[3] == x[3]
                * c && c * x[4] == x[4] * c) by (nonlinear_arith);
        }
    } else {
        assert forall|k: int| 0 <= k < 8 implies #[trigger] octic_mul(a, x)[k] == ext_scale(x, c)[k] by {
            assert(conv(a, x, k) == c * x[k]);
            assert(conv(a, x, k + 8) == 0);
            assert(c * x[k] == x[k] * c) by (nonlinear_arith);
        }
        assert(octic_mul(a, x) =~= ext_scale(x, c));
    }
}

/// The two alpha-one LIN_PROD modes agree: a term whose `beta` is a base
/// scalar gives the same product as the term whose `beta` is that scalar
/// embedded in the extension; and the explicit mode with every `alpha` one
/// gives the same product as the alpha-one mode.
pub proof fn law_lin_prod_modes_agree(
    deg: nat,
    alpha: Seq<Seq<int>>,
    beta: Seq<Seq<int>>,
    scalars: Seq<int>,
    x: Seq<Seq<int>>,
    k: nat,
)
    requires
        deg == 5 || deg == 8,
        k <= x.len(),
        all_canonical(x, deg),
        beta.len() == x.len(),
        alpha.len() == x.len(),
        forall|i: int| 0 <= i < x.len() ==> #[trigger] alpha[i] == ext_const(deg, 1),
    ensures
        (forall|i: int| 0 <= i < x.len() ==> #[trigger] beta[i] == ext_const(deg, scalars[i]))
            ==> lin_prod_value(deg, 1, alpha, beta, scalars, x, k) == lin_prod_value(
            deg,
            3,
            alpha,
            beta,
            scalars,
            x,
            k,
        ),
        lin_prod_value(deg, 0, alpha, beta, scalars, x, k) == lin_prod_value(deg, 1, alpha, beta, scalars, x, k),
    decreases k,
{
    if k > 0 {
        law_lin_prod_modes_agree(deg, alpha, beta, scalars, x, (k - 1) as nat);
        let i = k - 1;
        assert(canonical(x[i], deg));
        if forall|i: int| 0 <= i < x.len() ==> #[trigger] beta[i] == ext_const(deg, scalars[i]) {
            assert(beta[i] == ext_const(deg, scalars[i]));
            lemma_const_mul_is_scale(deg, scalars[i], x[i]);
        }
        assert(alpha[i] == ext_const(deg, 1));
    }
}

// ---------------------------------------------------------------------------
// The exported vectors are the precompiles' answers.
// ---------------------------------------------------------------------------

/// Every arithmetic vector holds what the quintic arithmetic precompiles
/// return on its packed inputs.
pub proof fn law_arith_vectors_match_precompiles(v: Ext5ArithmeticVector, s: u64)
    requires
        arith_vector_drawn(v, s),
    ensures
        ({
            let pa = encode_spec(quintic_draw(s));
            let pb = encode_spec(quintic_draw(xorshift_iter(s, 5)));
            let pk = u32_word_spec(base_draw(xorshift_iter(s, 10)));
            &&& v.packed_a@ == hex_word_spec(pa)
            &&& v.packed_b@ == hex_word_spec(pb)
            &&& v.scalar@ == hex_word_spec(pk)
            &&& arith_single_spec(5, pa + pb, ArithOp::Add) matches Ok(r) && v.packed_add@ == hex_word_spec(r)
            &&& arith_single_spec(5, pa + pb, ArithOp::Sub) matches Ok(r) && v.packed_sub@ == hex_word_spec(r)
            &&& arith_single_spec(5, pa + pb, ArithOp::Mul) matches Ok(r) && v.packed_mul@ == hex_word_spec(r)
            &&& arith_single_spec(5, pa, ArithOp::Square) matches Ok(r) && v.packed_square_a@ == hex_word_spec(
                r,
            )
            &&& arith_single_spec(5, pa + pk, ArithOp::MulBase) matches Ok(r) && v.packed_mul_base@
                == hex_word_spec(r)
        }),
{
    let a = quintic_draw(s);
    let b = quintic_draw(xorshift_iter(s, 5));
    let k = base_draw(xorshift_iter(s, 10));
    law_arith_precompiles_on_packed(5, a, b, k);
}

/// The first elements `a_i` of the pairs of a MAC vector.
pub open spec fn mac_vector_pairs_a(s: u64, include_accumulator: bool, n: nat) -> Seq<Seq<int>> {
    Seq::new(n, |i: int| mac_vector_a(s, include_accumulator, i))
}

/// The second elements `b_i` of the pairs of a MAC vector.
pub open spec fn mac_vector_pairs_b(s: u64, include_accumulator: bool, n: nat) -> Seq<Seq<int>> {
    Seq::new(n, |i: int| mac_vector_b(s, include_accumulator, i))
}

/// The accumulator of a MAC vector, if it includes one.
pub open spec fn mac_vector_acc(s: u64, include_accumulator: bool) -> Option<Seq<int>> {
    if include_accumulator {
        Some(quintic_draw(s))
    } else {
        None
    }
}

proof fn lemma_mac_vector_sum_value(s: u64, include_accumulator: bool, n: nat, k: nat)
    requires
        k <= n,
    ensures
        mac_vector_sum(s, include_accumulator, k) == mac_value(
            5,
            mac_vector_acc(s, include_accumulator),
            mac_vector_pairs_a(s, include_accumulator, n),
            mac_vector_pairs_b(s, include_accumulator, n),
            k,
        ),
    decreases k,
{
    if k > 0 {
        lemma_mac_vector_sum_value(s, include_accumulator, n, (k - 1) as nat);
    }
}

/// Every MAC vector holds what `EXTFIELD_MAC` returns, for the quintic
/// field, on the request made of its accumulator and pairs.
pub proof fn law_mac_vectors_match_precompile(
    v: ExtfieldMacVector,
    s: u64,
    n: nat,
    include_accumulator: bool,
    fields: Seq<ExtfieldMacFieldGasSchedule>,
)
    requires
        mac_vector_drawn(v, s, n, include_accumulator),
        first_mac_field(fields, EXTFIELD_MAC_FIELD_ID_KOALABEAR_EXT5, 0) matches Some(i) && n <= fields[i].n_max,
        n < 0x1_0000,
    ensures
        ({
            let a = mac_vector_pairs_a(s, include_accumulator, n);
            let b = mac_vector_pairs_b(s, include_accumulator, n);
            &&& forall|i: int| 0 <= i < n ==> #[trigger] v.packed_a@[i]@ == hex_word_spec(encode_spec(a[i]))
                && v.packed_b@[i]@ == hex_word_spec(encode_spec(b[i]))
            &&& extfield_mac_spec(
                mac_call(EXTFIELD_MAC_FIELD_ID_KOALABEAR_EXT5, mac_vector_acc(s, include_accumulator), a, b),
                fields,
            ) matches Ok(r) && v.packed_output@ == hex_word_spec(r)
        }),
{
    let a = mac_vector_pairs_a(s, include_accumulator, n);
    let b = mac_vector_pairs_b(s, include_accumulator, n);
    assert(all_canonical(a, 5));
    assert(all_canonical(b, 5));
    lemma_mac_vector_sum_value(s, include_accumulator, n, n);
    law_extfield_mac_computes(fields, 5, EXTFIELD_MAC_FIELD_ID_KOALABEAR_EXT5, mac_vector_acc(s, include_accumulator), a, b);
}

} // verus!
