//! The packed 32-byte word format of extension-field elements.
//!
//! A quintic element occupies the first 20 bytes as five big-endian `u32`
//! coefficients, lowest degree first, followed by 12 zero bytes. An octic
//! element fills all 32 bytes with eight big-endian `u32` coefficients.
//! Every coefficient must be canonical, that is below the KoalaBear prime.

use crate::field::{
    canonical, ints, modulus, OcticBinExtension, QuinticTrinomialExtension,
};
use vstd::prelude::*;
use vstd::slice::slice_subrange;
use vstd::string::{StringExecFns, StringSliceAdditionalSpecFns};

pub use crate::field::KOALABEAR_MODULUS;

verus! {

/// Why a packed word was refused.
#[derive(Debug, Clone, Copy, PartialEq, Eq, Structural)]
pub enum CodecError {
    /// The word is not 32 bytes long.
    WrongLength { len: usize },
    /// A quintic word has a nonzero byte in its trailing 12 bytes.
    LowBitsNotZero,
    /// Coefficient `index` is `value`, which is not below the prime.
    CoefficientOutOfRange { index: usize, value: u32 },
}

/// The big-endian `u32` stored in `b[off..off + 4]`.
pub open spec fn be_u32(b: Seq<u8>, off: int) -> int {
    b[off] * 0x100_0000 + b[off + 1] * 0x1_0000 + b[off + 2] * 0x100 + b[off + 3]
}

/// Coefficient `i` of a packed word.
pub open spec fn packed_coeff(b: Seq<u8>, i: int) -> int {
    be_u32(b, 4 * i)
}

/// The first `j` in `i..n` whose packed coefficient is not canonical.
pub open spec fn first_bad_coeff(b: Seq<u8>, i: int, n: int) -> Option<int>
    decreases n - i,
{
    if i >= n {
        None
    } else if packed_coeff(b, i) >= modulus() {
        Some(i)
    } else {
        first_bad_coeff(b, i + 1, n)
    }
}

/// Where no coefficient of `i..n` is out of range, each is canonical.
proof fn lemma_no_bad_coeff(b: Seq<u8>, i: int, n: int)
    requires
        first_bad_coeff(b, i, n) is None,
    ensures
        forall|j: int| i <= j < n ==> packed_coeff(b, j) < modulus(),
    decreases n - i,
{
    if i < n {
        lemma_no_bad_coeff(b, i + 1, n);
    }
}

/// What a successful decode gives is canonical.
pub proof fn lemma_decoded_canonical(b: Seq<u8>, n: nat, check_tail: bool)
    requires
        decode_coeffs_spec(b, n, check_tail) is Ok,
    ensures
        canonical(decode_coeffs_spec(b, n, check_tail)->Ok_0, n),
{
    lemma_no_bad_coeff(b, 0, n as int);
    let c = decode_coeffs_spec(b, n, check_tail)->Ok_0;
    assert forall|i: int| 0 <= i < n implies 0 <= #[trigger] c[i] < modulus() by {
        assert(c[i] == packed_coeff(b, i));
    }
}

/// Some byte of `b[from..to]` is nonzero.
pub open spec fn any_nonzero(b: Seq<u8>, from: int, to: int) -> bool {
    exists|k: int| from <= k < to && b[k] != 0
}

/// What decoding `n` packed coefficients gives; `check_tail` asks that the
/// bytes after the quintic coefficients be zero.
pub open spec fn decode_coeffs_spec(b: Seq<u8>, n: nat, check_tail: bool) -> Result<Seq<int>, CodecError> {
    if b.len() != 32 {
        Err(CodecError::WrongLength { len: b.len() as usize })
    } else if check_tail && any_nonzero(b, 20, 32) {
        Err(CodecError::LowBitsNotZero)
    } else {
        match first_bad_coeff(b, 0, n as int) {
            Some(i) => Err(
                CodecError::CoefficientOutOfRange { index: i as usize, value: packed_coeff(b, i) as u32 },
            ),
            None => Ok(Seq::new(n, |i: int| packed_coeff(b, i))),
        }
    }
}

/// What decoding a packed quintic word gives.
pub open spec fn decode_ext5_spec(b: Seq<u8>) -> Result<Seq<int>, CodecError> {
    decode_coeffs_spec(b, 5, true)
}

/// What decoding a packed octic word gives.
pub open spec fn decode_ext8_spec(b: Seq<u8>) -> Result<Seq<int>, CodecError> {
    decode_coeffs_spec(b, 8, false)
}

/// Byte `j` (0 = most significant) of the big-endian `u32` encoding of `v`.
pub open spec fn be_byte(v: int, j: int) -> u8 {
    if j == 0 {
        ((v / 0x100_0000) % 0x100) as u8
    } else if j == 1 {
        ((v / 0x1_0000) % 0x100) as u8
    } else if j == 2 {
        ((v / 0x100) % 0x100) as u8
    } else {
        (v % 0x100) as u8
    }
}

/// The packed word of the coefficients `c`: each as four big-endian bytes,
/// then zero bytes up to 32.
pub open spec fn encode_spec(c: Seq<int>) -> Seq<u8> {
    Seq::new(32, |k: int| if k / 4 < c.len() { be_byte(c[k / 4], k % 4) } else { 0u8 })
}

/// A decode result against its statement.
pub open spec fn decoded_as<const N: usize>(
    r: Result<[u32; N], CodecError>,
    s: Result<Seq<int>, CodecError>,
) -> bool {
    match s {
        Ok(c) => r is Ok && ints(r->Ok_0@) == c,
        Err(e) => r == Err::<[u32; N], CodecError>(e),
    }
}

/// The big-endian `u32` at `bytes[off..off + 4]`.
fn read_be_u32(bytes: &[u8], off: usize) -> (r: u32)
    requires
        off + 4 <= bytes@.len(),
    ensures
        r as int == be_u32(bytes@, off as int),
{
    let b0 = bytes[off] as u32;
    let b1 = bytes[off + 1] as u32;
    let b2 = bytes[off + 2] as u32;
    let b3 = bytes[off + 3] as u32;
    b0 * 0x100_0000 + b1 * 0x1_0000 + b2 * 0x100 + b3
}

/// Decodes the five coefficients of a packed quintic word, checking its
/// length, its zero tail and the range of each coefficient, in that order.
pub fn decode_packed_ext5_coeffs(bytes: &[u8]) -> (r: Result<[u32; 5], CodecError>)
    ensures
        decoded_as(r, decode_ext5_spec(bytes@)),
{
    if bytes.len() != 32 {
        return Err(CodecError::WrongLength { len: bytes.len() });
    }
    let mut k: usize = 20;
    while k < 32
        invariant
            20 <= k <= 32,
            bytes@.len() == 32,
            forall|j: int| 20 <= j < k ==> bytes@[j] == 0,
        decreases 32 - k,
    {
        if bytes[k] != 0 {
            return Err(CodecError::LowBitsNotZero);
        }
        k = k + 1;
    }
    assert(!any_nonzero(bytes@, 20, 32));
    decode_coeffs::<5>(bytes, true)
}

/// Decodes the eight coefficients of a packed octic word, checking its
/// length and the range of each coefficient, in that order.
pub fn decode_packed_ext8_coeffs(bytes: &[u8]) -> (r: Result<[u32; 8], CodecError>)
    ensures
        decoded_as(r, decode_ext8_spec(bytes@)),
{
    if bytes.len() != 32 {
        return Err(CodecError::WrongLength { len: bytes.len() });
    }
    decode_coeffs::<8>(bytes, false)
}

/// The coefficient loop shared by both decoders.
fn decode_coeffs<const N: usize>(bytes: &[u8], check_tail: bool) -> (r: Result<[u32; N], CodecError>)
    requires
        N == 5 || N == 8,
        bytes@.len() == 32,
        !(check_tail && any_nonzero(bytes@, 20, 32)),
    ensures
        decoded_as(r, decode_coeffs_spec(bytes@, N as nat, check_tail)),
{
    let mut coeffs = [0u32; N];
    let mut i: usize = 0;
    while i < N
        invariant
            N == 5 || N == 8,
            0 <= i <= N,
            bytes@.len() == 32,
            !(check_tail && any_nonzero(bytes@, 20, 32)),
            first_bad_coeff(bytes@, 0, N as int) == first_bad_coeff(bytes@, i as int, N as int),
            forall|j: int| 0 <= j < i ==> #[trigger] coeffs[j] as int == packed_coeff(bytes@, j),
        decreases N - i,
    {
        let v = read_be_u32(bytes, 4 * i);
        if v >= KOALABEAR_MODULUS {
            assert(first_bad_coeff(bytes@, i as int, N as int) == Some(i as int));
            assert(packed_coeff(bytes@, i as int) as u32 == v);
            return Err(CodecError::CoefficientOutOfRange { index: i, value: v });
        }
        coeffs[i] = v;
        i = i + 1;
    }
    assert(ints(coeffs@) =~= Seq::new(N as nat, |j: int| packed_coeff(bytes@, j)));
    Ok(coeffs)
}

/// An element decode result against its statement.
pub open spec fn element_decoded_as<T: View<V = Seq<int>>>(
    r: Result<T, CodecError>,
    s: Result<Seq<int>, CodecError>,
) -> bool {
    match s {
        Ok(c) => r is Ok && r->Ok_0@ == c,
        Err(e) => r is Err && r->Err_0 == e,
    }
}

/// Decodes a packed quintic word into a field element.
pub fn decode_packed_ext5_word(bytes: &[u8]) -> (r: Result<QuinticTrinomialExtension, CodecError>)
    ensures
        element_decoded_as(r, decode_ext5_spec(bytes@)),
{
    if bytes.len() != 32 {
        return Err(CodecError::WrongLength { len: bytes.len() });
    }
    match decode_packed_ext5_coeffs(bytes) {
        Ok(c) => {
            proof {
                lemma_decoded_canonical(bytes@, 5, true);
                assert forall|i: int| 0 <= i < 5 implies #[trigger] c[i] < KOALABEAR_MODULUS by {
                    assert(ints(c@)[i] == c[i] as int);
                }
            }
            Ok(QuinticTrinomialExtension::from_coeffs(c))
        },
        Err(e) => Err(e),
    }
}

/// Decodes a packed octic word into a field element.
pub fn decode_packed_ext8_word(bytes: &[u8]) -> (r: Result<OcticBinExtension, CodecError>)
    ensures
        element_decoded_as(r, decode_ext8_spec(bytes@)),
{
    if bytes.len() != 32 {
        return Err(CodecError::WrongLength { len: bytes.len() });
    }
    match decode_packed_ext8_coeffs(bytes) {
        Ok(c) => {
            proof {
                lemma_decoded_canonical(bytes@, 8, false);
                assert forall|i: int| 0 <= i < 8 implies #[trigger] c[i] < KOALABEAR_MODULUS by {
                    assert(ints(c@)[i] == c[i] as int);
                }
            }
            Ok(OcticBinExtension::from_coeffs(c))
        },
        Err(e) => Err(e),
    }
}

/// Writes `v` big-endian into `out[off..off + 4]`.
fn write_be_u32(out: &mut [u8; 32], off: usize, v: u32)
    requires
        off + 4 <= 32,
    ensures
        forall|k: int|
            0 <= k < 32 ==> #[trigger] final(out)[k] == if off <= k < off + 4 {
                be_byte(v as int, k - off)
            } else {
                old(out)[k]
            },
{
    out[off] = ((v / 0x100_0000) % 0x100) as u8;
    out[off + 1] = ((v / 0x1_0000) % 0x100) as u8;
    out[off + 2] = ((v / 0x100) % 0x100) as u8;
    out[off + 3] = (v % 0x100) as u8;
}

/// Packs canonical coefficients into a 32-byte word.
fn encode_coeffs<const N: usize>(c: &[u32; N]) -> (r: [u8; 32])
    requires
        N <= 8,
    ensures
        r@ == encode_spec(ints(c@)),
{
    let mut out = [0u8; 32];
    let mut i: usize = 0;
    while i < N
        invariant
            N <= 8,
            0 <= i <= N,
            forall|k: int|
                0 <= k < 32 ==> #[trigger] out[k] == if k < 4 * i {
                    be_byte(c[k / 4] as int, k % 4)
                } else {
                    0u8
                },
        decreases N - i,
    {
        write_be_u32(&mut out, 4 * i, c[i]);
        i = i + 1;
    }
    assert(out@ =~= encode_spec(ints(c@)));
    out
}

/// Packs a quintic element: five big-endian coefficients, then 12 zero bytes.
pub fn encode_packed_ext5_word(value: &QuinticTrinomialExtension) -> (r: [u8; 32])
    ensures
        r@ == encode_spec(value@),
{
    let c = value.coeffs();
    encode_coeffs(&c)
}

/// Packs an octic element: eight big-endian coefficients.
pub fn encode_packed_ext8_word(value: &OcticBinExtension) -> (r: [u8; 32])
    ensures
        r@ == encode_spec(value@),
{
    let c = value.coeffs();
    encode_coeffs(&c)
}

// ---------------------------------------------------------------------------
// The codec laws.
// ---------------------------------------------------------------------------

/// Reading back the four big-endian bytes of a `u32` gives the `u32`.
pub proof fn lemma_be_bytes_read_back(v: u32)
    ensures
        be_byte(v as int, 0) * 0x100_0000 + be_byte(v as int, 1) * 0x1_0000 + be_byte(v as int, 2)
            * 0x100 + be_byte(v as int, 3) == v,
{
    assert(((v / 0x100_0000) % 0x100) * 0x100_0000 + ((v / 0x1_0000) % 0x100) * 0x1_0000 + ((v
        / 0x100) % 0x100) * 0x100 + v % 0x100 == v) by (bit_vector);
}

/// Writing back the value read from four bytes gives the bytes.
proof fn lemma_be_bytes_write_back(b0: u8, b1: u8, b2: u8, b3: u8)
    ensures
        ({
            let v = b0 * 0x100_0000 + b1 * 0x1_0000 + b2 * 0x100 + b3;
            &&& be_byte(v, 0) == b0
            &&& be_byte(v, 1) == b1
            &&& be_byte(v, 2) == b2
            &&& be_byte(v, 3) == b3
        }),
{
    let v: u32 = ((b0 as u32) * 0x100_0000 + (b1 as u32) * 0x1_0000 + (b2 as u32) * 0x100 + (b3 as u32)) as u32;
    assert(((v / 0x100_0000) % 0x100) as u8 == b0 && ((v / 0x1_0000) % 0x100) as u8 == b1 && ((v
        / 0x100) % 0x100) as u8 == b2 && (v % 0x100) as u8 == b3) by (bit_vector)
        requires
            v == (b0 as u32) * 0x100_0000 + (b1 as u32) * 0x1_0000 + (b2 as u32) * 0x100 + (b3 as u32),
    ;
}

/// The coefficients read from a packed word are those that were packed.
proof fn lemma_packed_coeff_of_encode(c: Seq<int>, i: int)
    requires
        c.len() <= 8,
        0 <= i < c.len(),
        0 <= c[i] < 0x1_0000_0000,
    ensures
        packed_coeff(encode_spec(c), i) == c[i],
{
    let b = encode_spec(c);
    assert((4 * i) / 4 == i && (4 * i + 1) / 4 == i && (4 * i + 2) / 4 == i && (4 * i + 3) / 4 == i);
    assert((4 * i) % 4 == 0 && (4 * i + 1) % 4 == 1 && (4 * i + 2) % 4 == 2 && (4 * i + 3) % 4 == 3);
    lemma_be_bytes_read_back(c[i] as u32);
}

/// Decoding a packed canonical element gives the element back.
pub proof fn lemma_decode_encode(c: Seq<int>, n: nat, check_tail: bool)
    requires
        n == 5 || (n == 8 && !check_tail),
        canonical(c, n),
    ensures
        decode_coeffs_spec(encode_spec(c), n, check_tail) == Ok::<Seq<int>, CodecError>(c),
{
    let b = encode_spec(c);
    assert forall|k: int| 20 <= k < 32 && n == 5 implies b[k] == 0 by {
        assert(k / 4 >= 5);
    }
    assert forall|i: int| 0 <= i < n implies #[trigger] packed_coeff(b, i) == c[i] by {
        lemma_packed_coeff_of_encode(c, i);
    }
    lemma_first_bad_none(b, c, 0, n as int);
    assert(Seq::new(n, |i: int| packed_coeff(b, i)) =~= c);
}

proof fn lemma_first_bad_none(b: Seq<u8>, c: Seq<int>, i: int, n: int)
    requires
        0 <= i,
        canonical(c, n as nat),
        forall|j: int| 0 <= j < n ==> #[trigger] packed_coeff(b, j) == c[j],
    ensures
        first_bad_coeff(b, i, n) is None,
    decreases n - i,
{
    if i < n {
        lemma_first_bad_none(b, c, i + 1, n);
    }
}

/// Packing what a word decodes to gives the word back.
pub proof fn lemma_encode_decode(b: Seq<u8>, n: nat, check_tail: bool)
    requires
        n == 5 && check_tail || n == 8,
        decode_coeffs_spec(b, n, check_tail) is Ok,
    ensures
        encode_spec(decode_coeffs_spec(b, n, check_tail)->Ok_0) == b,
{
    let c = decode_coeffs_spec(b, n, check_tail)->Ok_0;
    let e = encode_spec(c);
    assert forall|k: int| 0 <= k < 32 implies #[trigger] e[k] == b[k] by {
        let i = k / 4;
        if i < n {
            let j = k % 4;
            assert(k == 4 * i + j);
            lemma_be_bytes_write_back(b[4 * i], b[4 * i + 1], b[4 * i + 2], b[4 * i + 3]);
        } else {
            assert(!any_nonzero(b, 20, 32));
        }
    }
    assert(e =~= b);
}

// ---------------------------------------------------------------------------
// Hex text.
// ---------------------------------------------------------------------------

/// The lowercase hex digit of `d` (`0 <= d < 16`).
pub open spec fn hex_digit(d: int) -> char {
    seq!['0', '1', '2', '3', '4', '5', '6', '7', '8', '9', 'a', 'b', 'c', 'd', 'e', 'f'][d]
}

/// Two lowercase hex digits per byte, most significant digit first.
pub open spec fn hex_lower(b: Seq<u8>) -> Seq<char> {
    Seq::new(2 * b.len(), |k: int| if k % 2 == 0 { hex_digit(b[k / 2] as int / 16) } else { hex_digit(b[k / 2] as int % 16) })
}

/// `0x` followed by the lowercase hex digits of `b`.
pub open spec fn hex_word_spec(b: Seq<u8>) -> Seq<char> {
    seq!['0', 'x'] + hex_lower(b)
}

/// `hex::encode`: two lowercase hex digits per byte, most significant first.
#[verifier::external_body]
fn hex_encode(bytes: &[u8]) -> (r: String)
    ensures
        r@ == hex_lower(bytes@),
{
    hex::encode(bytes)
}

/// The word as `0x` followed by 64 lowercase hex digits.
pub fn encode_hex_word(bytes: &[u8; 32]) -> (r: String)
    ensures
        r@ == hex_word_spec(bytes@),
{
    let digits = hex_encode(bytes.as_slice());
    let prefix = "0x";
    proof {
        reveal_strlit("0x");
    }
    let mut out = String::from_str(prefix);
    out.append(digits.as_str());
    assert(prefix@ =~= seq!['0', 'x']);
    out
}

/// The 32-byte big-endian word of a `u32`: 28 zero bytes, then its four bytes.
pub open spec fn u32_word_spec(v: int) -> Seq<u8> {
    Seq::new(32, |k: int| if k < 28 { 0u8 } else { be_byte(v, k - 28) })
}

/// The 32-byte big-endian word of a `u32`.
pub fn u32_word(v: u32) -> (r: [u8; 32])
    ensures
        r@ == u32_word_spec(v as int),
{
    let mut out = [0u8; 32];
    write_be_u32(&mut out, 28, v);
    assert(out@ =~= u32_word_spec(v as int));
    out
}

// ---------------------------------------------------------------------------
// 256-bit words.
// ---------------------------------------------------------------------------

/// `256^e`.
pub open spec fn pow256(e: nat) -> nat
    decreases e,
{
    if e == 0 {
        1
    } else {
        256 * pow256((e - 1) as nat)
    }
}

/// The value of a big-endian byte string.
pub open spec fn be_value(b: Seq<u8>) -> nat
    decreases b.len(),
{
    if b.len() == 0 {
        0
    } else {
        be_value(b.drop_last()) * 256 + b.last() as nat
    }
}

/// The `n` big-endian bytes of `v` (its value modulo `256^n`).
pub open spec fn be_bytes_of(v: nat, n: nat) -> Seq<u8> {
    Seq::new(n, |k: int| ((v / pow256((n - 1 - k) as nat)) % 256) as u8)
}

/// The value of four little-endian 64-bit limbs.
pub open spec fn limbs_value(l: Seq<u64>) -> nat {
    (l[0] + l[1] * 0x1_0000_0000_0000_0000 + l[2] * 0x1_0000_0000_0000_0000_0000_0000_0000_0000
        + l[3] * 0x1_0000_0000_0000_0000_0000_0000_0000_0000_0000_0000_0000_0000) as nat
}

/// `alloy_primitives::U256::from_limbs(limbs).to_be_bytes()`: the 32
/// big-endian bytes of the value of the little-endian limbs.
#[verifier::external_body]
fn u256_limbs_to_be_bytes(limbs: [u64; 4]) -> (r: [u8; 32])
    ensures
        r@ == be_bytes_of(limbs_value(limbs@), 32),
{
    alloy_primitives::U256::from_limbs(limbs).to_be_bytes::<32>()
}

/// `alloy_primitives::U256::from_be_bytes(bytes).into_limbs()`: the
/// little-endian limbs of the value of the 32 big-endian bytes.
#[verifier::external_body]
fn u256_limbs_from_be_bytes(bytes: [u8; 32]) -> (r: [u64; 4])
    ensures
        limbs_value(r@) == be_value(bytes@),
{
    alloy_primitives::U256::from_be_bytes::<32>(bytes).into_limbs()
}

/// An unsigned 256-bit integer, held as four little-endian 64-bit limbs.
pub struct U256 {
    limbs: [u64; 4],
}

impl View for U256 {
    type V = nat;

    /// The value.
    open spec fn view(&self) -> nat {
        self.spec_value()
    }
}

impl U256 {
    /// The value.
    pub closed spec fn spec_value(&self) -> nat {
        limbs_value(self.limbs@)
    }

    /// The integer with the given little-endian limbs.
    pub fn from_limbs(limbs: [u64; 4]) -> (r: Self)
        ensures
            r@ == limbs_value(limbs@),
    {
        U256 { limbs }
    }

    /// The little-endian limbs.
    pub fn into_limbs(&self) -> (r: [u64; 4])
        ensures
            limbs_value(r@) == self@,
    {
        self.limbs
    }

    /// The integer whose big-endian bytes are `bytes`.
    pub fn from_be_bytes(bytes: [u8; 32]) -> (r: Self)
        ensures
            r@ == be_value(bytes@),
    {
        U256 { limbs: u256_limbs_from_be_bytes(bytes) }
    }

    /// The 32 big-endian bytes.
    pub fn to_be_bytes(&self) -> (r: [u8; 32])
        ensures
            r@ == be_bytes_of(self@, 32),
    {
        u256_limbs_to_be_bytes(self.limbs)
    }
}

/// Decodes a packed quintic word given as a 256-bit integer.
pub fn decode_packed_ext5_u256(word: U256) -> (r: Result<QuinticTrinomialExtension, CodecError>)
    ensures
        element_decoded_as(r, decode_ext5_spec(be_bytes_of(word@, 32))),
{
    let bytes = word.to_be_bytes();
    decode_packed_ext5_word(bytes.as_slice())
}

/// Decodes a packed octic word given as a 256-bit integer.
pub fn decode_packed_ext8_u256(word: U256) -> (r: Result<OcticBinExtension, CodecError>)
    ensures
        element_decoded_as(r, decode_ext8_spec(be_bytes_of(word@, 32))),
{
    let bytes = word.to_be_bytes();
    decode_packed_ext8_word(bytes.as_slice())
}

/// A quintic element's packed word as a 256-bit integer.
pub fn encode_packed_ext5_u256(value: &QuinticTrinomialExtension) -> (r: U256)
    ensures
        r@ == be_value(encode_spec(value@)),
{
    U256::from_be_bytes(encode_packed_ext5_word(value))
}

/// An octic element's packed word as a 256-bit integer.
pub fn encode_packed_ext8_u256(value: &OcticBinExtension) -> (r: U256)
    ensures
        r@ == be_value(encode_spec(value@)),
{
    U256::from_be_bytes(encode_packed_ext8_word(value))
}

/// Writing a byte string's value back as big-endian bytes of the same length
/// gives the string.
pub proof fn lemma_be_bytes_of_value(b: Seq<u8>)
    ensures
        be_bytes_of(be_value(b), b.len()) == b,
    decreases b.len(),
{
    let n = b.len();
    if n > 0 {
        let p = b.drop_last();
        lemma_be_bytes_of_value(p);
        let v = be_value(b);
        let w = be_value(p);
        let l = b.last() as int;
        assert(v == w * 256 + l);
        assert(v / 256 == w && v % 256 == l) by (nonlinear_arith)
            requires
                v == w * 256 + l,
                0 <= l < 256,
                w >= 0,
        ;
        assert forall|k: int| 0 <= k < n implies #[trigger] be_bytes_of(v, n)[k] == b[k] by {
            if k == n - 1 {
                assert(pow256(0) == 1);
                assert(be_bytes_of(v, n)[k] == ((v / pow256(0)) % 256) as u8);
            } else {
                let m = (n - 1 - k) as nat;
                let q = pow256((m - 1) as nat);
                assert(pow256(m) == 256 * q);
                lemma_pow256_positive((m - 1) as nat);
                vstd::arithmetic::div_mod::lemma_div_denominator(v as int, 256, q as int);
                assert(v / (256 * q) == w / q);
                assert(be_bytes_of(v, n)[k] == ((v / pow256(m)) % 256) as u8);
                assert(be_bytes_of(w, (n - 1) as nat)[k] == ((w / q) % 256) as u8);
                assert(be_bytes_of(w, (n - 1) as nat)[k] == p[k]);
            }
        }
        assert(be_bytes_of(v, n) =~= b);
    } else {
        assert(be_bytes_of(be_value(b), 0) =~= b);
    }
}

proof fn lemma_pow256_positive(e: nat)
    ensures
        pow256(e) > 0,
    decreases e,
{
    if e > 0 {
        lemma_pow256_positive((e - 1) as nat);
    }
}

/// Decoding the 256-bit integer of a packed canonical element gives the
/// element back.
pub proof fn law_u256_decode_encode(c: Seq<int>, n: nat)
    requires
        n == 5 || n == 8,
        canonical(c, n),
    ensures
        decode_coeffs_spec(be_bytes_of(be_value(encode_spec(c)), 32), n, n == 5) == Ok::<Seq<int>, CodecError>(c),
{
    lemma_be_bytes_of_value(encode_spec(c));
    lemma_decode_encode(c, n, n == 5);
}

// ---------------------------------------------------------------------------
// Hex words back to 256-bit integers.
// ---------------------------------------------------------------------------

/// Why a hex word was refused.
#[derive(Debug, Clone, Copy, PartialEq, Eq, Structural)]
pub enum HexWordError {
    /// The hex digits are odd in number.
    OddLength,
    /// Byte `index` of the digits, `c`, is not a hex digit.
    InvalidHexCharacter { c: char, index: usize },
    /// The digits do not fit the fixed output length.
    InvalidStringLength,
    /// The digits decode to `len` bytes, not 32.
    WrongLength { len: usize },
}

/// The value of a hex digit in either case.
pub open spec fn hex_value(c: u8) -> Option<int> {
    if 0x41 <= c <= 0x46 {
        Some(c - 0x41 + 10)
    } else if 0x61 <= c <= 0x66 {
        Some(c - 0x61 + 10)
    } else if 0x30 <= c <= 0x39 {
        Some(c - 0x30)
    } else {
        None
    }
}

/// The first index `j >= i` of `s` that is not a hex digit.
pub open spec fn first_non_hex(s: Seq<u8>, i: int) -> Option<int>
    decreases s.len() - i,
{
    if i < 0 || i >= s.len() {
        None
    } else if hex_value(s[i]) is None {
        Some(i)
    } else {
        first_non_hex(s, i + 1)
    }
}

/// What decoding hex digits gives: an even number of digits in either case,
/// two per byte, most significant first.
pub open spec fn hex_decode_spec(s: Seq<u8>) -> Result<Seq<u8>, HexWordError> {
    if s.len() % 2 != 0 {
        Err(HexWordError::OddLength)
    } else {
        match first_non_hex(s, 0) {
            Some(i) => Err(HexWordError::InvalidHexCharacter { c: s[i] as char, index: i as usize }),
            None => Ok(
                Seq::new(
                    s.len() / 2,
                    |k: int| (hex_value(s[2 * k])->Some_0 * 16 + hex_value(s[2 * k + 1])->Some_0) as u8,
                ),
            ),
        }
    }
}

/// `hex::decode`: an even number of hex digits in either case, two per byte;
/// otherwise the odd length, or the first byte that is not a hex digit.
#[verifier::external_body]
fn hex_decode(digits: &[u8]) -> (r: Result<Vec<u8>, HexWordError>)
    ensures
        match hex_decode_spec(digits@) {
            Ok(b) => r is Ok && r->Ok_0@ == b,
            Err(e) => r is Err && r->Err_0 == e,
        },
{
    match hex::decode(digits) {
        Ok(bytes) => Ok(bytes),
        Err(hex::FromHexError::OddLength) => Err(HexWordError::OddLength),
        Err(hex::FromHexError::InvalidHexCharacter { c, index }) => Err(
            HexWordError::InvalidHexCharacter { c, index },
        ),
        Err(hex::FromHexError::InvalidStringLength) => Err(HexWordError::InvalidStringLength),
    }
}

/// The digits of a hex word: without its `0x` prefix, if it has one.
pub open spec fn hex_digits_of(b: Seq<u8>) -> Seq<u8> {
    if b.len() >= 2 && b[0] == 0x30 && b[1] == 0x78 {
        b.subrange(2, b.len() as int)
    } else {
        b
    }
}

/// What parsing a hex word gives: the big-endian value of the 32 bytes its
/// digits decode to.
pub open spec fn parse_hex_u256_spec(b: Seq<u8>) -> Result<nat, HexWordError> {
    match hex_decode_spec(hex_digits_of(b)) {
        Err(e) => Err(e),
        Ok(bytes) => if bytes.len() != 32 {
            Err(HexWordError::WrongLength { len: bytes.len() as usize })
        } else {
            Ok(be_value(bytes))
        },
    }
}

/// Parses a 32-byte hex word, with or without a `0x` prefix, into a 256-bit
/// integer.
pub fn parse_hex_u256(word: &str) -> (r: Result<U256, HexWordError>)
    ensures
        match parse_hex_u256_spec(word.spec_bytes()) {
            Ok(v) => r is Ok && r->Ok_0@ == v,
            Err(e) => r is Err && r->Err_0 == e,
        },
{
    let b = word.as_bytes();
    let digits = if b.len() >= 2 && b[0] == 0x30 && b[1] == 0x78 {
        slice_subrange(b, 2, b.len())
    } else {
        b
    };
    let bytes = hex_decode(digits)?;
    if bytes.len() != 32 {
        return Err(HexWordError::WrongLength { len: bytes.len() });
    }
    let mut array = [0u8; 32];
    let mut k: usize = 0;
    while k < 32
        invariant
            bytes@.len() == 32,
            k <= 32,
            forall|j: int| 0 <= j < k ==> #[trigger] array[j] == bytes@[j],
        decreases 32 - k,
    {
        array[k] = bytes[k];
        k = k + 1;
    }
    assert(array@ =~= bytes@);
    Ok(U256::from_be_bytes(array))
}

/// The ASCII bytes of hex text.
pub open spec fn ascii_bytes(t: Seq<char>) -> Seq<u8> {
    t.map_values(|c: char| c as u8)
}

proof fn lemma_hex_digit_value(d: int)
    requires
        0 <= d < 16,
    ensures
        hex_value(hex_digit(d) as u8) == Some(d),
{
    let digits = seq!['0', '1', '2', '3', '4', '5', '6', '7', '8', '9', 'a', 'b', 'c', 'd', 'e', 'f'];
    assert(hex_digit(d) == digits[d]);
    if d == 0 { assert(digits[0] as u8 == 0x30); }
    else if d == 1 { assert(digits[1] as u8 == 0x31); }
    else if d == 2 { assert(digits[2] as u8 == 0x32); }
    else if d == 3 { assert(digits[3] as u8 == 0x33); }
    else if d == 4 { assert(digits[4] as u8 == 0x34); }
    else if d == 5 { assert(digits[5] as u8 == 0x35); }
    else if d == 6 { assert(digits[6] as u8 == 0x36); }
    else if d == 7 { assert(digits[7] as u8 == 0x37); }
    else if d == 8 { assert(digits[8] as u8 == 0x38); }
    else if d == 9 { assert(digits[9] as u8 == 0x39); }
    else if d == 10 { assert(digits[10] as u8 == 0x61); }
    else if d == 11 { assert(digits[11] as u8 == 0x62); }
    else if d == 12 { assert(digits[12] as u8 == 0x63); }
    else if d == 13 { assert(digits[13] as u8 == 0x64); }
    else if d == 14 { assert(digits[14] as u8 == 0x65); }
    else { assert(digits[15] as u8 == 0x66); }
}

proof fn lemma_first_non_hex_none(s: Seq<u8>, i: int)
    requires
        0 <= i,
        forall|j: int| 0 <= j < s.len() ==> #[trigger] hex_value(s[j]) is Some,
    ensures
        first_non_hex(s, i) is None,
    decreases s.len() - i,
{
    if i < s.len() {
        lemma_first_non_hex_none(s, i + 1);
    }
}

/// Hex text reads back: decoding the digits of `b` gives `b`.
pub proof fn law_hex_decode_encode(b: Seq<u8>)
    ensures
        hex_decode_spec(ascii_bytes(hex_lower(b))) == Ok::<Seq<u8>, HexWordError>(b),
{
    let t = ascii_bytes(hex_lower(b));
    assert forall|k: int| 0 <= k < b.len() implies #[trigger] hex_value(t[2 * k]) == Some(b[k] as int / 16)
        && hex_value(t[2 * k + 1]) == Some(b[k] as int % 16) by {
        assert((2 * k) % 2 == 0 && (2 * k) / 2 == k && (2 * k + 1) % 2 == 1 && (2 * k + 1) / 2 == k);
        lemma_hex_digit_value(b[k] as int / 16);
        lemma_hex_digit_value(b[k] as int % 16);
    }
    assert forall|j: int| 0 <= j < t.len() implies #[trigger] hex_value(t[j]) is Some by {
        let k = j / 2;
        assert(j == 2 * k || j == 2 * k + 1);
        assert(hex_value(t[2 * k]) is Some && hex_value(t[2 * k + 1]) is Some);
    }
    lemma_first_non_hex_none(t, 0);
    let d = hex_decode_spec(t)->Ok_0;
    assert forall|k: int| 0 <= k < b.len() implies #[trigger] d[k] == b[k] by {
        assert((b[k] as int / 16) * 16 + b[k] as int % 16 == b[k]);
    }
    assert(d =~= b);
}

/// A word written as `0x` hex parses back to its 256-bit value.
pub proof fn law_hex_word_parses_back(b: Seq<u8>)
    requires
        b.len() == 32,
    ensures
        parse_hex_u256_spec(ascii_bytes(hex_word_spec(b))) == Ok::<nat, HexWordError>(be_value(b)),
{
    let t = ascii_bytes(hex_word_spec(b));
    assert(t[0] == 0x30 && t[1] == 0x78);
    assert(hex_digits_of(t) =~= ascii_bytes(hex_lower(b)));
    law_hex_decode_encode(b);
}

} // verus!
