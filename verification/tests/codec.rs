use extfield_precompiles::codec::{
    decode_packed_ext5_coeffs, decode_packed_ext5_u256, decode_packed_ext5_word,
    decode_packed_ext8_coeffs, decode_packed_ext8_u256, decode_packed_ext8_word,
    encode_hex_word, encode_packed_ext5_u256, encode_packed_ext5_word, encode_packed_ext8_u256,
    encode_packed_ext8_word, parse_hex_u256, CodecError, HexWordError, U256, KOALABEAR_MODULUS,
};
use extfield_precompiles::field::{OcticBinExtension, QuinticTrinomialExtension};

fn word_from_hex(h: &str) -> [u8; 32] {
    let mut out = [0u8; 32];
    for i in 0..32 {
        out[i] = u8::from_str_radix(&h[2 + 2 * i..4 + 2 * i], 16).unwrap();
    }
    out
}

const EXT5_WORD: &str = "0x11223344556677887effffff0000000000000001000000000000000000000000";
const EXT8_WORD: &str = "0x000000010000000200000003000000040000000500000006000000077f000000";

#[test]
fn decode_ext5_coeffs_of_packed_word() {
    let w = word_from_hex(EXT5_WORD);
    assert_eq!(decode_packed_ext5_coeffs(&w), Ok([0x11223344, 0x55667788, 0x7effffff, 0, 1]));
}

#[test]
fn decode_ext5_rejects_wrong_length() {
    let w = [0u8; 31];
    assert_eq!(decode_packed_ext5_coeffs(&w), Err(CodecError::WrongLength { len: 31 }));
    assert_eq!(decode_packed_ext5_coeffs(&[0u8; 33]), Err(CodecError::WrongLength { len: 33 }));
    assert!(matches!(decode_packed_ext5_word(&[0u8; 0]), Err(CodecError::WrongLength { len: 0 })));
}

#[test]
fn decode_ext5_rejects_nonzero_tail() {
    let mut w = word_from_hex(EXT5_WORD);
    w[31] = 1;
    assert_eq!(decode_packed_ext5_coeffs(&w), Err(CodecError::LowBitsNotZero));
    let mut w = [0u8; 32];
    w[20] = 0x80;
    assert_eq!(decode_packed_ext5_coeffs(&w), Err(CodecError::LowBitsNotZero));
}

#[test]
fn decode_ext5_tail_is_checked_before_range() {
    let mut w = [0xffu8; 32];
    w[31] = 0;
    assert_eq!(decode_packed_ext5_coeffs(&w), Err(CodecError::LowBitsNotZero));
}

#[test]
fn decode_ext5_reports_first_out_of_range_coefficient() {
    let mut w = [0u8; 32];
    w[4..8].copy_from_slice(&KOALABEAR_MODULUS.to_be_bytes());
    w[8..12].copy_from_slice(&u32::MAX.to_be_bytes());
    assert_eq!(
        decode_packed_ext5_coeffs(&w),
        Err(CodecError::CoefficientOutOfRange { index: 1, value: KOALABEAR_MODULUS })
    );
}

#[test]
fn decode_ext8_coeffs_of_packed_word() {
    let w = word_from_hex(EXT8_WORD);
    assert_eq!(decode_packed_ext8_coeffs(&w), Ok([1, 2, 3, 4, 5, 6, 7, 0x7f000000]));
}

#[test]
fn decode_ext8_uses_all_32_bytes() {
    let mut w = [0u8; 32];
    w[28..32].copy_from_slice(&KOALABEAR_MODULUS.to_be_bytes());
    assert_eq!(
        decode_packed_ext8_coeffs(&w),
        Err(CodecError::CoefficientOutOfRange { index: 7, value: KOALABEAR_MODULUS })
    );
    assert_eq!(decode_packed_ext8_coeffs(&w[..16]), Err(CodecError::WrongLength { len: 16 }));
}

#[test]
fn encode_ext5_packs_big_endian_with_zero_tail() {
    let x = QuinticTrinomialExtension::from_coeffs([0x11223344, 0x55667788, 0x7effffff, 0, 1]);
    assert_eq!(encode_packed_ext5_word(&x), word_from_hex(EXT5_WORD));
}

#[test]
fn encode_ext8_packs_big_endian() {
    let x = OcticBinExtension::from_coeffs([1, 2, 3, 4, 5, 6, 7, 0x7f000000]);
    assert_eq!(encode_packed_ext8_word(&x), word_from_hex(EXT8_WORD));
}

#[test]
fn ext5_word_round_trip() {
    let w = word_from_hex(EXT5_WORD);
    let x = decode_packed_ext5_word(&w).unwrap();
    assert_eq!(encode_packed_ext5_word(&x), w);
    let y = QuinticTrinomialExtension::from_coeffs([KOALABEAR_MODULUS - 1, 0, 5, 6, 7]);
    let back = decode_packed_ext5_word(&encode_packed_ext5_word(&y)).unwrap();
    assert_eq!(back.coeffs(), y.coeffs());
}

#[test]
fn ext8_word_round_trip() {
    let w = word_from_hex(EXT8_WORD);
    let x = decode_packed_ext8_word(&w).unwrap();
    assert_eq!(encode_packed_ext8_word(&x), w);
}

#[test]
fn hex_word_is_lowercase_with_prefix() {
    let w = word_from_hex(EXT5_WORD);
    assert_eq!(encode_hex_word(&w), EXT5_WORD);
    assert_eq!(encode_hex_word(&[0u8; 32]), format!("0x{}", "0".repeat(64)));
    assert_eq!(encode_hex_word(&[0xabu8; 32]), format!("0x{}", "ab".repeat(32)));
}

#[test]
fn u256_limbs_of_packed_ext5() {
    let x = QuinticTrinomialExtension::from_coeffs([0x11223344, 0x55667788, 0x7effffff, 0, 1]);
    let v = encode_packed_ext5_u256(&x);
    assert_eq!(
        v.into_limbs(),
        [0, 4294967296, 9151314438521880576, 1234605616436508552]
    );
    assert_eq!(v.to_be_bytes(), word_from_hex(EXT5_WORD));
    assert_eq!(decode_packed_ext5_u256(v).unwrap().coeffs(), x.coeffs());
}

#[test]
fn u256_round_trip_ext8() {
    let x = OcticBinExtension::from_coeffs([1, 2, 3, 4, 5, 6, 7, 0x7f000000]);
    let v = encode_packed_ext8_u256(&x);
    assert_eq!(decode_packed_ext8_u256(v).unwrap().coeffs(), x.coeffs());
    assert_eq!(U256::from_limbs([1, 0, 0, 0]).to_be_bytes()[31], 1);
    assert_eq!(U256::from_limbs([0, 0, 0, 1 << 63]).to_be_bytes()[0], 0x80);
}

#[test]
fn decode_u256_rejects_nonzero_tail() {
    let v = U256::from_limbs([1, 0, 0, 0]);
    assert!(matches!(decode_packed_ext5_u256(v), Err(CodecError::LowBitsNotZero)));
}

#[test]
fn parse_hex_u256_with_and_without_prefix() {
    let v = parse_hex_u256(EXT5_WORD).unwrap();
    assert_eq!(v.to_be_bytes(), word_from_hex(EXT5_WORD));
    let w = parse_hex_u256(&EXT5_WORD[2..]).unwrap();
    assert_eq!(w.into_limbs(), v.into_limbs());
    let upper = EXT5_WORD.to_uppercase().replacen("0X", "0x", 1);
    assert_eq!(parse_hex_u256(&upper).unwrap().into_limbs(), v.into_limbs());
}

#[test]
fn parse_hex_u256_errors() {
    assert!(matches!(parse_hex_u256("0x123"), Err(HexWordError::OddLength)));
    assert!(matches!(
        parse_hex_u256("0x12g4"),
        Err(HexWordError::InvalidHexCharacter { c: 'g', index: 2 })
    ));
    assert!(matches!(parse_hex_u256("0x1234"), Err(HexWordError::WrongLength { len: 2 })));
    assert!(matches!(parse_hex_u256(""), Err(HexWordError::WrongLength { len: 0 })));
}
