use extfield_precompiles::codec::CodecError;
use extfield_precompiles::ext5::gas_model::LockedGasSchedule as Ext5Schedule;
use extfield_precompiles::ext5::precompiles::{
    ext5_add_precompile, ext5_mul_base_batch_precompile, ext5_mul_base_precompile,
    ext5_mul_batch_precompile, ext5_mul_precompile, ext5_square_batch_precompile,
    ext5_square_precompile, ext5_sub_precompile, Ext5Precompile, Ext5PrecompileFactory,
};
use extfield_precompiles::ext8::gas_model::LockedGasSchedule as Ext8Schedule;
use extfield_precompiles::ext8::precompiles::{
    ext8_add_precompile, ext8_mul_base_batch_precompile, ext8_mul_base_precompile,
    ext8_mul_batch_precompile, ext8_mul_precompile, ext8_square_batch_precompile,
    ext8_square_precompile, ext8_sub_precompile, Ext8Precompile, Ext8PrecompileFactory,
};
use extfield_precompiles::gas_model::OperationGasModel;
use extfield_precompiles::precompile::{
    decode_scalar, decode_scalar4, noop_32_to_32_precompile, noop_64_to_32_precompile,
    noop_batch_32_to_32_precompile, noop_batch_64_to_32_precompile, PrecompileFailure,
};

fn w(h: &str) -> Vec<u8> {
    (0..32).map(|i| u8::from_str_radix(&h[2 + 2 * i..4 + 2 * i], 16).unwrap()).collect()
}

fn cat(parts: &[&[u8]]) -> Vec<u8> {
    parts.concat()
}

fn scalar_word(k: u32) -> Vec<u8> {
    let mut v = vec![0u8; 28];
    v.extend_from_slice(&k.to_be_bytes());
    v
}

fn op(gas: u64) -> OperationGasModel {
    OperationGasModel { median_runtime_ns: 0, assigned_base_gas: gas }
}

fn ext5_schedule() -> Ext5Schedule {
    Ext5Schedule {
        foundry_version: String::new(),
        foundry_commit: String::new(),
        min_realistic_effective_gas: 700,
        samples: 101,
        ops_per_sample: 1024,
        vector_seed: 0,
        ext5_mul: op(100),
        ext5_square: op(90),
        ext5_add: op(10),
        ext5_sub: op(11),
        ext5_mul_base: op(20),
        ext5_mul_batch: op(80),
        ext5_square_batch: op(70),
        ext5_mul_base_batch: op(15),
    }
}

fn ext8_schedule() -> Ext8Schedule {
    Ext8Schedule {
        foundry_version: String::new(),
        foundry_commit: String::new(),
        min_realistic_effective_gas: 700,
        samples: 101,
        ops_per_sample: 1024,
        vector_seed: 0,
        ext8_mul: op(200),
        ext8_square: op(190),
        ext8_add: op(20),
        ext8_sub: op(21),
        ext8_mul_base: op(40),
        ext8_mul_batch: op(160),
        ext8_square_batch: op(150),
        ext8_mul_base_batch: op(30),
    }
}

const A: &str = "0x3762a0d37e96d095492578740aefaf843f5711db000000000000000000000000";
const B: &str = "0x6ea6a9380722aa695fb535be615af0547ec6f0f5000000000000000000000000";
const K: u32 = 1798430804;
const C: &str = "0x72bd16941ebd49b93a317d6a0197051042c36f1a000000000000000000000000";
const A_PLUS_B: &str = "0x27094a0a06b97afd29daae316c4a9fd83f1e02cf000000000000000000000000";
const A_MINUS_B: &str = "0x47bbf79c7774262c687042b72894bf313f9020e7000000000000000000000000";
const A_TIMES_B: &str = "0x622ee3df484cdb7a102bf48f6909468a78a9bc37000000000000000000000000";
const A_SQUARED: &str = "0x65faa1d212da63dc5561280322273b51004088b5000000000000000000000000";
const A_TIMES_K: &str = "0x12b8deed6aaab8c26b27b83b5a42018141a617d1000000000000000000000000";

#[test]
fn c_constant_is_the_packed_third_draw() {
    let coeffs: [u32; 5] = [1924994708, 515721657, 976321898, 26674448, 1120104218];
    let mut v = Vec::new();
    for c in coeffs {
        v.extend_from_slice(&c.to_be_bytes());
    }
    v.extend_from_slice(&[0u8; 12]);
    assert_eq!(v, w(C));
}

#[test]
fn ext5_mul_returns_packed_product_and_gas() {
    let s = ext5_schedule();
    let out = ext5_mul_precompile(&cat(&[&w(A), &w(B)]), &s).unwrap();
    assert_eq!(out.bytes, w(A_TIMES_B));
    assert_eq!(out.gas_used, 100);
    let swapped = ext5_mul_precompile(&cat(&[&w(B), &w(A)]), &s).unwrap();
    assert_eq!(swapped.bytes, w(A_TIMES_B));
}

#[test]
fn ext5_single_operations() {
    let s = ext5_schedule();
    let ab = cat(&[&w(A), &w(B)]);
    let add = ext5_add_precompile(&ab, &s).unwrap();
    assert_eq!((add.bytes, add.gas_used), (w(A_PLUS_B), 10));
    let sub = ext5_sub_precompile(&ab, &s).unwrap();
    assert_eq!((sub.bytes, sub.gas_used), (w(A_MINUS_B), 11));
    let sq = ext5_square_precompile(&w(A), &s).unwrap();
    assert_eq!((sq.bytes, sq.gas_used), (w(A_SQUARED), 90));
    let mb = ext5_mul_base_precompile(&cat(&[&w(A), &scalar_word(K)]), &s).unwrap();
    assert_eq!((mb.bytes, mb.gas_used), (w(A_TIMES_K), 20));
}

#[test]
fn ext5_single_operations_check_length() {
    let s = ext5_schedule();
    let ab = cat(&[&w(A), &w(B)]);
    assert_eq!(ext5_mul_precompile(&ab[..63], &s).err(), Some(PrecompileFailure::InputLength));
    assert_eq!(ext5_add_precompile(&[], &s).err(), Some(PrecompileFailure::InputLength));
    assert_eq!(ext5_sub_precompile(&cat(&[&ab, &[0]]), &s).err(), Some(PrecompileFailure::InputLength));
    assert_eq!(ext5_square_precompile(&ab, &s).err(), Some(PrecompileFailure::InputLength));
    assert_eq!(ext5_mul_base_precompile(&w(A), &s).err(), Some(PrecompileFailure::InputLength));
}

#[test]
fn ext5_single_operations_report_invalid_words() {
    let s = ext5_schedule();
    let mut bad = w(B);
    bad[31] = 1;
    assert_eq!(
        ext5_mul_precompile(&cat(&[&w(A), &bad]), &s).err(),
        Some(PrecompileFailure::InvalidExt5Word(CodecError::LowBitsNotZero))
    );
    let mut big = vec![0xffu8; 4];
    big.extend_from_slice(&[0u8; 28]);
    assert_eq!(
        ext5_square_precompile(&big, &s).err(),
        Some(PrecompileFailure::InvalidExt5Word(CodecError::CoefficientOutOfRange {
            index: 0,
            value: u32::MAX
        }))
    );
    assert_eq!(
        ext5_add_precompile(&cat(&[&big, &bad]), &s).err(),
        Some(PrecompileFailure::InvalidExt5Word(CodecError::CoefficientOutOfRange {
            index: 0,
            value: u32::MAX
        }))
    );
}

#[test]
fn ext5_mul_base_checks_the_scalar() {
    let s = ext5_schedule();
    let mut high = scalar_word(5);
    high[0] = 1;
    assert_eq!(
        ext5_mul_base_precompile(&cat(&[&w(A), &high]), &s).err(),
        Some(PrecompileFailure::ScalarHighBytes)
    );
    assert_eq!(
        ext5_mul_base_precompile(&cat(&[&w(A), &scalar_word(0x7f00_0001)]), &s).err(),
        Some(PrecompileFailure::ScalarOutOfRange)
    );
}

#[test]
fn scalar_readers() {
    let data = cat(&[&[9u8; 3], &scalar_word(77)]);
    assert_eq!(decode_scalar(&data, 3).unwrap().value(), 77);
    assert_eq!(decode_scalar(&data, 4).err(), Some(PrecompileFailure::ScalarTruncated));
    assert_eq!(decode_scalar4(&data, 31).unwrap().value(), 77);
    assert_eq!(decode_scalar4(&data, 32).err(), Some(PrecompileFailure::Scalar4Truncated));
    assert_eq!(
        decode_scalar4(&[0x7f, 0, 0, 1], 0).err(),
        Some(PrecompileFailure::ScalarOutOfRange)
    );
}

#[test]
fn ext5_mul_batch_concatenates_products() {
    let s = ext5_schedule();
    let input = cat(&[&w(A), &w(B), &w(B), &w(A)]);
    let out = ext5_mul_batch_precompile(&input, &s).unwrap();
    assert_eq!(out.bytes, cat(&[&w(A_TIMES_B), &w(A_TIMES_B)]));
    assert_eq!(out.gas_used, 160);
    let empty = ext5_mul_batch_precompile(&[], &s).unwrap();
    assert!(empty.bytes.is_empty());
    assert_eq!(empty.gas_used, 0);
}

#[test]
fn ext5_batches_check_item_length() {
    let s = ext5_schedule();
    assert_eq!(ext5_mul_batch_precompile(&[0u8; 96], &s).err(), Some(PrecompileFailure::ItemLength));
    assert_eq!(ext5_square_batch_precompile(&[0u8; 33], &s).err(), Some(PrecompileFailure::ItemLength));
    assert_eq!(ext5_mul_base_batch_precompile(&[0u8; 32], &s).err(), Some(PrecompileFailure::ItemLength));
}

#[test]
fn ext5_batch_fails_on_first_bad_item() {
    let s = ext5_schedule();
    let mut bad = w(B);
    bad[20] = 7;
    let input = cat(&[&w(A), &w(B), &w(A), &bad, &w(A), &w(B)]);
    assert_eq!(
        ext5_mul_batch_precompile(&input, &s).err(),
        Some(PrecompileFailure::InvalidExt5Word(CodecError::LowBitsNotZero))
    );
}

#[test]
fn ext5_square_and_mul_base_batches() {
    let s = ext5_schedule();
    let sq = ext5_square_batch_precompile(&cat(&[&w(A), &w(A)]), &s).unwrap();
    assert_eq!(sq.bytes, cat(&[&w(A_SQUARED), &w(A_SQUARED)]));
    assert_eq!(sq.gas_used, 140);
    let mb = ext5_mul_base_batch_precompile(&cat(&[&w(A), &scalar_word(K)]), &s).unwrap();
    assert_eq!(mb.bytes, w(A_TIMES_K));
    assert_eq!(mb.gas_used, 15);
    assert_eq!(
        ext5_mul_base_batch_precompile(&cat(&[&w(A), &scalar_word(K), &w(A), &scalar_word(u32::MAX)]), &s).err(),
        Some(PrecompileFailure::ScalarOutOfRange)
    );
}

#[test]
fn batch_item_equals_single_call() {
    let s = ext5_schedule();
    let items = [cat(&[&w(A), &w(B)]), cat(&[&w(B), &w(C)]), cat(&[&w(C), &w(A)])];
    let batch = ext5_mul_batch_precompile(&items.concat(), &s).unwrap();
    let singles: Vec<u8> =
        items.iter().flat_map(|i| ext5_mul_precompile(i, &s).unwrap().bytes).collect();
    assert_eq!(batch.bytes, singles);
}

const O1: [u32; 8] = [308901566, 535161746, 1935180996, 1528669323, 333135045, 1649613819, 1119797963, 2010017165];
const O2: [u32; 8] = [430133972, 897319216, 961852721, 253694168, 19667191, 1339776648, 1898465844, 1532901345];

fn octic(c: [u32; 8]) -> Vec<u8> {
    c.iter().flat_map(|v| v.to_be_bytes()).collect()
}

#[test]
fn ext8_operations() {
    let s = ext8_schedule();
    let ab = cat(&[&octic(O1), &octic(O2)]);
    let mul = ext8_mul_precompile(&ab, &s).unwrap();
    assert_eq!(mul.bytes, w("0x2b1f1e0e11869f7b094c9f3a56a56e920787138339ae7e78088738e543380fea"));
    assert_eq!(mul.gas_used, 200);
    let add = ext8_add_precompile(&ab, &s).unwrap();
    assert_eq!(add.bytes, w("0x2c0cc9925561ecc22dad39f46a3cb563150755bc332e7a8234e70cfe542ca56d"));
    let sub = ext8_sub_precompile(&ab, &s).unwrap();
    assert_eq!(sub.bytes, w("0x77c623eb6969ea633a03cf934bfe93b312af23ce1277bd73509678981c7035ac"));
    let sq = ext8_square_precompile(&octic(O1), &s).unwrap();
    assert_eq!(sq.bytes, w("0x75f0861215255e6341ea0a1d588f699719d201e32125d7256bb529b0075aec28"));
    let mb = ext8_mul_base_precompile(&cat(&[&octic(O1), &scalar_word(K)]), &s).unwrap();
    assert_eq!(mb.bytes, w("0x2354cb9c7196921e165f67fb656684d7540eca117bce094d598e657d7c74d4b9"));
    assert_eq!(mb.gas_used, 40);
}

#[test]
fn ext8_batches_and_errors() {
    let s = ext8_schedule();
    let ab = cat(&[&octic(O1), &octic(O2)]);
    let batch = ext8_mul_batch_precompile(&cat(&[&ab, &ab]), &s).unwrap();
    assert_eq!(batch.bytes, cat(&[&ext8_mul_precompile(&ab, &s).unwrap().bytes, &ext8_mul_precompile(&ab, &s).unwrap().bytes]));
    assert_eq!(batch.gas_used, 320);
    let sq = ext8_square_batch_precompile(&octic(O1), &s).unwrap();
    assert_eq!(sq.gas_used, 150);
    let mb = ext8_mul_base_batch_precompile(&cat(&[&octic(O1), &scalar_word(K)]), &s).unwrap();
    assert_eq!(mb.gas_used, 30);
    let mut bad = octic(O2);
    bad[28..32].copy_from_slice(&0x7f00_0001u32.to_be_bytes());
    assert_eq!(
        ext8_mul_precompile(&cat(&[&octic(O1), &bad]), &s).err(),
        Some(PrecompileFailure::InvalidExt8Word(CodecError::CoefficientOutOfRange {
            index: 7,
            value: 0x7f00_0001
        }))
    );
    assert_eq!(ext8_square_precompile(&[0u8; 31], &s).err(), Some(PrecompileFailure::InputLength));
    assert_eq!(ext8_mul_batch_precompile(&[0u8; 32], &s).err(), Some(PrecompileFailure::ItemLength));
}

#[test]
fn noop_precompiles() {
    let short = [7u8; 10];
    let out = noop_64_to_32_precompile(&short).unwrap();
    assert_eq!(out.bytes, cat(&[&[7u8; 10], &[0u8; 22]]));
    assert_eq!(out.gas_used, 0);
    let long: Vec<u8> = (0..64).collect();
    assert_eq!(noop_32_to_32_precompile(&long).unwrap().bytes, (0..32).collect::<Vec<u8>>());
    let batch: Vec<u8> = (0..128).collect();
    let halves = noop_batch_64_to_32_precompile(&batch).unwrap();
    assert_eq!(halves.bytes, cat(&[&batch[0..32], &batch[64..96]]));
    assert_eq!(noop_batch_64_to_32_precompile(&batch[..96]).err(), Some(PrecompileFailure::ItemLength));
    assert_eq!(noop_batch_32_to_32_precompile(&batch[..96]).unwrap().bytes, batch[..96].to_vec());
    assert_eq!(noop_batch_32_to_32_precompile(&batch[..95]).err(), Some(PrecompileFailure::ItemLength));
}

#[test]
fn factories_list_every_precompile_once() {
    let five = Ext5PrecompileFactory.precompiles();
    assert_eq!(five.len(), 16);
    assert_eq!(five[0].1, Ext5Precompile::Ext5Mul);
    assert_eq!(five[9].1, Ext5Precompile::ExtfieldLinProd);
    let eight = Ext8PrecompileFactory.precompiles();
    assert_eq!(eight.len(), 12);
    assert_eq!(eight[7].1, Ext8Precompile::Ext8MulBaseBatch);
    for table in [five.iter().map(|e| e.0).collect::<Vec<_>>(), eight.iter().map(|e| e.0).collect()] {
        let mut sorted = table.clone();
        sorted.sort();
        sorted.dedup();
        assert_eq!(sorted.len(), table.len());
    }
}
