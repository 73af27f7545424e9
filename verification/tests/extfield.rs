use extfield_precompiles::codec::CodecError;
use extfield_precompiles::ext5::extfield::{
    extfield_lin_prod_precompile, extfield_mac_precompile, noop_extfield_lin_prod_precompile,
    noop_extfield_mac_precompile, parse_lin_prod_header, parse_mac_header,
};
use extfield_precompiles::gas_model::{
    ExtfieldLinProdFieldGasSchedule, ExtfieldLinProdGasModel, ExtfieldLinProdGasSchedule,
    ExtfieldMacFieldGasSchedule, ExtfieldMacGasModel, ExtfieldMacGasSchedule,
    EXTFIELD_MAC_FIELD_ID_KOALABEAR_EXT5, EXTFIELD_MAC_FIELD_ID_KOALABEAR_EXT8,
};
use extfield_precompiles::precompile::PrecompileFailure;

const EXT5: u16 = EXTFIELD_MAC_FIELD_ID_KOALABEAR_EXT5;
const EXT8: u16 = EXTFIELD_MAC_FIELD_ID_KOALABEAR_EXT8;

fn w(h: &str) -> Vec<u8> {
    (0..32).map(|i| u8::from_str_radix(&h[2 + 2 * i..4 + 2 * i], 16).unwrap()).collect()
}

fn cat(parts: &[&[u8]]) -> Vec<u8> {
    parts.concat()
}

fn header(field_id: u16, n: u16, flags: u32) -> Vec<u8> {
    cat(&[&field_id.to_be_bytes(), &n.to_be_bytes(), &flags.to_be_bytes()])
}

fn mac_field(field_id: u16, n_max: usize, base: u64, per_pair: u64) -> ExtfieldMacFieldGasSchedule {
    ExtfieldMacFieldGasSchedule {
        field_id,
        n_max,
        extfield_mac: ExtfieldMacGasModel {
            assigned_base_gas: base,
            assigned_per_pair_gas: per_pair,
            samples: Vec::new(),
        },
    }
}

fn mac_schedule() -> ExtfieldMacGasSchedule {
    ExtfieldMacGasSchedule {
        foundry_version: String::new(),
        foundry_commit: String::new(),
        min_realistic_effective_gas: 700,
        samples: 101,
        ops_per_sample: 1024,
        vector_seed: 0,
        fields: vec![
            mac_field(EXT5, 16, 200, 30),
            mac_field(EXT8, 4, 300, 50),
            mac_field(7, 4, 1, 1),
            mac_field(EXT5, 99, 9, 9),
        ],
    }
}

fn mode(flags: u32, base: u64, per_term: u64) -> ExtfieldLinProdGasModel {
    ExtfieldLinProdGasModel {
        flags,
        assigned_base_gas: base,
        assigned_per_term_gas: per_term,
        samples: Vec::new(),
        measurement_samples: Vec::new(),
    }
}

fn lin_schedule() -> ExtfieldLinProdGasSchedule {
    ExtfieldLinProdGasSchedule {
        foundry_version: String::new(),
        foundry_commit: String::new(),
        min_realistic_effective_gas: 700,
        samples: 101,
        ops_per_sample: 1024,
        vector_seed: 0,
        fields: vec![
            ExtfieldLinProdFieldGasSchedule {
                field_id: EXT5,
                n_max: 8,
                modes: vec![mode(0, 400, 60), mode(1, 350, 50), mode(3, 300, 40), mode(5, 1, 1)],
            },
            ExtfieldLinProdFieldGasSchedule { field_id: EXT8, n_max: 2, modes: vec![mode(1, 500, 70)] },
            ExtfieldLinProdFieldGasSchedule { field_id: 9, n_max: 2, modes: vec![mode(1, 1, 1)] },
        ],
    }
}

const A: &str = "0x3762a0d37e96d095492578740aefaf843f5711db000000000000000000000000";
const B: &str = "0x6ea6a9380722aa695fb535be615af0547ec6f0f5000000000000000000000000";
const C: &str = "0x72bd16941ebd49b93a317d6a0197051042c36f1a000000000000000000000000";
const D: &str = "0x49f66f443022d29a22db71be744b489b7076790c000000000000000000000000";
const K: u32 = 1798430804;
const A_TIMES_B: &str = "0x622ee3df484cdb7a102bf48f6909468a78a9bc37000000000000000000000000";

const O1: [u32; 8] = [308901566, 535161746, 1935180996, 1528669323, 333135045, 1649613819, 1119797963, 2010017165];
const O2: [u32; 8] = [430133972, 897319216, 961852721, 253694168, 19667191, 1339776648, 1898465844, 1532901345];

fn octic(c: [u32; 8]) -> Vec<u8> {
    c.iter().flat_map(|v| v.to_be_bytes()).collect()
}

#[test]
fn mac_with_accumulator_and_two_pairs() {
    let s = mac_schedule();
    let input = cat(&[&header(EXT5, 2, 1), &w(C), &w(A), &w(B), &w(B), &w(C)]);
    let out = extfield_mac_precompile(&input, &s).unwrap();
    assert_eq!(out.bytes, w("0x058f674a3eb5bb091d94a9d16c0e31ac34ca0360000000000000000000000000"));
    assert_eq!(out.gas_used, 200 + 30 * 2);
}

#[test]
fn mac_of_one_pair_is_the_product() {
    let s = mac_schedule();
    let input = cat(&[&header(EXT5, 1, 0), &w(A), &w(B)]);
    let out = extfield_mac_precompile(&input, &s).unwrap();
    assert_eq!(out.bytes, w(A_TIMES_B));
    assert_eq!(out.gas_used, 230);
}

#[test]
fn mac_of_nothing_is_zero() {
    let s = mac_schedule();
    let out = extfield_mac_precompile(&header(EXT5, 0, 0), &s).unwrap();
    assert_eq!(out.bytes, vec![0u8; 32]);
    assert_eq!(out.gas_used, 200);
    let acc_only = extfield_mac_precompile(&cat(&[&header(EXT5, 0, 1), &w(C)]), &s).unwrap();
    assert_eq!(acc_only.bytes, w(C));
}

#[test]
fn mac_over_octic_field() {
    let s = mac_schedule();
    let input = cat(&[&header(EXT8, 1, 1), &octic(O2), &octic(O1), &octic(O2)]);
    let out = extfield_mac_precompile(&input, &s).unwrap();
    assert_eq!(out.bytes, w("0x44c270e24702a0ab42a1546b65c47f6a08b32c7a0a89dcff79af83191f9647ca"));
    assert_eq!(out.gas_used, 350);
}

#[test]
fn mac_header_errors() {
    let s = mac_schedule();
    assert_eq!(extfield_mac_precompile(&[0u8; 7], &s).err(), Some(PrecompileFailure::HeaderTooShort));
    assert_eq!(
        extfield_mac_precompile(&header(3, 0, 0), &s).err(),
        Some(PrecompileFailure::UnknownField)
    );
    assert_eq!(
        extfield_mac_precompile(&header(EXT8, 5, 0), &s).err(),
        Some(PrecompileFailure::NExceedsMax)
    );
    assert_eq!(
        extfield_mac_precompile(&header(EXT5, 0, 2), &s).err(),
        Some(PrecompileFailure::ReservedFlag)
    );
    assert_eq!(
        extfield_mac_precompile(&cat(&[&header(EXT5, 1, 0), &w(A)]), &s).err(),
        Some(PrecompileFailure::LengthMismatch)
    );
    assert_eq!(
        extfield_mac_precompile(&cat(&[&header(EXT5, 0, 0), &w(A)]), &s).err(),
        Some(PrecompileFailure::LengthMismatch)
    );
    assert_eq!(
        extfield_mac_precompile(&header(7, 0, 0), &s).err(),
        Some(PrecompileFailure::UnsupportedFieldId)
    );
}

#[test]
fn mac_uses_first_matching_field_entry() {
    let s = mac_schedule();
    let req = parse_mac_header(&header(EXT5, 3, 1), &s);
    assert_eq!(req.err(), Some(PrecompileFailure::LengthMismatch));
    let input = cat(&[&header(EXT5, 1, 0), &w(A), &w(B)]);
    let req = parse_mac_header(&input, &s).unwrap();
    assert_eq!((req.n, req.has_accumulator, req.field_id), (1, false, EXT5));
    assert_eq!((req.assigned_base_gas, req.assigned_per_pair_gas), (200, 30));
    assert_eq!(
        extfield_mac_precompile(&header(EXT5, 17, 0), &s).err(),
        Some(PrecompileFailure::NExceedsMax)
    );
}

#[test]
fn mac_reports_invalid_words() {
    let s = mac_schedule();
    let mut bad = w(B);
    bad[25] = 1;
    let input = cat(&[&header(EXT5, 2, 0), &w(A), &w(B), &w(A), &bad]);
    assert_eq!(
        extfield_mac_precompile(&input, &s).err(),
        Some(PrecompileFailure::InvalidExt5Word(CodecError::LowBitsNotZero))
    );
}

#[test]
fn lin_prod_explicit_mode() {
    let s = lin_schedule();
    let input = cat(&[&header(EXT5, 2, 0), &w(A), &w(B), &w(C), &w(D), &w(C), &w(A)]);
    let out = extfield_lin_prod_precompile(&input, &s).unwrap();
    assert_eq!(out.bytes, w("0x047269353eb1f46414f6920f19f1b14764248b43000000000000000000000000"));
    assert_eq!(out.gas_used, 400 + 60 * 2);
}

#[test]
fn lin_prod_alpha_one_ext_beta_mode() {
    let s = lin_schedule();
    let input = cat(&[&header(EXT5, 2, 1), &w(B), &w(C), &w(A), &w(D)]);
    let out = extfield_lin_prod_precompile(&input, &s).unwrap();
    assert_eq!(out.bytes, w("0x2081cacb3b92a0d17ee1e9da2e44e2d97decbf92000000000000000000000000"));
    assert_eq!(out.gas_used, 450);
}

#[test]
fn lin_prod_alpha_one_base_beta_mode() {
    let s = lin_schedule();
    let input =
        cat(&[&header(EXT5, 2, 3), &K.to_be_bytes(), &w(C), &12345u32.to_be_bytes(), &w(A)]);
    let out = extfield_lin_prod_precompile(&input, &s).unwrap();
    assert_eq!(out.bytes, w("0x0a7affca6fea74054139935439fbff3d5218fe45000000000000000000000000"));
    assert_eq!(out.gas_used, 380);
}

#[test]
fn lin_prod_modes_agree_on_embedded_scalars() {
    let s = lin_schedule();
    let mut beta = vec![0u8; 32];
    beta[0..4].copy_from_slice(&K.to_be_bytes());
    let ext = extfield_lin_prod_precompile(&cat(&[&header(EXT5, 1, 1), &beta, &w(C)]), &s).unwrap();
    let base = extfield_lin_prod_precompile(&cat(&[&header(EXT5, 1, 3), &K.to_be_bytes(), &w(C)]), &s).unwrap();
    assert_eq!(ext.bytes, base.bytes);
    let mut one = vec![0u8; 32];
    one[3] = 1;
    let explicit =
        extfield_lin_prod_precompile(&cat(&[&header(EXT5, 1, 0), &one, &beta, &w(C)]), &s).unwrap();
    assert_eq!(explicit.bytes, ext.bytes);
}

#[test]
fn lin_prod_of_nothing_is_one() {
    let s = lin_schedule();
    let out = extfield_lin_prod_precompile(&header(EXT5, 0, 1), &s).unwrap();
    let mut one = vec![0u8; 32];
    one[3] = 1;
    assert_eq!(out.bytes, one);
    assert_eq!(out.gas_used, 350);
}

#[test]
fn lin_prod_over_octic_field() {
    let s = lin_schedule();
    let input = cat(&[&header(EXT8, 1, 1), &octic(O1), &octic(O2)]);
    let out = extfield_lin_prod_precompile(&input, &s).unwrap();
    assert_eq!(out.bytes, w("0x2b1f1e0f11869f7b094c9f3a56a56e920787138339ae7e78088738e543380fea"));
    assert_eq!(out.gas_used, 570);
}

#[test]
fn lin_prod_header_errors() {
    let s = lin_schedule();
    assert_eq!(extfield_lin_prod_precompile(&[0u8; 4], &s).err(), Some(PrecompileFailure::HeaderTooShort));
    assert_eq!(
        extfield_lin_prod_precompile(&header(EXT8, 0, 0), &s).err(),
        Some(PrecompileFailure::UnknownField)
    );
    assert_eq!(
        extfield_lin_prod_precompile(&header(4, 0, 1), &s).err(),
        Some(PrecompileFailure::UnknownField)
    );
    assert_eq!(
        extfield_lin_prod_precompile(&header(EXT5, 9, 1), &s).err(),
        Some(PrecompileFailure::NExceedsMax)
    );
    assert_eq!(
        extfield_lin_prod_precompile(&header(EXT5, 0, 5), &s).err(),
        Some(PrecompileFailure::ReservedFlag)
    );
    assert_eq!(
        extfield_lin_prod_precompile(&cat(&[&header(EXT5, 1, 3), &[0u8; 35]]), &s).err(),
        Some(PrecompileFailure::LengthMismatch)
    );
    assert_eq!(
        extfield_lin_prod_precompile(&header(9, 0, 1), &s).err(),
        Some(PrecompileFailure::UnsupportedFieldId)
    );
    let req = parse_lin_prod_header(&cat(&[&header(EXT5, 1, 3), &[0u8; 36]]), &s).unwrap();
    assert_eq!((req.n, req.flags, req.field_id, req.assigned_base_gas), (1, 3, EXT5, 300));
}

#[test]
fn lin_prod_reports_bad_scalars() {
    let s = lin_schedule();
    let input = cat(&[&header(EXT5, 1, 3), &0x7f00_0001u32.to_be_bytes(), &w(C)]);
    assert_eq!(
        extfield_lin_prod_precompile(&input, &s).err(),
        Some(PrecompileFailure::ScalarOutOfRange)
    );
}

#[test]
fn noop_header_precompiles() {
    let mac = mac_schedule();
    let lin = lin_schedule();
    let ok = noop_extfield_mac_precompile(&cat(&[&header(EXT5, 1, 0), &w(A), &w(B)]), &mac).unwrap();
    assert_eq!((ok.bytes, ok.gas_used), (vec![0u8; 32], 0));
    assert_eq!(
        noop_extfield_mac_precompile(&header(EXT5, 1, 0), &mac).err(),
        Some(PrecompileFailure::LengthMismatch)
    );
    let ok = noop_extfield_lin_prod_precompile(&header(EXT5, 0, 0), &lin).unwrap();
    assert_eq!((ok.bytes, ok.gas_used), (vec![0u8; 32], 0));
    assert_eq!(
        noop_extfield_lin_prod_precompile(&header(2, 0, 3), &lin).err(),
        Some(PrecompileFailure::UnknownField)
    );
}
