use extfield_precompiles::codec::{
    decode_packed_ext5_word, encode_hex_word, encode_packed_ext5_word, parse_hex_u256,
};
use extfield_precompiles::ext5::extfield::extfield_mac_precompile;
use extfield_precompiles::gas_model::{
    ExtfieldMacFieldGasSchedule, ExtfieldMacGasModel, ExtfieldMacGasSchedule,
    EXTFIELD_MAC_FIELD_ID_KOALABEAR_EXT5,
};
use extfield_precompiles::ext5::vectors::{
    generate_ext5_arithmetic_vectors, generate_extfield_mac_vectors, random_quintic_pairs,
    XorShift64, DEFAULT_MAC_VECTOR_REPEATS, MAC_VECTOR_LENGTHS, VECTOR_SEED,
};

fn w(h: &str) -> Vec<u8> {
    (0..32).map(|i| u8::from_str_radix(&h[2 + 2 * i..4 + 2 * i], 16).unwrap()).collect()
}

#[test]
fn xorshift_steps() {
    let mut rng = XorShift64::new(VECTOR_SEED);
    assert_eq!(rng.next_u64(), 0x2bc68b52b662a0d4);
    let mut zero = XorShift64::new(0);
    assert_eq!(zero.next_u64(), 0xdc1b77ae0bf34dad);
}

#[test]
fn xorshift_never_reaches_zero_on_a_sample() {
    let mut rng = XorShift64::new(1);
    for _ in 0..10_000 {
        assert_ne!(rng.next_u64(), 0);
    }
}

#[test]
fn first_arithmetic_vectors() {
    let file = generate_ext5_arithmetic_vectors(2);
    assert_eq!(file.seed, VECTOR_SEED);
    assert_eq!(file.count, 2);
    assert_eq!(file.vectors.len(), 2);
    let v = &file.vectors[0];
    assert_eq!(v.packed_a, "0x3762a0d37e96d095492578740aefaf843f5711db000000000000000000000000");
    assert_eq!(v.packed_b, "0x6ea6a9380722aa695fb535be615af0547ec6f0f5000000000000000000000000");
    assert_eq!(v.scalar, "0x000000000000000000000000000000000000000000000000000000006b31e054");
    assert_eq!(v.scalar, format!("0x{:064x}", 1798430804u32));
    assert_eq!(v.packed_add, "0x27094a0a06b97afd29daae316c4a9fd83f1e02cf000000000000000000000000");
    assert_eq!(v.packed_sub, "0x47bbf79c7774262c687042b72894bf313f9020e7000000000000000000000000");
    assert_eq!(v.packed_mul, "0x622ee3df484cdb7a102bf48f6909468a78a9bc37000000000000000000000000");
    assert_eq!(v.packed_square_a, "0x65faa1d212da63dc5561280322273b51004088b5000000000000000000000000");
    assert_eq!(v.packed_mul_base, "0x12b8deed6aaab8c26b27b83b5a42018141a617d1000000000000000000000000");
    let v = &file.vectors[1];
    assert_eq!(v.packed_a, "0x72bd16941ebd49b93a317d6a0197051042c36f1a000000000000000000000000");
    assert_eq!(v.scalar, "0x00000000000000000000000000000000000000000000000000000000126976be");
    assert_eq!(v.packed_mul, "0x60130214179444854503ee6f7cece8d3438d89a8000000000000000000000000");
}

#[test]
fn arithmetic_vectors_are_a_prefix_of_longer_runs() {
    let short = generate_ext5_arithmetic_vectors(3);
    let long = generate_ext5_arithmetic_vectors(5);
    for i in 0..3 {
        assert_eq!(short.vectors[i].packed_mul, long.vectors[i].packed_mul);
        assert_eq!(short.vectors[i].scalar, long.vectors[i].scalar);
    }
    assert!(generate_ext5_arithmetic_vectors(0).vectors.is_empty());
}

#[test]
fn arithmetic_vectors_match_element_arithmetic() {
    let file = generate_ext5_arithmetic_vectors(4);
    for v in &file.vectors {
        let a = decode_packed_ext5_word(&w(&v.packed_a)).unwrap();
        let b = decode_packed_ext5_word(&w(&v.packed_b)).unwrap();
        let mul = encode_packed_ext5_word(&a.mul(&b));
        assert_eq!(w(&v.packed_mul), mul.to_vec());
        let add = encode_packed_ext5_word(&a.add(&b));
        assert_eq!(w(&v.packed_add), add.to_vec());
    }
}

#[test]
fn random_pairs_follow_the_stream() {
    let pairs = random_quintic_pairs(2);
    assert_eq!(pairs.len(), 2);
    assert_eq!(
        encode_packed_ext5_word(&pairs[0].0).to_vec(),
        w("0x3762a0d37e96d095492578740aefaf843f5711db000000000000000000000000")
    );
    assert_eq!(
        encode_packed_ext5_word(&pairs[0].1).to_vec(),
        w("0x6ea6a9380722aa695fb535be615af0547ec6f0f5000000000000000000000000")
    );
    assert!(random_quintic_pairs(0).is_empty());
}

#[test]
fn mac_vectors_layout_and_values() {
    let file = generate_extfield_mac_vectors(1);
    assert_eq!(file.seed, VECTOR_SEED);
    assert_eq!(file.repeats, 1);
    assert_eq!(file.lengths, MAC_VECTOR_LENGTHS.to_vec());
    assert_eq!(file.vectors.len(), 8);
    let ns: Vec<usize> = file.vectors.iter().map(|v| v.n).collect();
    assert_eq!(ns, vec![0, 0, 1, 1, 16, 16, 64, 64]);
    let accs: Vec<bool> = file.vectors.iter().map(|v| v.include_accumulator).collect();
    assert_eq!(accs, vec![false, true, false, true, false, true, false, true]);
    let zero = format!("0x{}", "0".repeat(64));
    assert_eq!(file.vectors[0].packed_accumulator, zero);
    assert_eq!(file.vectors[0].packed_output, zero);
    assert_eq!(
        file.vectors[1].packed_accumulator,
        "0x2bf8db910d27ee65397cf83a46a34f4977ba9b54000000000000000000000000"
    );
    assert_eq!(file.vectors[1].packed_output, file.vectors[1].packed_accumulator);
    assert_eq!(
        file.vectors[2].packed_a[0],
        "0x125dbb62025398932eef9aa538a04ccf79d43849000000000000000000000000"
    );
    assert_eq!(
        file.vectors[2].packed_output,
        "0x0824212a711cda994558488e5e94759d613c33db000000000000000000000000"
    );
    assert_eq!(
        file.vectors[3].packed_output,
        "0x3e6079ef3ccaedb84f4a64b25c817bf4231d4de4000000000000000000000000"
    );
    assert_eq!(
        file.vectors[7].packed_output,
        "0x47195fad3d0eb0706108417342ba1a5126d7cc1c000000000000000000000000"
    );
    assert_eq!(file.vectors[7].packed_a.len(), 64);
    assert_eq!(file.vectors[7].packed_b.len(), 64);
}

#[test]
fn mac_vectors_with_default_repeats() {
    let file = generate_extfield_mac_vectors(DEFAULT_MAC_VECTOR_REPEATS);
    assert_eq!(file.vectors.len(), 8 * DEFAULT_MAC_VECTOR_REPEATS);
    assert_eq!(file.vectors[DEFAULT_MAC_VECTOR_REPEATS].include_accumulator, true);
    assert!(generate_extfield_mac_vectors(0).vectors.is_empty());
}

#[test]
fn mac_vectors_match_the_precompile() {
    let schedule = ExtfieldMacGasSchedule {
        foundry_version: String::new(),
        foundry_commit: String::new(),
        min_realistic_effective_gas: 700,
        samples: 101,
        ops_per_sample: 1024,
        vector_seed: VECTOR_SEED,
        fields: vec![ExtfieldMacFieldGasSchedule {
            field_id: EXTFIELD_MAC_FIELD_ID_KOALABEAR_EXT5,
            n_max: 1024,
            extfield_mac: ExtfieldMacGasModel {
                assigned_base_gas: 100,
                assigned_per_pair_gas: 10,
                samples: Vec::new(),
            },
        }],
    };
    let file = generate_extfield_mac_vectors(2);
    for v in &file.vectors {
        let mut input = Vec::new();
        input.extend_from_slice(&EXTFIELD_MAC_FIELD_ID_KOALABEAR_EXT5.to_be_bytes());
        input.extend_from_slice(&(v.n as u16).to_be_bytes());
        input.extend_from_slice(&(v.include_accumulator as u32).to_be_bytes());
        if v.include_accumulator {
            input.extend_from_slice(&w(&v.packed_accumulator));
        }
        for (a, b) in v.packed_a.iter().zip(&v.packed_b) {
            input.extend_from_slice(&w(a));
            input.extend_from_slice(&w(b));
        }
        let out = extfield_mac_precompile(&input, &schedule).unwrap();
        assert_eq!(out.bytes, w(&v.packed_output));
        assert_eq!(out.gas_used, 100 + 10 * v.n as u64);
    }
}

#[test]
fn vector_hex_words_parse_back() {
    let file = generate_ext5_arithmetic_vectors(3);
    for v in &file.vectors {
        for word in [&v.packed_a, &v.packed_b, &v.scalar, &v.packed_mul, &v.packed_mul_base] {
            let bytes = parse_hex_u256(word).unwrap().to_be_bytes();
            assert_eq!(bytes.to_vec(), w(word));
            assert_eq!(&encode_hex_word(&bytes), word);
        }
    }
}
