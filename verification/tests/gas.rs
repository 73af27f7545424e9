use extfield_precompiles::gas_model::{
    assigned_base_gas_from_ns, ns_per_op, EIP1108_GAS_PER_MICROSECOND_X100, ROUND_TO_GAS,
    SAFETY_MULTIPLIER,
};

#[test]
fn gas_of_zero_runtime_is_zero() {
    assert_eq!(assigned_base_gas_from_ns(0), 0);
}

#[test]
fn gas_rounds_up_to_fifty() {
    assert_eq!(assigned_base_gas_from_ns(1), 50);
    assert_eq!(assigned_base_gas_from_ns(241), 50);
    assert_eq!(assigned_base_gas_from_ns(242), 100);
    assert_eq!(assigned_base_gas_from_ns(1000), 250);
    assert_eq!(assigned_base_gas_from_ns(123_456_789), 25_540_750);
}

#[test]
fn gas_at_an_exact_step_is_not_rounded_further() {
    assert_eq!(assigned_base_gas_from_ns(312_500), 64_650);
    assert_eq!(assigned_base_gas_from_ns(312_501), 64_700);
}

#[test]
fn gas_of_largest_runtime_fits() {
    let g = assigned_base_gas_from_ns(u64::MAX);
    assert_eq!(g % ROUND_TO_GAS, 0);
    assert!((g as u128) * 100_000 >= 20688 * (u64::MAX as u128));
}

#[test]
fn gas_is_monotone_on_samples() {
    let mut last = 0;
    for ns in (0..100_000u64).step_by(97) {
        let g = assigned_base_gas_from_ns(ns);
        assert!(g >= last);
        last = g;
    }
}

#[test]
fn pricing_constants() {
    assert_eq!(SAFETY_MULTIPLIER * EIP1108_GAS_PER_MICROSECOND_X100, 20688);
}

#[test]
fn ns_per_op_rounds_to_nearest() {
    assert_eq!(ns_per_op(0), 0);
    assert_eq!(ns_per_op(511), 0);
    assert_eq!(ns_per_op(512), 1);
    assert_eq!(ns_per_op(1024 * 7 + 511), 7);
    assert_eq!(ns_per_op(1024 * 7 + 512), 8);
    assert_eq!(ns_per_op(u128::MAX), u64::MAX);
}
