use extfield_precompiles::field::{
    KoalaBear, OcticBinExtension, QuinticTrinomialExtension, KOALABEAR_MODULUS,
};

const P: u32 = KOALABEAR_MODULUS;

#[test]
fn modulus_is_koalabear_prime() {
    assert_eq!(P, 0x7f00_0001);
    assert_eq!(P, (1u32 << 31) - (1u32 << 24) + 1);
}

#[test]
fn quintic_mul_reduces_with_trinomial() {
    let a = QuinticTrinomialExtension::from_coeffs([1, 2, 3, 4, 5]);
    let b = QuinticTrinomialExtension::from_coeffs([6, 7, 8, 9, 10]);
    assert_eq!(a.mul(&b).coeffs(), [70, 125, 61, 14, 25]);
    assert_eq!(b.mul(&a).coeffs(), [70, 125, 61, 14, 25]);
}

#[test]
fn quintic_x_to_the_fifth_is_one_minus_x_squared() {
    let x = QuinticTrinomialExtension::from_coeffs([0, 1, 0, 0, 0]);
    let x4 = QuinticTrinomialExtension::from_coeffs([0, 0, 0, 0, 1]);
    assert_eq!(x.mul(&x4).coeffs(), [1, 0, P - 1, 0, 0]);
}

#[test]
fn quintic_arithmetic_near_the_modulus() {
    let a = QuinticTrinomialExtension::from_coeffs([P - 1, P - 2, 123456789, 987654321, 5]);
    let b = QuinticTrinomialExtension::from_coeffs([17, P - 1, 0, 1, 2]);
    assert_eq!(a.mul(&b).coeffs(), [123456753, 1234567866, 1819910859, 517153747, 1298449979]);
    assert_eq!(a.add(&b).coeffs(), [16, 2130706430, 123456789, 987654322, 7]);
    assert_eq!(a.sub(&b).coeffs(), [2130706415, 2130706432, 123456789, 987654320, 3]);
    let s = KoalaBear::from_canonical(1000003);
    assert_eq!(a.mul_base(&s).coeffs(), [2129706430, 2128706427, 1897935914, 277542308, 5000015]);
    assert_eq!(a.square().coeffs(), a.mul(&a).coeffs());
}

#[test]
fn quintic_identities() {
    let a = QuinticTrinomialExtension::from_coeffs([P - 1, 7, 0, 99, 3]);
    assert_eq!(a.add(&QuinticTrinomialExtension::zero()).coeffs(), a.coeffs());
    assert_eq!(a.mul(&QuinticTrinomialExtension::one()).coeffs(), a.coeffs());
    assert_eq!(a.sub(&a).coeffs(), [0; 5]);
    assert_eq!(QuinticTrinomialExtension::one().coeffs(), [1, 0, 0, 0, 0]);
}

#[test]
fn octic_mul_reduces_with_x8_equal_3() {
    let a = OcticBinExtension::from_coeffs([1, 2, 3, 4, 5, 6, 7, 8]);
    let b = OcticBinExtension::from_coeffs([9, 10, 11, 12, 13, 14, 15, 16]);
    assert_eq!(a.mul(&b).coeffs(), [1290, 1312, 1288, 1216, 1094, 920, 692, 408]);
    let x = OcticBinExtension::from_coeffs([0, 1, 0, 0, 0, 0, 0, 0]);
    let x7 = OcticBinExtension::from_coeffs([0, 0, 0, 0, 0, 0, 0, 1]);
    assert_eq!(x.mul(&x7).coeffs(), [3, 0, 0, 0, 0, 0, 0, 0]);
}

#[test]
fn octic_arithmetic_near_the_modulus() {
    let a = OcticBinExtension::from_coeffs([P - 1; 8]);
    let b = OcticBinExtension::from_coeffs([9, 10, 11, 12, 13, 14, 15, 16]);
    assert_eq!(
        a.mul(&b).coeffs(),
        [2130706151, 2130706171, 2130706193, 2130706217, 2130706243, 2130706271, 2130706301, 2130706333]
    );
    assert_eq!(a.add(&b).coeffs(), [8, 9, 10, 11, 12, 13, 14, 15]);
    assert_eq!(b.sub(&a).coeffs(), [10, 11, 12, 13, 14, 15, 16, 17]);
    assert_eq!(a.mul_base(&KoalaBear::from_canonical(7)).coeffs(), [2130706426; 8]);
    assert_eq!(a.square().coeffs(), a.mul(&a).coeffs());
    assert_eq!(OcticBinExtension::one().coeffs(), [1, 0, 0, 0, 0, 0, 0, 0]);
    assert_eq!(OcticBinExtension::zero().coeffs(), [0; 8]);
}

#[test]
fn base_field_value() {
    assert_eq!(KoalaBear::from_canonical(P - 1).value(), P - 1);
}
