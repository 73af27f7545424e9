//! The KoalaBear prime field and its two extensions used by the precompiles:
//! the quintic extension `F[X] / (X^5 + X^2 - 1)` and the octic binomial
//! extension `F[X] / (X^8 - 3)`.
//!
//! Elements are held as canonical coefficient arrays. The arithmetic itself is
//! performed by `p3_field` / `p3_koala_bear`; the wrappers below state what
//! that arithmetic is, as polynomial arithmetic modulo the prime and the
//! defining polynomial.

use p3_field::extension::{BinomialExtensionField, QuinticTrinomialExtensionField};
use p3_field::{BasedVectorSpace, PrimeCharacteristicRing, PrimeField32};
use p3_koala_bear::KoalaBear as P3KoalaBear;
use vstd::prelude::*;

verus! {

/// The KoalaBear prime `2^31 - 2^24 + 1`.
pub const KOALABEAR_MODULUS: u32 = 0x7f00_0001;

/// The prime as a mathematical integer.
pub open spec fn modulus() -> int {
    KOALABEAR_MODULUS as int
}

/// A sequence of `n` canonical field elements.
pub open spec fn canonical(s: Seq<int>, n: nat) -> bool {
    &&& s.len() == n
    &&& forall|i: int| 0 <= i < n ==> 0 <= #[trigger] s[i] < modulus()
}

/// Coefficients of a `u32` array read as integers.
pub open spec fn ints(s: Seq<u32>) -> Seq<int> {
    s.map_values(|v: u32| v as int)
}

/// Coefficient-wise sum modulo the prime.
pub open spec fn ext_add(a: Seq<int>, b: Seq<int>) -> Seq<int> {
    Seq::new(a.len(), |i: int| (a[i] + b[i]) % modulus())
}

/// Coefficient-wise difference modulo the prime.
pub open spec fn ext_sub(a: Seq<int>, b: Seq<int>) -> Seq<int> {
    Seq::new(a.len(), |i: int| (a[i] - b[i]) % modulus())
}

/// Every coefficient multiplied by the base-field scalar `s`, modulo the prime.
pub open spec fn ext_scale(a: Seq<int>, s: int) -> Seq<int> {
    Seq::new(a.len(), |i: int| (a[i] * s) % modulus())
}

/// `sum_{j < i, 0 <= k - j < b.len()} a[j] * b[k - j]`.
pub open spec fn conv_sum(a: Seq<int>, b: Seq<int>, k: int, i: nat) -> int
    decreases i,
{
    if i == 0 {
        0
    } else {
        let j = i - 1;
        conv_sum(a, b, k, (i - 1) as nat) + if 0 <= k - j < b.len() {
            a[j] * b[k - j]
        } else {
            0
        }
    }
}

/// Coefficient `k` of the polynomial product `a * b` (before reduction).
pub open spec fn conv(a: Seq<int>, b: Seq<int>, k: int) -> int {
    conv_sum(a, b, k, a.len())
}

/// Product in `F[X] / (X^5 + X^2 - 1)`: the polynomial product reduced with
/// `X^5 = 1 - X^2`, `X^6 = X - X^3`, `X^7 = X^2 - X^4`, `X^8 = X^3 + X^2 - 1`.
pub open spec fn quintic_mul(a: Seq<int>, b: Seq<int>) -> Seq<int> {
    let p = modulus();
    seq![
        (conv(a, b, 0) + conv(a, b, 5) - conv(a, b, 8)) % p,
        (conv(a, b, 1) + conv(a, b, 6)) % p,
        (conv(a, b, 2) - conv(a, b, 5) + conv(a, b, 7) + conv(a, b, 8)) % p,
        (conv(a, b, 3) - conv(a, b, 6) + conv(a, b, 8)) % p,
        (conv(a, b, 4) - conv(a, b, 7)) % p,
    ]
}

/// Product in `F[X] / (X^8 - 3)`: the polynomial product reduced with `X^8 = 3`.
pub open spec fn octic_mul(a: Seq<int>, b: Seq<int>) -> Seq<int> {
    Seq::new(8, |k: int| (conv(a, b, k) + 3 * conv(a, b, k + 8)) % modulus())
}

/// The extension element with constant coefficient `c` and all others zero.
pub open spec fn ext_const(n: nat, c: int) -> Seq<int> {
    Seq::new(n, |i: int| if i == 0 { c } else { 0 })
}

// ---------------------------------------------------------------------------
// Calls into p3_field. Inputs are read with `from_u32`, which reduces modulo
// the prime, so each stated result holds for every input array.
// ---------------------------------------------------------------------------

/// `QuinticTrinomialExtensionField<KoalaBear>` addition: the coefficient-wise sum modulo the prime.
#[verifier::external_body]
fn p3_quintic_add(a: &[u32; 5], b: &[u32; 5]) -> (r: [u32; 5])
    ensures
        ints(r@) == ext_add(ints(a@), ints(b@)),
{
    let x = QuinticTrinomialExtensionField::<P3KoalaBear>::new(a.map(P3KoalaBear::from_u32));
    let y = QuinticTrinomialExtensionField::<P3KoalaBear>::new(b.map(P3KoalaBear::from_u32));
    let z = x + y;
    let c: &[P3KoalaBear] = z.as_basis_coefficients_slice();
    core::array::from_fn(|i| c[i].as_canonical_u32())
}

/// `QuinticTrinomialExtensionField<KoalaBear>` subtraction: the coefficient-wise difference modulo the prime.
#[verifier::external_body]
fn p3_quintic_sub(a: &[u32; 5], b: &[u32; 5]) -> (r: [u32; 5])
    ensures
        ints(r@) == ext_sub(ints(a@), ints(b@)),
{
    let x = QuinticTrinomialExtensionField::<P3KoalaBear>::new(a.map(P3KoalaBear::from_u32));
    let y = QuinticTrinomialExtensionField::<P3KoalaBear>::new(b.map(P3KoalaBear::from_u32));
    let z = x - y;
    let c: &[P3KoalaBear] = z.as_basis_coefficients_slice();
    core::array::from_fn(|i| c[i].as_canonical_u32())
}

/// `QuinticTrinomialExtensionField<KoalaBear>` multiplication: the polynomial product reduced modulo
/// `X^5 + X^2 - 1` and the prime.
#[verifier::external_body]
fn p3_quintic_mul(a: &[u32; 5], b: &[u32; 5]) -> (r: [u32; 5])
    ensures
        ints(r@) == quintic_mul(ints(a@), ints(b@)),
{
    let x = QuinticTrinomialExtensionField::<P3KoalaBear>::new(a.map(P3KoalaBear::from_u32));
    let y = QuinticTrinomialExtensionField::<P3KoalaBear>::new(b.map(P3KoalaBear::from_u32));
    let z = x * y;
    let c: &[P3KoalaBear] = z.as_basis_coefficients_slice();
    core::array::from_fn(|i| c[i].as_canonical_u32())
}

/// `QuinticTrinomialExtensionField<KoalaBear>` times a `KoalaBear` scalar: every coefficient times the scalar,
/// modulo the prime.
#[verifier::external_body]
fn p3_quintic_scale(a: &[u32; 5], s: u32) -> (r: [u32; 5])
    ensures
        ints(r@) == ext_scale(ints(a@), s as int),
{
    let x = QuinticTrinomialExtensionField::<P3KoalaBear>::new(a.map(P3KoalaBear::from_u32));
    let z = x * P3KoalaBear::from_u32(s);
    let c: &[P3KoalaBear] = z.as_basis_coefficients_slice();
    core::array::from_fn(|i| c[i].as_canonical_u32())
}

/// `BinomialExtensionField<KoalaBear, 8>` addition: the coefficient-wise sum modulo the prime.
#[verifier::external_body]
fn p3_octic_add(a: &[u32; 8], b: &[u32; 8]) -> (r: [u32; 8])
    ensures
        ints(r@) == ext_add(ints(a@), ints(b@)),
{
    let x = BinomialExtensionField::<P3KoalaBear, 8>::new(a.map(P3KoalaBear::from_u32));
    let y = BinomialExtensionField::<P3KoalaBear, 8>::new(b.map(P3KoalaBear::from_u32));
    let z = x + y;
    let c: &[P3KoalaBear] = z.as_basis_coefficients_slice();
    core::array::from_fn(|i| c[i].as_canonical_u32())
}

/// `BinomialExtensionField<KoalaBear, 8>` subtraction: the coefficient-wise difference modulo the prime.
#[verifier::external_body]
fn p3_octic_sub(a: &[u32; 8], b: &[u32; 8]) -> (r: [u32; 8])
    ensures
        ints(r@) == ext_sub(ints(a@), ints(b@)),
{
    let x = BinomialExtensionField::<P3KoalaBear, 8>::new(a.map(P3KoalaBear::from_u32));
    let y = BinomialExtensionField::<P3KoalaBear, 8>::new(b.map(P3KoalaBear::from_u32));
    let z = x - y;
    let c: &[P3KoalaBear] = z.as_basis_coefficients_slice();
    core::array::from_fn(|i| c[i].as_canonical_u32())
}

/// `BinomialExtensionField<KoalaBear, 8>` multiplication: the polynomial product reduced with `X^8 = 3`
/// and modulo the prime.
#[verifier::external_body]
fn p3_octic_mul(a: &[u32; 8], b: &[u32; 8]) -> (r: [u32; 8])
    ensures
        ints(r@) == octic_mul(ints(a@), ints(b@)),
{
    let x = BinomialExtensionField::<P3KoalaBear, 8>::new(a.map(P3KoalaBear::from_u32));
    let y = BinomialExtensionField::<P3KoalaBear, 8>::new(b.map(P3KoalaBear::from_u32));
    let z = x * y;
    let c: &[P3KoalaBear] = z.as_basis_coefficients_slice();
    core::array::from_fn(|i| c[i].as_canonical_u32())
}

/// `BinomialExtensionField<KoalaBear, 8>` times a `KoalaBear` scalar: every coefficient times the scalar,
/// modulo the prime.
#[verifier::external_body]
fn p3_octic_scale(a: &[u32; 8], s: u32) -> (r: [u32; 8])
    ensures
        ints(r@) == ext_scale(ints(a@), s as int),
{
    let x = BinomialExtensionField::<P3KoalaBear, 8>::new(a.map(P3KoalaBear::from_u32));
    let z = x * P3KoalaBear::from_u32(s);
    let c: &[P3KoalaBear] = z.as_basis_coefficients_slice();
    core::array::from_fn(|i| c[i].as_canonical_u32())
}

// ---------------------------------------------------------------------------
// Element types.
// ---------------------------------------------------------------------------

/// An element of the KoalaBear prime field, held as its canonical value.
pub struct KoalaBear {
    value: u32,
}

impl View for KoalaBear {
    type V = int;

    open spec fn view(&self) -> int {
        self.spec_value()
    }
}

impl KoalaBear {
    /// The canonical value.
    pub closed spec fn spec_value(&self) -> int {
        self.value as int
    }

    #[verifier::type_invariant]
    spec fn is_canonical(self) -> bool {
        self.value < KOALABEAR_MODULUS
    }

    /// The element with canonical value `value`.
    pub fn from_canonical(value: u32) -> (r: Self)
        requires
            value < KOALABEAR_MODULUS,
        ensures
            r@ == value as int,
    {
        KoalaBear { value }
    }

    /// The canonical value.
    pub fn value(&self) -> (r: u32)
        ensures
            r as int == self@,
            r < KOALABEAR_MODULUS,
    {
        proof {
            use_type_invariant(self);
        }
        self.value
    }
}

/// An element `c0 + c1 X + ... + c4 X^4` of `F[X] / (X^5 + X^2 - 1)`.
pub struct QuinticTrinomialExtension {
    coeffs: [u32; 5],
}

impl View for QuinticTrinomialExtension {
    type V = Seq<int>;

    /// The coefficients, lowest degree first.
    open spec fn view(&self) -> Seq<int> {
        self.spec_coeffs()
    }
}

impl QuinticTrinomialExtension {
    /// The coefficients, lowest degree first.
    pub closed spec fn spec_coeffs(&self) -> Seq<int> {
        ints(self.coeffs@)
    }

    #[verifier::type_invariant]
    spec fn is_canonical(self) -> bool {
        forall|i: int| 0 <= i < 5 ==> #[trigger] self.coeffs[i] < KOALABEAR_MODULUS
    }

    /// The element with the given canonical coefficients.
    pub fn from_coeffs(coeffs: [u32; 5]) -> (r: Self)
        requires
            forall|i: int| 0 <= i < 5 ==> #[trigger] coeffs[i] < KOALABEAR_MODULUS,
        ensures
            r@ == ints(coeffs@),
            canonical(r@, 5),
    {
        QuinticTrinomialExtension { coeffs }
    }

    /// The canonical coefficients, lowest degree first.
    pub fn coeffs(&self) -> (r: [u32; 5])
        ensures
            ints(r@) == self@,
            forall|i: int| 0 <= i < 5 ==> #[trigger] r[i] < KOALABEAR_MODULUS,
            canonical(self@, 5),
    {
        proof {
            use_type_invariant(self);
        }
        self.coeffs
    }

    /// The additive identity.
    pub fn zero() -> (r: Self)
        ensures
            r@ == ext_const(5, 0),
            canonical(r@, 5),
    {
        let r = QuinticTrinomialExtension { coeffs: [0u32; 5] };
        assert(r@ =~= ext_const(5, 0));
        r
    }

    /// The multiplicative identity.
    pub fn one() -> (r: Self)
        ensures
            r@ == ext_const(5, 1),
            canonical(r@, 5),
    {
        let mut c = [0u32; 5];
        c[0] = 1;
        let r = QuinticTrinomialExtension { coeffs: c };
        assert(r@ =~= ext_const(5, 1));
        r
    }

    /// The sum `self + rhs`.
    pub fn add(&self, rhs: &Self) -> (r: Self)
        ensures
            r@ == ext_add(self@, rhs@),
            canonical(r@, 5),
    {
        let c = p3_quintic_add(&self.coeffs, &rhs.coeffs);
        Self::from_reduced(c)
    }

    /// The difference `self - rhs`.
    pub fn sub(&self, rhs: &Self) -> (r: Self)
        ensures
            r@ == ext_sub(self@, rhs@),
            canonical(r@, 5),
    {
        let c = p3_quintic_sub(&self.coeffs, &rhs.coeffs);
        Self::from_reduced(c)
    }

    /// The product `self * rhs`.
    pub fn mul(&self, rhs: &Self) -> (r: Self)
        ensures
            r@ == quintic_mul(self@, rhs@),
            canonical(r@, 5),
    {
        let c = p3_quintic_mul(&self.coeffs, &rhs.coeffs);
        Self::from_reduced(c)
    }

    /// The square `self * self`.
    pub fn square(&self) -> (r: Self)
        ensures
            r@ == quintic_mul(self@, self@),
            canonical(r@, 5),
    {
        self.mul(self)
    }

    /// The product of `self` with the base-field element `scalar`.
    pub fn mul_base(&self, scalar: &KoalaBear) -> (r: Self)
        ensures
            r@ == ext_scale(self@, scalar@),
            canonical(r@, 5),
    {
        let c = p3_quintic_scale(&self.coeffs, scalar.value());
        Self::from_reduced(c)
    }

    /// Wraps coefficients that came back reduced from the field arithmetic.
    fn from_reduced(c: [u32; 5]) -> (r: Self)
        requires
            canonical(ints(c@), 5),
        ensures
            r@ == ints(c@),
            canonical(r@, 5),
    {
        assert forall|i: int| 0 <= i < 5 implies #[trigger] c[i] < KOALABEAR_MODULUS by {
            assert(ints(c@)[i] == c[i] as int);
        }
        QuinticTrinomialExtension { coeffs: c }
    }
}

/// An element `c0 + c1 X + ... + c7 X^7` of `F[X] / (X^8 - 3)`.
pub struct OcticBinExtension {
    coeffs: [u32; 8],
}

impl View for OcticBinExtension {
    type V = Seq<int>;

    /// The coefficients, lowest degree first.
    open spec fn view(&self) -> Seq<int> {
        self.spec_coeffs()
    }
}

impl OcticBinExtension {
    /// The coefficients, lowest degree first.
    pub closed spec fn spec_coeffs(&self) -> Seq<int> {
        ints(self.coeffs@)
    }

    #[verifier::type_invariant]
    spec fn is_canonical(self) -> bool {
        forall|i: int| 0 <= i < 8 ==> #[trigger] self.coeffs[i] < KOALABEAR_MODULUS
    }

    /// The element with the given canonical coefficients.
    pub fn from_coeffs(coeffs: [u32; 8]) -> (r: Self)
        requires
            forall|i: int| 0 <= i < 8 ==> #[trigger] coeffs[i] < KOALABEAR_MODULUS,
        ensures
            r@ == ints(coeffs@),
            canonical(r@, 8),
    {
        OcticBinExtension { coeffs }
    }

    /// The canonical coefficients, lowest degree first.
    pub fn coeffs(&self) -> (r: [u32; 8])
        ensures
            ints(r@) == self@,
            forall|i: int| 0 <= i < 8 ==> #[trigger] r[i] < KOALABEAR_MODULUS,
            canonical(self@, 8),
    {
        proof {
            use_type_invariant(self);
        }
        self.coeffs
    }

    /// The additive identity.
    pub fn zero() -> (r: Self)
        ensures
            r@ == ext_const(8, 0),
            canonical(r@, 8),
    {
        let r = OcticBinExtension { coeffs: [0u32; 8] };
        assert(r@ =~= ext_const(8, 0));
        r
    }

    /// The multiplicative identity.
    pub fn one() -> (r: Self)
        ensures
            r@ == ext_const(8, 1),
            canonical(r@, 8),
    {
        let mut c = [0u32; 8];
        c[0] = 1;
        let r = OcticBinExtension { coeffs: c };
        assert(r@ =~= ext_const(8, 1));
        r
    }

    /// The sum `self + rhs`.
    pub fn add(&self, rhs: &Self) -> (r: Self)
        ensures
            r@ == ext_add(self@, rhs@),
            canonical(r@, 8),
    {
        let c = p3_octic_add(&self.coeffs, &rhs.coeffs);
        Self::from_reduced(c)
    }

    /// The difference `self - rhs`.
    pub fn sub(&self, rhs: &Self) -> (r: Self)
        ensures
            r@ == ext_sub(self@, rhs@),
            canonical(r@, 8),
    {
        let c = p3_octic_sub(&self.coeffs, &rhs.coeffs);
        Self::from_reduced(c)
    }

    /// The product `self * rhs`.
    pub fn mul(&self, rhs: &Self) -> (r: Self)
        ensures
            r@ == octic_mul(self@, rhs@),
            canonical(r@, 8),
    {
        let c = p3_octic_mul(&self.coeffs, &rhs.coeffs);
        Self::from_reduced(c)
    }

    /// The square `self * self`.
    pub fn square(&self) -> (r: Self)
        ensures
            r@ == octic_mul(self@, self@),
            canonical(r@, 8),
    {
        self.mul(self)
    }

    /// The product of `self` with the base-field element `scalar`.
    pub fn mul_base(&self, scalar: &KoalaBear) -> (r: Self)
        ensures
            r@ == ext_scale(self@, scalar@),
            canonical(r@, 8),
    {
        let c = p3_octic_scale(&self.coeffs, scalar.value());
        Self::from_reduced(c)
    }

    /// Wraps coefficients that came back reduced from the field arithmetic.
    fn from_reduced(c: [u32; 8]) -> (r: Self)
        requires
            canonical(ints(c@), 8),
        ensures
            r@ == ints(c@),
            canonical(r@, 8),
    {
        assert forall|i: int| 0 <= i < 8 implies #[trigger] c[i] < KOALABEAR_MODULUS by {
            assert(ints(c@)[i] == c[i] as int);
        }
        OcticBinExtension { coeffs: c }
    }
}

} // verus!
