//! Deterministic test vectors for the quintic precompiles, drawn from a
//! seeded xorshift generator, so that other implementations can be checked
//! against these results byte for byte.

use crate::codec::{
    encode_hex_word, encode_packed_ext5_word, encode_spec, hex_word_spec, u32_word, u32_word_spec,
};
use crate::field::{
    ext_add, ext_const, ext_scale, ext_sub, modulus, quintic_mul, KoalaBear,
    QuinticTrinomialExtension, KOALABEAR_MODULUS,
};
use vstd::prelude::*;

verus! {

/// The seed of every vector stream.
pub const VECTOR_SEED: u64 = 0xE8C0_5A71_1234_5678;

/// How many arithmetic vectors the exporter writes.
pub const DEFAULT_VECTOR_COUNT: usize = 10_000;

/// How many MAC vectors the exporter writes per length and accumulator choice.
pub const DEFAULT_MAC_VECTOR_REPEATS: usize = 16;

/// The term counts of the MAC vectors.
pub const MAC_VECTOR_LENGTHS: [usize; 4] = [0, 1, 16, 64];

/// The state that replaces a zero seed, which xorshift would never leave.
pub const XORSHIFT_ZERO_SEED_STATE: u64 = 0x9E37_79B9_7F4A_7C15;

/// One xorshift64 step: `x ^= x << 13; x ^= x >> 7; x ^= x << 17`.
pub open spec fn xorshift_step(x: u64) -> u64 {
    let a = x ^ (x << 13u64);
    let b = a ^ (a >> 7u64);
    b ^ (b << 17u64)
}

/// The state after `k` steps from `s`.
pub open spec fn xorshift_iter(s: u64, k: nat) -> u64
    decreases k,
{
    if k == 0 {
        s
    } else {
        xorshift_step(xorshift_iter(s, (k - 1) as nat))
    }
}

/// The base-field element drawn by the step from state `s`: the low 32
/// bits of the next state, reduced modulo the prime.
pub open spec fn base_draw(s: u64) -> int {
    (xorshift_step(s) as int % 0x1_0000_0000) % modulus()
}

/// The quintic element drawn by five steps from state `s`, lowest
/// coefficient first.
pub open spec fn quintic_draw(s: u64) -> Seq<int> {
    Seq::new(5, |i: int| base_draw(xorshift_iter(s, i as nat)))
}

/// A nonzero state never steps to zero, so a generator seeded as `new` seeds
/// it never gets stuck.
pub proof fn law_xorshift_stays_nonzero(x: u64)
    requires
        x != 0,
    ensures
        xorshift_step(x) != 0,
{
    assert(x != 0 ==> ((x ^ (x << 13u64)) ^ ((x ^ (x << 13u64)) >> 7u64)) ^ (((x ^ (x << 13u64)) ^ ((x
        ^ (x << 13u64)) >> 7u64)) << 17u64) != 0) by (bit_vector);
}

/// A xorshift64 generator.
pub struct XorShift64 {
    state: u64,
}

impl View for XorShift64 {
    type V = u64;

    /// The current state.
    open spec fn view(&self) -> u64 {
        self.spec_state()
    }
}

impl XorShift64 {
    /// The current state.
    pub closed spec fn spec_state(&self) -> u64 {
        self.state
    }

    /// A generator seeded with `seed`; a zero seed is replaced by a fixed
    /// nonzero state.
    pub fn new(seed: u64) -> (r: Self)
        ensures
            r@ == if seed == 0 { XORSHIFT_ZERO_SEED_STATE } else { seed },
    {
        let state = if seed == 0 {
            XORSHIFT_ZERO_SEED_STATE
        } else {
            seed
        };
        Self { state }
    }

    /// Steps the generator and returns the new state.
    pub fn next_u64(&mut self) -> (r: u64)
        ensures
            r == xorshift_step(old(self)@),
            final(self)@ == r,
    {
        let mut x = self.state;
        x ^= x << 13u64;
        x ^= x >> 7u64;
        x ^= x << 17u64;
        self.state = x;
        x
    }

    /// Draws a base-field element: the low 32 bits of the next state modulo
    /// the prime.
    pub fn next_base_field(&mut self) -> (r: KoalaBear)
        ensures
            r@ == base_draw(old(self)@),
            final(self)@ == xorshift_step(old(self)@),
    {
        let x = self.next_u64();
        let low = (x % 0x1_0000_0000) as u32;
        KoalaBear::from_canonical(low % KOALABEAR_MODULUS)
    }

    /// Draws a quintic element, one base-field element per coefficient,
    /// lowest first.
    pub fn next_quintic(&mut self) -> (r: QuinticTrinomialExtension)
        ensures
            r@ == quintic_draw(old(self)@),
            final(self)@ == xorshift_iter(old(self)@, 5),
    {
        let ghost s0 = self@;
        let mut c = [0u32; 5];
        let mut i: usize = 0;
        while i < 5
            invariant
                0 <= i <= 5,
                self@ == xorshift_iter(s0, i as nat),
                forall|j: int| 0 <= j < i ==> #[trigger] c[j] as int == base_draw(xorshift_iter(s0, j as nat)),
                forall|j: int| 0 <= j < i ==> #[trigger] c[j] < KOALABEAR_MODULUS,
            decreases 5 - i,
        {
            let v = self.next_base_field();
            c[i] = v.value();
            i = i + 1;
        }
        let r = QuinticTrinomialExtension::from_coeffs(c);
        assert(r@ =~= quintic_draw(s0));
        r
    }
}

/// Stepping `a` times then `b` times is stepping `a + b` times.
pub proof fn lemma_xorshift_iter_add(s: u64, a: nat, b: nat)
    ensures
        xorshift_iter(xorshift_iter(s, a), b) == xorshift_iter(s, a + b),
    decreases b,
{
    if b > 0 {
        lemma_xorshift_iter_add(s, a, (b - 1) as nat);
    }
}

/// `count` pairs of quintic elements drawn from `VECTOR_SEED`: pair `i`
/// holds the elements drawn from states `10 i` and `10 i + 5` of the stream.
pub fn random_quintic_pairs(count: usize) -> (r: Vec<(QuinticTrinomialExtension, QuinticTrinomialExtension)>)
    ensures
        r@.len() == count,
        forall|i: int|
            0 <= i < count ==> #[trigger] r@[i].0@ == quintic_draw(xorshift_iter(VECTOR_SEED, (10 * i) as nat))
                && r@[i].1@ == quintic_draw(xorshift_iter(VECTOR_SEED, (10 * i + 5) as nat)),
{
    let mut rng = XorShift64::new(VECTOR_SEED);
    let mut out: Vec<(QuinticTrinomialExtension, QuinticTrinomialExtension)> = Vec::new();
    let mut i: usize = 0;
    while i < count
        invariant
            i <= count,
            rng@ == xorshift_iter(VECTOR_SEED, (10 * i) as nat),
            out@.len() == i,
            forall|j: int|
                0 <= j < i ==> #[trigger] out@[j].0@ == quintic_draw(xorshift_iter(VECTOR_SEED, (10 * j) as nat))
                    && out@[j].1@ == quintic_draw(xorshift_iter(VECTOR_SEED, (10 * j + 5) as nat)),
        decreases count - i,
    {
        let a = rng.next_quintic();
        let b = rng.next_quintic();
        proof {
            lemma_xorshift_iter_add(VECTOR_SEED, (10 * i) as nat, 5);
            lemma_xorshift_iter_add(VECTOR_SEED, (10 * i + 5) as nat, 5);
        }
        let ghost before = out@;
        out.push((a, b));
        assert forall|j: int| 0 <= j <= i implies #[trigger] out@[j].0@ == quintic_draw(
            xorshift_iter(VECTOR_SEED, (10 * j) as nat),
        ) && out@[j].1@ == quintic_draw(xorshift_iter(VECTOR_SEED, (10 * j + 5) as nat)) by {
            if j < i {
                assert(out@[j] == before[j]);
                assert(before[j].0@ == quintic_draw(xorshift_iter(VECTOR_SEED, (10 * j) as nat)));
            }
        }
        i = i + 1;
    }
    out
}

/// One arithmetic vector: two quintic elements `a`, `b`, a base scalar, and
/// the packed results of every arithmetic precompile on them, all as `0x` hex.
pub struct Ext5ArithmeticVector {
    pub packed_a: String,
    pub packed_b: String,
    pub scalar: String,
    pub packed_add: String,
    pub packed_sub: String,
    pub packed_mul: String,
    pub packed_square_a: String,
    pub packed_mul_base: String,
}

/// The arithmetic vectors and the seed and count they were drawn with.
pub struct Ext5ArithmeticVectorFile {
    pub seed: u64,
    pub count: usize,
    pub vectors: Vec<Ext5ArithmeticVector>,
}

/// The hex text of a packed quintic element.
pub open spec fn packed_hex(c: Seq<int>) -> Seq<char> {
    hex_word_spec(encode_spec(c))
}

/// `v` is the arithmetic vector drawn from stream state `s`: `a` from `s`,
/// `b` from `s + 5`, the scalar from `s + 10`.
pub open spec fn arith_vector_drawn(v: Ext5ArithmeticVector, s: u64) -> bool {
    let a = quintic_draw(s);
    let b = quintic_draw(xorshift_iter(s, 5));
    let k = base_draw(xorshift_iter(s, 10));
    &&& v.packed_a@ == packed_hex(a)
    &&& v.packed_b@ == packed_hex(b)
    &&& v.scalar@ == hex_word_spec(u32_word_spec(k))
    &&& v.packed_add@ == packed_hex(ext_add(a, b))
    &&& v.packed_sub@ == packed_hex(ext_sub(a, b))
    &&& v.packed_mul@ == packed_hex(quintic_mul(a, b))
    &&& v.packed_square_a@ == packed_hex(quintic_mul(a, a))
    &&& v.packed_mul_base@ == packed_hex(ext_scale(a, k))
}

/// The hex text of a packed quintic element.
fn hex_of(x: &QuinticTrinomialExtension) -> (r: String)
    ensures
        r@ == packed_hex(x@),
{
    encode_hex_word(&encode_packed_ext5_word(x))
}

/// `count` arithmetic vectors drawn from `VECTOR_SEED`; vector `i` is drawn
/// from state `11 i` of the stream.
pub fn generate_ext5_arithmetic_vectors(count: usize) -> (r: Ext5ArithmeticVectorFile)
    ensures
        r.seed == VECTOR_SEED,
        r.count == count,
        r.vectors@.len() == count,
        forall|i: int|
            0 <= i < count ==> #[trigger] arith_vector_drawn(
                r.vectors@[i],
                xorshift_iter(VECTOR_SEED, (11 * i) as nat),
            ),
{
    let mut rng = XorShift64::new(VECTOR_SEED);
    let mut vectors: Vec<Ext5ArithmeticVector> = Vec::with_capacity(count);
    let mut i: usize = 0;
    while i < count
        invariant
            i <= count,
            rng@ == xorshift_iter(VECTOR_SEED, (11 * i) as nat),
            vectors@.len() == i,
            forall|j: int|
                0 <= j < i ==> #[trigger] arith_vector_drawn(
                    vectors@[j],
                    xorshift_iter(VECTOR_SEED, (11 * j) as nat),
                ),
        decreases count - i,
    {
        let ghost s = rng@;
        let a = rng.next_quintic();
        let b = rng.next_quintic();
        let scalar = rng.next_base_field();
        proof {
            lemma_xorshift_iter_add(s, 5, 5);
            lemma_xorshift_iter_add(s, 10, 1);
            lemma_xorshift_iter_add(VECTOR_SEED, (11 * i) as nat, 11);
        }
        let v = Ext5ArithmeticVector {
            packed_a: hex_of(&a),
            packed_b: hex_of(&b),
            scalar: encode_hex_word(&u32_word(scalar.value())),
            packed_add: hex_of(&a.add(&b)),
            packed_sub: hex_of(&a.sub(&b)),
            packed_mul: hex_of(&a.mul(&b)),
            packed_square_a: hex_of(&a.square()),
            packed_mul_base: hex_of(&a.mul_base(&scalar)),
        };
        assert(arith_vector_drawn(v, s));
        vectors.push(v);
        i = i + 1;
    }
    Ext5ArithmeticVectorFile { seed: VECTOR_SEED, count, vectors }
}

/// The seed of the MAC vector stream.
pub open spec fn mac_vector_seed() -> u64 {
    VECTOR_SEED ^ 0xA7AC_D017_5EED_0005u64
}

/// One MAC vector: `n` pairs `a_i`, `b_i`, an accumulator (zero when not
/// included), and the packed `acc + sum a_i * b_i`, all as `0x` hex.
pub struct ExtfieldMacVector {
    pub n: usize,
    pub include_accumulator: bool,
    pub packed_accumulator: String,
    pub packed_a: Vec<String>,
    pub packed_b: Vec<String>,
    pub packed_output: String,
}

/// The MAC vectors with the seed, repeat count and term counts they were drawn with.
pub struct ExtfieldMacVectorFile {
    pub seed: u64,
    pub repeats: usize,
    pub lengths: Vec<usize>,
    pub vectors: Vec<ExtfieldMacVector>,
}

/// Stream steps one MAC vector consumes.
pub open spec fn mac_vector_draws(n: nat, include_accumulator: bool) -> nat {
    (if include_accumulator { 5nat } else { 0nat }) + 10 * n
}

/// Steps before the first pair of a MAC vector.
pub open spec fn mac_pairs_offset(include_accumulator: bool) -> nat {
    if include_accumulator { 5nat } else { 0nat }
}

/// The starting accumulator of the MAC vector drawn from state `s`.
pub open spec fn mac_vector_start(s: u64, include_accumulator: bool) -> Seq<int> {
    if include_accumulator {
        quintic_draw(s)
    } else {
        ext_const(5, 0)
    }
}

/// Pair `i` of the MAC vector drawn from state `s`.
pub open spec fn mac_vector_a(s: u64, include_accumulator: bool, i: int) -> Seq<int> {
    quintic_draw(xorshift_iter(s, (mac_pairs_offset(include_accumulator) + 10 * i) as nat))
}

/// Pair `i` of the MAC vector drawn from state `s`.
pub open spec fn mac_vector_b(s: u64, include_accumulator: bool, i: int) -> Seq<int> {
    quintic_draw(xorshift_iter(s, (mac_pairs_offset(include_accumulator) + 10 * i + 5) as nat))
}

/// The accumulator after the first `k` pairs of the MAC vector drawn from `s`.
pub open spec fn mac_vector_sum(s: u64, include_accumulator: bool, k: nat) -> Seq<int>
    decreases k,
{
    if k == 0 {
        mac_vector_start(s, include_accumulator)
    } else {
        ext_add(
            mac_vector_sum(s, include_accumulator, (k - 1) as nat),
            quintic_mul(
                mac_vector_a(s, include_accumulator, k - 1),
                mac_vector_b(s, include_accumulator, k - 1),
            ),
        )
    }
}

/// `v` is the MAC vector of `n` pairs drawn from stream state `s`.
pub open spec fn mac_vector_drawn(v: ExtfieldMacVector, s: u64, n: nat, include_accumulator: bool) -> bool {
    &&& v.n == n
    &&& v.include_accumulator == include_accumulator
    &&& v.packed_accumulator@ == packed_hex(mac_vector_start(s, include_accumulator))
    &&& v.packed_a@.len() == n
    &&& v.packed_b@.len() == n
    &&& forall|i: int|
        0 <= i < n ==> #[trigger] v.packed_a@[i]@ == packed_hex(mac_vector_a(s, include_accumulator, i))
            && v.packed_b@[i]@ == packed_hex(mac_vector_b(s, include_accumulator, i))
    &&& v.packed_output@ == packed_hex(mac_vector_sum(s, include_accumulator, n))
}

/// Draws one MAC vector of `n` pairs.
fn draw_mac_vector(rng: &mut XorShift64, n: usize, include_accumulator: bool) -> (r: ExtfieldMacVector)
    ensures
        mac_vector_drawn(r, old(rng)@, n as nat, include_accumulator),
        final(rng)@ == xorshift_iter(old(rng)@, mac_vector_draws(n as nat, include_accumulator)),
{
    let ghost s = rng@;
    let accumulator = if include_accumulator {
        rng.next_quintic()
    } else {
        QuinticTrinomialExtension::zero()
    };
    proof {
        if !include_accumulator {
            assert(xorshift_iter(s, 0) == s);
        }
    }
    let packed_accumulator = hex_of(&accumulator);
    let mut acc = accumulator;
    let mut packed_a: Vec<String> = Vec::with_capacity(n);
    let mut packed_b: Vec<String> = Vec::with_capacity(n);
    let mut i: usize = 0;
    while i < n
        invariant
            i <= n,
            rng@ == xorshift_iter(s, (mac_pairs_offset(include_accumulator) + 10 * i) as nat),
            acc@ == mac_vector_sum(s, include_accumulator, i as nat),
            packed_a@.len() == i,
            packed_b@.len() == i,
            forall|j: int|
                0 <= j < i ==> #[trigger] packed_a@[j]@ == packed_hex(mac_vector_a(s, include_accumulator, j))
                    && packed_b@[j]@ == packed_hex(mac_vector_b(s, include_accumulator, j)),
        decreases n - i,
    {
        let a = rng.next_quintic();
        let b = rng.next_quintic();
        proof {
            let base = (mac_pairs_offset(include_accumulator) + 10 * i) as nat;
            lemma_xorshift_iter_add(s, base, 5);
            lemma_xorshift_iter_add(s, (base + 5) as nat, 5);
        }
        acc = acc.add(&a.mul(&b));
        let ghost before_a = packed_a@;
        let ghost before_b = packed_b@;
        packed_a.push(hex_of(&a));
        packed_b.push(hex_of(&b));
        assert forall|j: int| 0 <= j < i implies #[trigger] packed_a@[j] == before_a[j] && packed_b@[j]
            == before_b[j] by {}
        assert(packed_a@[i as int]@ == packed_hex(mac_vector_a(s, include_accumulator, i as int)));
        assert(packed_b@[i as int]@ == packed_hex(mac_vector_b(s, include_accumulator, i as int)));
        i = i + 1;
    }
    ExtfieldMacVector {
        n,
        include_accumulator,
        packed_accumulator,
        packed_a,
        packed_b,
        packed_output: hex_of(&acc),
    }
}

/// The term count of MAC vector group `g` (0..8): the lengths in order, each
/// first without and then with an accumulator.
pub open spec fn mac_group_len(g: int) -> nat {
    MAC_VECTOR_LENGTHS[g / 2] as nat
}

/// Whether MAC vector group `g` includes an accumulator.
pub open spec fn mac_group_acc(g: int) -> bool {
    g % 2 == 1
}

/// The stream state index at which MAC vector group `g` starts.
pub open spec fn mac_group_start(repeats: nat, g: nat) -> nat
    decreases g,
{
    if g == 0 {
        0
    } else {
        mac_group_start(repeats, (g - 1) as nat) + repeats * mac_vector_draws(
            mac_group_len(g - 1),
            mac_group_acc(g - 1),
        )
    }
}

/// The position of repeat `r` of group `g` in the MAC vector file.
pub open spec fn mac_vector_index(repeats: int, g: int, r: int) -> int {
    g * repeats + r
}

/// The stream state from which repeat `r` of group `g` is drawn.
pub open spec fn mac_vector_state(repeats: nat, g: int, r: int) -> u64 {
    xorshift_iter(
        mac_vector_seed(),
        (mac_group_start(repeats, g as nat) + r * mac_vector_draws(mac_group_len(g), mac_group_acc(g))) as nat,
    )
}

/// The stream steps the first `j` vectors of `vs` consume, each vector
/// consuming `mac_vector_draws` of its own term count and accumulator flag.
pub open spec fn mac_draws_before(vs: Seq<ExtfieldMacVector>, j: int) -> nat
    decreases j,
{
    if j <= 0 {
        0
    } else {
        mac_draws_before(vs, j - 1) + mac_vector_draws(vs[j - 1].n as nat, vs[j - 1].include_accumulator)
    }
}

/// The MAC vectors of a file laid out in groups of `repeats` use one stream
/// with no gap and no overlap: repeat `k` of group `g` starts at the stream
/// position reached after every earlier vector of the file has taken its
/// draws, whatever the earlier vectors are.
pub proof fn law_mac_vectors_consume_consecutive_stretches(
    vs: Seq<ExtfieldMacVector>,
    repeats: int,
    g: int,
    k: int,
)
    requires
        0 <= g < 8,
        0 <= k <= repeats,
        forall|g1: int, k1: int|
            0 <= g1 < 8 && 0 <= k1 < repeats ==> #[trigger] vs[mac_vector_index(repeats, g1, k1)].n
                == mac_group_len(g1) && vs[mac_vector_index(repeats, g1, k1)].include_accumulator
                == mac_group_acc(g1),
    ensures
        mac_draws_before(vs, mac_vector_index(repeats, g, k)) == mac_group_start(repeats as nat, g as nat) + k
            * mac_vector_draws(mac_group_len(g), mac_group_acc(g)),
        k < repeats ==> mac_vector_state(repeats as nat, g, k) == xorshift_iter(
            mac_vector_seed(),
            mac_draws_before(vs, mac_vector_index(repeats, g, k)),
        ),
    decreases g, k,
{
    let d = mac_vector_draws(mac_group_len(g), mac_group_acc(g));
    if k == 0 {
        assert(0 * d == 0);
        if g > 0 {
            law_mac_vectors_consume_consecutive_stretches(vs, repeats, g - 1, repeats);
            assert((g - 1) * repeats + repeats == g * repeats) by (nonlinear_arith);
            assert(mac_group_start(repeats as nat, g as nat) == mac_group_start(repeats as nat, (g - 1) as nat)
                + repeats * mac_vector_draws(mac_group_len(g - 1), mac_group_acc(g - 1)));
        } else {
            assert(g * repeats == 0) by (nonlinear_arith)
                requires
                    g == 0,
            ;
        }
    } else {
        law_mac_vectors_consume_consecutive_stretches(vs, repeats, g, k - 1);
        let j = mac_vector_index(repeats, g, k);
        assert(j - 1 == mac_vector_index(repeats, g, k - 1));
        assert(vs[mac_vector_index(repeats, g, k - 1)].n == mac_group_len(g));
        assert((k - 1) * d + d == k * d) by (nonlinear_arith);
    }
}

proof fn lemma_index_in_earlier_group(repeats: int, g1: int, r1: int, g2: int, r2: int)
    requires
        0 <= g1 < g2,
        0 <= r1 < repeats,
        0 <= r2,
    ensures
        g1 * repeats + r1 < g2 * repeats + r2,
{
    assert(g1 * repeats + r1 < g2 * repeats + r2) by (nonlinear_arith)
        requires
            0 <= g1 < g2,
            0 <= r1 < repeats,
            0 <= r2,
    ;
}

/// `repeats` MAC vectors for every term count in `MAC_VECTOR_LENGTHS`, first
/// without and then with an accumulator, drawn in that order from one stream.
pub fn generate_extfield_mac_vectors(repeats: usize) -> (r: ExtfieldMacVectorFile)
    requires
        8 * repeats <= usize::MAX,
    ensures
        r.seed == VECTOR_SEED,
        r.repeats == repeats,
        r.lengths@ == MAC_VECTOR_LENGTHS@,
        r.vectors@.len() == 8 * repeats,
        forall|g: int, k: int|
            0 <= g < 8 && 0 <= k < repeats ==> mac_vector_drawn(
                #[trigger] r.vectors@[mac_vector_index(repeats as int, g, k)],
                mac_vector_state(repeats as nat, g, k),
                mac_group_len(g),
                mac_group_acc(g),
            ),
        forall|j: int|
            0 <= j < r.vectors@.len() ==> mac_vector_drawn(
                #[trigger] r.vectors@[j],
                xorshift_iter(VECTOR_SEED ^ 0xA7AC_D017_5EED_0005u64, mac_draws_before(r.vectors@, j)),
                r.vectors@[j].n as nat,
                r.vectors@[j].include_accumulator,
            ),
{
    let seed = VECTOR_SEED ^ 0xA7AC_D017_5EED_0005u64;
    assert(seed != 0) by (bit_vector)
        requires
            seed == 0xE8C0_5A71_1234_5678u64 ^ 0xA7AC_D017_5EED_0005u64,
    ;
    let mut rng = XorShift64::new(seed);
    let mut vectors: Vec<ExtfieldMacVector> = Vec::with_capacity(MAC_VECTOR_LENGTHS.len() * 2 * repeats);
    let mut g: usize = 0;
    while g < 8
        invariant
            8 * repeats <= usize::MAX,
            g <= 8,
            seed == mac_vector_seed(),
            vectors@.len() == g * repeats,
            rng@ == xorshift_iter(seed, mac_group_start(repeats as nat, g as nat)),
            forall|g1: int, k: int|
                0 <= g1 < g && 0 <= k < repeats ==> mac_vector_drawn(
                    #[trigger] vectors@[mac_vector_index(repeats as int, g1, k)],
                    mac_vector_state(repeats as nat, g1, k),
                    mac_group_len(g1),
                    mac_group_acc(g1),
                ),
        decreases 8 - g,
    {
        let n = MAC_VECTOR_LENGTHS[g / 2];
        let include_accumulator = g % 2 == 1;
        let mut k: usize = 0;
        proof {
            let d = mac_vector_draws(mac_group_len(g as int), mac_group_acc(g as int));
            assert(0 * d == 0);
            assert(mac_vector_state(repeats as nat, g as int, 0) == xorshift_iter(
                mac_vector_seed(),
                mac_group_start(repeats as nat, g as nat),
            ));
        }
        while k < repeats
            invariant
                8 * repeats <= usize::MAX,
                g < 8,
                n == mac_group_len(g as int),
                include_accumulator == mac_group_acc(g as int),
                seed == mac_vector_seed(),
                k <= repeats,
                vectors@.len() == g * repeats + k,
                rng@ == mac_vector_state(repeats as nat, g as int, k as int),
                forall|g1: int, k1: int|
                    0 <= g1 < g && 0 <= k1 < repeats ==> mac_vector_drawn(
                        #[trigger] vectors@[mac_vector_index(repeats as int, g1, k1)],
                        mac_vector_state(repeats as nat, g1, k1),
                        mac_group_len(g1),
                        mac_group_acc(g1),
                    ),
                forall|k1: int|
                    0 <= k1 < k ==> mac_vector_drawn(
                        #[trigger] vectors@[mac_vector_index(repeats as int, g as int, k1)],
                        mac_vector_state(repeats as nat, g as int, k1),
                        mac_group_len(g as int),
                        mac_group_acc(g as int),
                    ),
            decreases repeats - k,
        {
            let ghost before = vectors@;
            let ghost s = rng@;
            let v = draw_mac_vector(&mut rng, n, include_accumulator);
            vectors.push(v);
            proof {
                let d = mac_vector_draws(mac_group_len(g as int), mac_group_acc(g as int));
                let start = mac_group_start(repeats as nat, g as nat);
                lemma_xorshift_iter_add(seed, (start + k * d) as nat, d);
                assert(start + k * d + d == start + (k + 1) * d) by (nonlinear_arith);
                assert forall|g1: int, k1: int|
                    0 <= g1 < g && 0 <= k1 < repeats implies mac_vector_drawn(
                        #[trigger] vectors@[mac_vector_index(repeats as int, g1, k1)],
                        mac_vector_state(repeats as nat, g1, k1),
                        mac_group_len(g1),
                        mac_group_acc(g1),
                    ) by {
                    lemma_index_in_earlier_group(repeats as int, g1, k1, g as int, k as int);
                    assert(vectors@[mac_vector_index(repeats as int, g1, k1)] == before[mac_vector_index(
                        repeats as int,
                        g1,
                        k1,
                    )]);
                }
                assert forall|k1: int|
                    0 <= k1 < k + 1 implies mac_vector_drawn(
                        #[trigger] vectors@[mac_vector_index(repeats as int, g as int, k1)],
                        mac_vector_state(repeats as nat, g as int, k1),
                        mac_group_len(g as int),
                        mac_group_acc(g as int),
                    ) by {
                    if k1 < k {
                        assert(vectors@[mac_vector_index(repeats as int, g as int, k1)] == before[mac_vector_index(
                            repeats as int,
                            g as int,
                            k1,
                        )]);
                    }
                }
            }
            k = k + 1;
        }
        proof {
            assert(mac_group_start(repeats as nat, (g + 1) as nat) == mac_group_start(repeats as nat, g as nat)
                + repeats * mac_vector_draws(mac_group_len(g as int), mac_group_acc(g as int)));
            assert(g * repeats + repeats == (g + 1) * repeats) by (nonlinear_arith);
        }
        g = g + 1;
    }
    let mut lengths: Vec<usize> = Vec::new();
    let mut li: usize = 0;
    while li < 4
        invariant
            li <= 4,
            lengths@ == MAC_VECTOR_LENGTHS@.subrange(0, li as int),
        decreases 4 - li,
    {
        lengths.push(MAC_VECTOR_LENGTHS[li]);
        li = li + 1;
        assert(MAC_VECTOR_LENGTHS@.subrange(0, li as int) =~= MAC_VECTOR_LENGTHS@.subrange(0, li - 1).push(
            MAC_VECTOR_LENGTHS@[li - 1],
        ));
    }
    assert(MAC_VECTOR_LENGTHS@.subrange(0, 4) =~= MAC_VECTOR_LENGTHS@);
    proof {
        let vs = vectors@;
        let rp = repeats as int;
        assert forall|g1: int, k1: int| 0 <= g1 < 8 && 0 <= k1 < rp implies #[trigger] vs[mac_vector_index(
            rp,
            g1,
            k1,
        )].n == mac_group_len(g1) && vs[mac_vector_index(rp, g1, k1)].include_accumulator == mac_group_acc(
            g1,
        ) by {}
        assert forall|j: int| 0 <= j < vs.len() implies mac_vector_drawn(
            #[trigger] vs[j],
            xorshift_iter(seed, mac_draws_before(vs, j)),
            vs[j].n as nat,
            vs[j].include_accumulator,
        ) by {
            let g = j / rp;
            let k = j % rp;
            assert(0 <= g < 8 && 0 <= k < rp && j == g * rp + k) by (nonlinear_arith)
                requires
                    0 <= j < 8 * rp,
                    g == j / rp,
                    k == j % rp,
            ;
            law_mac_vectors_consume_consecutive_stretches(vs, rp, g, k);
            assert(vs[mac_vector_index(rp, g, k)] == vs[j]);
        }
    }
    ExtfieldMacVectorFile { seed: VECTOR_SEED, repeats, lengths, vectors }
}

} // verus!
