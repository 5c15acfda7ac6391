//! The pseudo-random numbers that fill the test matrices.

use vstd::arithmetic::power2::{lemma2_to64, lemma_pow2_strictly_increases, lemma_pow2_unfold, pow2};
use vstd::prelude::*;

verus! {

/// The state of the generator that follows on `state`.
pub open spec fn lcg_next(state: u32) -> u32 {
    state.wrapping_mul(1664525).wrapping_add(1013904223)
}

/// The state after `n` numbers from a generator in `state`.
pub open spec fn lcg_after(state: u32, n: nat) -> u32
    decreases n,
{
    if n == 0 {
        state
    } else {
        lcg_next(lcg_after(state, (n - 1) as nat))
    }
}

/// The low 23 bits of `u`.
pub open spec fn fraction(u: u32) -> u32 {
    u % 0x80_0000
}

/// `bits` is the bit pattern of the 32-bit float `k / 2^23`.
///
/// Zero is all zeros. Any other number has an exponent field `e` and a significand between
/// `2^23` and `2^24`, whose top bit is left out; it stands for the significand times
/// `2^(e - 150)`.
pub open spec fn is_unit_float(bits: u32, k: u32) -> bool {
    if k == 0 {
        bits == 0
    } else {
        let e = (bits / 0x80_0000) as nat;
        &&& 104 <= e <= 126
        &&& (0x80_0000 + bits % 0x80_0000) * pow2(e) == k * pow2(127)
    }
}

/// A linear congruential generator.
pub struct Lcg {
    pub state: u32,
}

impl Lcg {
    pub fn new(seed: u32) -> (r: Self)
        ensures
            r.state == seed,
    {
        Lcg { state: seed }
    }

    /// The next number.
    pub fn next_u32(&mut self) -> (r: u32)
        ensures
            r == lcg_next(old(self).state),
            final(self).state == r,
    {
        self.state = self.state.wrapping_mul(1664525).wrapping_add(1013904223);
        self.state
    }

    /// The bit pattern of the next float, at least 0 and less than 1: the low bits of the next
    /// number, over `2^23`.
    pub fn next_f32(&mut self) -> (r: u32)
        ensures
            final(self).state == lcg_next(old(self).state),
            is_unit_float(r, fraction(lcg_next(old(self).state))),
    {
        let u = self.next_u32();
        let k = u & 0x007F_FFFF;
        assert(u & 0x007F_FFFF == u % 0x80_0000) by (bit_vector);
        unit_float(k)
    }
}

/// The bit pattern of the 32-bit float `k / 2^23`.
fn unit_float(k: u32) -> (r: u32)
    requires
        k < 0x80_0000,
    ensures
        is_unit_float(r, k),
{
    if k == 0 {
        return 0;
    }
    let mut m: u32 = k;
    let mut e: u32 = 127;
    proof {
        lemma2_to64();
    }
    while m < 0x80_0000
        invariant
            0 < k <= m < 0x100_0000,
            e <= 127,
            e == 127 ==> m == k,
            k < 0x80_0000,
            pow2((127 - e) as nat) <= m,
            m * pow2(e as nat) == k * pow2(127),
        decreases e,
    {
        proof {
            lemma_doublings(m, (127 - e) as nat);
            lemma_pow2_unfold(e as nat);
            lemma_pow2_unfold((127 - e + 1) as nat);
            let half = pow2((e - 1) as nat);
            assert((2 * m) * half == m * (2 * half)) by (nonlinear_arith);
        }
        m = 2 * m;
        e = e - 1;
    }
    proof {
        lemma_doublings(m, (127 - e) as nat);
    }
    let bits = e * 0x80_0000 + (m - 0x80_0000);
    assert(bits / 0x80_0000 == e);
    assert(bits % 0x80_0000 == m - 0x80_0000);
    bits
}

/// A number under `2^24` that is at least `2^n` has `n` at most 23.
proof fn lemma_doublings(m: u32, n: nat)
    requires
        m < 0x100_0000,
        pow2(n) <= m,
    ensures
        n <= 23,
{
    lemma2_to64();
    if n > 24 {
        lemma_pow2_strictly_increases(24, n);
    }
}

/// The exponent field and the significand of a number leave no choice: two patterns of one
/// float are the same.
pub proof fn lemma_unit_float_is_unique(a: u32, b: u32, k: u32)
    requires
        is_unit_float(a, k),
        is_unit_float(b, k),
    ensures
        a == b,
{
    if k != 0 {
        let ea = (a / 0x80_0000) as nat;
        let eb = (b / 0x80_0000) as nat;
        let ma = (0x80_0000 + a % 0x80_0000) as nat;
        let mb = (0x80_0000 + b % 0x80_0000) as nat;
        if ea < eb {
            lemma_higher_exponent_is_more(ma, ea, mb, eb);
        } else if eb < ea {
            lemma_higher_exponent_is_more(mb, eb, ma, ea);
        } else {
            let p = pow2(ea);
            vstd::arithmetic::power2::lemma_pow2_pos(ea);
            assert(ma == mb) by (nonlinear_arith)
                requires
                    ma * p == mb * p,
                    p > 0,
            ;
        }
    }
}

/// Of two normalised numbers the one with the higher exponent is more.
proof fn lemma_higher_exponent_is_more(ma: nat, ea: nat, mb: nat, eb: nat)
    requires
        0x80_0000 <= ma < 0x100_0000,
        0x80_0000 <= mb < 0x100_0000,
        ea < eb,
    ensures
        ma * pow2(ea) < mb * pow2(eb),
{
    let p = pow2(ea);
    let q = pow2(eb);
    vstd::arithmetic::power2::lemma_pow2_pos(ea);
    lemma_pow2_unfold((ea + 1) as nat);
    if ea + 1 < eb {
        lemma_pow2_strictly_increases((ea + 1) as nat, eb);
    }
    assert(q >= 2 * p);
    assert(ma * p < mb * q) by (nonlinear_arith)
        requires
            ma < 0x100_0000,
            0x80_0000 <= mb,
            q >= 2 * p,
            p > 0,
    ;
}

/// The generator is linear modulo `2^32`: its number is 1664525 times the one before, plus
/// 1013904223, short of multiples of `2^32`.
pub proof fn lemma_generator_is_linear(state: u32)
    ensures
        lcg_next(state) == (state * 1664525 + 1013904223) % 0x1_0000_0000,
{
    let x = state * 1664525;
    let q = x / 0x1_0000_0000;
    let r = x % 0x1_0000_0000;
    assert(state.wrapping_mul(1664525) == r);
    assert(x == q * 0x1_0000_0000 + r);
    let s = r + 1013904223;
    vstd::arithmetic::div_mod::lemma_mod_multiples_vanish(q, s, 0x1_0000_0000);
    assert(0x1_0000_0000 * q + s == x + 1013904223);
    if s >= 0x1_0000_0000 {
        assert(s % 0x1_0000_0000 == s - 0x1_0000_0000);
    } else {
        assert(s % 0x1_0000_0000 == s);
    }
}

/// One more before is 1664525 more afterwards.
pub proof fn lemma_generator_keeps_distances(state: u32)
    requires
        state < u32::MAX,
    ensures
        lcg_next((state + 1) as u32) == lcg_next(state) + 1664525 || lcg_next((state + 1) as u32)
            == lcg_next(state) + 1664525 - 0x1_0000_0000,
{
    lemma_generator_is_linear(state);
    lemma_generator_is_linear((state + 1) as u32);
    let a = state * 1664525 + 1013904223;
    let b = (state + 1) * 1664525 + 1013904223;
    assert(b == a + 1664525);
}

/// The states follow on each other, and a generator that goes on goes on from where it was.
pub proof fn lemma_generator_goes_on(state: u32, n: nat, k: nat)
    ensures
        lcg_after(state, 0) == state,
        lcg_after(state, n + 1) == lcg_next(lcg_after(state, n)),
        lcg_after(state, n + k) == lcg_after(lcg_after(state, n), k),
    decreases k,
{
    if k > 0 {
        lemma_generator_goes_on(state, n, (k - 1) as nat);
        assert(lcg_after(state, n + k) == lcg_next(lcg_after(state, (n + (k - 1)) as nat)));
    }
}

/// The patterns of the floats from one half up to one lie as close as those floats do: each step
/// of `2^-23` is a step of two in the pattern, from `0x3F000000` on.
pub proof fn lemma_upper_half_is_even_steps(bits: u32, k: u32)
    requires
        is_unit_float(bits, k),
        0x40_0000 <= k < 0x80_0000,
    ensures
        bits == 0x3F00_0000 + 2 * (k - 0x40_0000),
{
    let want = (0x3F00_0000 + 2 * (k - 0x40_0000)) as u32;
    assert(want / 0x80_0000 == 126);
    assert(want % 0x80_0000 == 2 * k - 0x80_0000);
    lemma_pow2_unfold(127);
    let p = pow2(126);
    assert((2 * k) * p == k * (2 * p)) by (nonlinear_arith);
    lemma_unit_float_is_unique(bits, want, k);
}

/// Twice a float is the float with the exponent one up: the same pattern, `2^23` further on.
pub proof fn lemma_doubling_raises_exponent(a: u32, b: u32, k: u32)
    requires
        0 < k < 0x40_0000,
        is_unit_float(a, k),
        is_unit_float(b, (2 * k) as u32),
    ensures
        b == a + 0x80_0000,
{
    let e = (a / 0x80_0000) as nat;
    let m = 0x80_0000 + a % 0x80_0000;
    let p = pow2(e);
    lemma_pow2_unfold((e + 1) as nat);
    if e == 126 {
        lemma_pow2_unfold(127);
        vstd::arithmetic::power2::lemma_pow2_pos(126);
        assert(m == 2 * k) by (nonlinear_arith)
            requires
                m * p == k * (2 * p),
                p > 0,
        ;
    }
    let up = (a + 0x80_0000) as u32;
    assert(up / 0x80_0000 == e + 1);
    assert(up % 0x80_0000 == a % 0x80_0000);
    let q = pow2(127);
    assert(m * (2 * p) == (2 * k) * q) by (nonlinear_arith)
        requires
            m * p == k * q,
    ;
    lemma_unit_float_is_unique(b, up, (2 * k) as u32);
}

/// The float of a number is the fraction of its low 23 bits: nothing else of it counts, and it is
/// zero only if they are.
pub proof fn lemma_low_bits_count(u: u32, bits: u32)
    requires
        is_unit_float(bits, fraction(u)),
    ensures
        fraction(u) < 0x80_0000,
        (u - fraction(u)) % 0x80_0000 == 0,
        bits == 0 <==> u % 0x80_0000 == 0,
        bits < 0x3F80_0000,
{
}

} // verus!
