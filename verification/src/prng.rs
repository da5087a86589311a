use vstd::prelude::*;

verus! {

/// The state of the generator, word by word.
pub type PrngState = (u64, u64, u64, u64);

/// Increment of the SplitMix64 sequence.
pub const SPLITMIX_GAMMA: u64 = 0x9e3779b97f4a7c15;

/// `x` rotated left by `n` bits.
pub open spec fn spec_rotl(x: u64, n: u64) -> u64 {
    (x << n) | (x >> (64 - n) as u64)
}

/// SplitMix64 output function on an already advanced counter.
pub open spec fn spec_mix64(x: u64) -> u64 {
    let z1 = (x ^ (x >> 30u64)).wrapping_mul(0xbf58476d1ce4e5b9);
    let z2 = (z1 ^ (z1 >> 27u64)).wrapping_mul(0x94d049bb133111eb);
    z2 ^ (z2 >> 31u64)
}

/// The word every state slot holds after seeding with `seed`.
pub open spec fn spec_seed_word(seed: u64) -> u64 {
    spec_mix64(seed.wrapping_add(SPLITMIX_GAMMA))
}

/// The xoshiro256** output for state `s`.
pub open spec fn spec_output(s: PrngState) -> u64 {
    spec_rotl(s.1.wrapping_mul(5), 7).wrapping_mul(9)
}

/// The xoshiro256 state transition.
pub open spec fn spec_advance(s: PrngState) -> PrngState {
    let t = s.1 << 17u64;
    let s2 = s.2 ^ s.0;
    let s3 = s.3 ^ s.1;
    let s1 = s.1 ^ s2;
    let s0 = s.0 ^ s3;
    (s0, s1, s2 ^ t, spec_rotl(s3, 45))
}

/// The state after `n` draws from `s`.
pub open spec fn spec_state_after(s: PrngState, n: nat) -> PrngState
    decreases n,
{
    if n == 0 {
        s
    } else {
        spec_advance(spec_state_after(s, (n - 1) as nat))
    }
}

/// One more draw advances the state once more.
pub proof fn lemma_state_after_succ(s: PrngState, n: nat)
    ensures
        spec_state_after(s, n + 1) == spec_advance(spec_state_after(s, n)),
{
}

/// The `n`-th 64-bit value drawn from state `s` (counting from 0).
pub open spec fn spec_nth_u64(s: PrngState, n: nat) -> u64 {
    spec_output(spec_state_after(s, n))
}

/// The 32-bit value derived from a 64-bit draw.
pub open spec fn spec_high_u32(x: u64) -> u32 {
    (x >> 32u64) as u32
}

/// The 24-bit numerator of the unit fraction derived from a 64-bit draw.
pub open spec fn spec_unit_numerator(x: u64) -> u32 {
    (x >> 40u64) as u32
}

/// The value `next_in_range(min, max)` derives from a 64-bit draw, for `min < max`.
pub open spec fn spec_in_range(x: u64, min: usize, max: usize) -> usize {
    (min + (x as usize) % ((max - min) as usize)) as usize
}

/// `x` rotated left by `n` bits, for `0 < n < 64`.
fn rotl(x: u64, n: u64) -> (r: u64)
    requires
        0 < n < 64,
    ensures
        r == spec_rotl(x, n),
{
    (x << n) | (x >> (64 - n))
}

/// Xoshiro256** PRNG for deterministic, reproducible simulations.
pub struct Xoshiro256 {
    state: [u64; 4],
}

impl View for Xoshiro256 {
    type V = PrngState;

    closed spec fn view(&self) -> PrngState {
        (self.state@[0], self.state@[1], self.state@[2], self.state@[3])
    }
}

impl Xoshiro256 {
    /// The state `new(seed)` starts from.
    pub open spec fn new_state(seed: u64) -> PrngState {
        (spec_seed_word(seed), spec_seed_word(seed), spec_seed_word(seed), spec_seed_word(seed))
    }

    /// Seeds the generator: each of the four state words is SplitMix64
    /// applied once to `seed`.
    pub fn new(seed: u64) -> (g: Self)
        ensures
            g@ == Self::new_state(seed),
    {
        let mut state: [u64; 4] = [seed; 4];
        let mut i: usize = 0;
        while i < 4
            invariant
                i <= 4,
                forall|j: int| 0 <= j < i ==> state@[j] == spec_seed_word(seed),
                forall|j: int| i <= j < 4 ==> state@[j] == seed,
            decreases 4 - i,
        {
            let mut word = state[i];
            let w = Self::splitmix64(&mut word);
            state[i] = w;
            i = i + 1;
        }
        Xoshiro256 { state }
    }

    /// One SplitMix64 step: advances `x` by the golden-ratio increment and
    /// returns the mixed value of the advanced counter.
    fn splitmix64(x: &mut u64) -> (r: u64)
        ensures
            *final(x) == old(x).wrapping_add(SPLITMIX_GAMMA),
            r == spec_mix64(*final(x)),
    {
        *x = x.wrapping_add(SPLITMIX_GAMMA);
        let mut z = *x;
        z = (z ^ (z >> 30)).wrapping_mul(0xbf58476d1ce4e5b9);
        z = (z ^ (z >> 27)).wrapping_mul(0x94d049bb133111eb);
        z ^ (z >> 31)
    }

    /// Draws the next 64-bit value.
    pub fn next_u64(&mut self) -> (r: u64)
        ensures
            r == spec_output(old(self)@),
            final(self)@ == spec_advance(old(self)@),
    {
        let s0 = self.state[0];
        let s1 = self.state[1];
        let s2 = self.state[2];
        let s3 = self.state[3];
        let result = rotl(s1.wrapping_mul(5), 7).wrapping_mul(9);
        let t = s1 << 17;
        let n2 = s2 ^ s0;
        let n3 = s3 ^ s1;
        let n1 = s1 ^ n2;
        let n0 = s0 ^ n3;
        let n2 = n2 ^ t;
        let n3 = rotl(n3, 45);
        self.state = [n0, n1, n2, n3];
        result
    }

    /// Draws the next value and keeps its high 32 bits.
    pub fn next_u32(&mut self) -> (r: u32)
        ensures
            r == spec_high_u32(spec_output(old(self)@)),
            final(self)@ == spec_advance(old(self)@),
    {
        (self.next_u64() >> 32) as u32
    }

    /// Draws the next value and keeps its high 24 bits: the numerator of a
    /// uniform fraction in `[0, 1)` with denominator `2^24`.
    pub fn next_unit_numerator(&mut self) -> (r: u32)
        ensures
            r == spec_unit_numerator(spec_output(old(self)@)),
            r < 0x100_0000,
            final(self)@ == spec_advance(old(self)@),
    {
        let x = self.next_u64();
        assert((x >> 40u64) < 0x100_0000u64) by (bit_vector);
        (x >> 40) as u32
    }

    /// A value in `[min, max)`, or `min` without drawing when the range is empty.
    pub fn next_in_range(&mut self, min: usize, max: usize) -> (r: usize)
        ensures
            min >= max ==> r == min && final(self)@ == old(self)@,
            min < max ==> r == spec_in_range(spec_output(old(self)@), min, max) && final(self)@
                == spec_advance(old(self)@),
            min < max ==> min <= r < max,
    {
        if min >= max {
            return min;
        }
        min + (self.next_u64() as usize) % (max - min)
    }
}

/// Multiplying by `c` modulo 2^64 loses nothing when `c` has an inverse
/// `c_inv` modulo 2^64 (`c * c_inv == 1 + q * 2^64`).
proof fn lemma_wrapping_mul_injective(x: u64, y: u64, c: u64, c_inv: u64, q: int)
    requires
        c * c_inv == 1 + q * 0x1_0000_0000_0000_0000int,
        x.wrapping_mul(c) == y.wrapping_mul(c),
    ensures
        x == y,
{
    let m = 0x1_0000_0000_0000_0000int;
    assert forall|v: u64| #[trigger] (((v * c) % m) * c_inv) % m == v by {
        vstd::arithmetic::div_mod::lemma_mul_mod_noop_left(v * c, c_inv as int, m);
        vstd::arithmetic::mul::lemma_mul_is_associative(v as int, c as int, c_inv as int);
        assert(v * (c * c_inv) == m * (v * q) + v) by (nonlinear_arith)
            requires
                c * c_inv == 1 + q * m,
        ;
        vstd::arithmetic::div_mod::lemma_mod_multiples_vanish(v * q, v as int, m);
        vstd::arithmetic::div_mod::lemma_small_mod(v as nat, m as nat);
    }
    assert((((x * c) % m) * c_inv) % m == x);
    assert((((y * c) % m) * c_inv) % m == y);
}

/// SplitMix64's output function is a bijection of 64-bit words: distinct
/// counters mix to distinct values.
pub proof fn lemma_mix64_injective(x: u64, y: u64)
    requires
        spec_mix64(x) == spec_mix64(y),
    ensures
        x == y,
{
    let a1 = x ^ (x >> 30u64);
    let b1 = y ^ (y >> 30u64);
    let a2 = a1.wrapping_mul(0xbf58476d1ce4e5b9);
    let b2 = b1.wrapping_mul(0xbf58476d1ce4e5b9);
    let a3 = a2 ^ (a2 >> 27u64);
    let b3 = b2 ^ (b2 >> 27u64);
    let a4 = a3.wrapping_mul(0x94d049bb133111eb);
    let b4 = b3.wrapping_mul(0x94d049bb133111eb);
    assert(a4 ^ (a4 >> 31u64) == b4 ^ (b4 >> 31u64));
    assert(a4 ^ (a4 >> 31u64) == b4 ^ (b4 >> 31u64) ==> a4 == b4) by (bit_vector);
    lemma_wrapping_mul_injective(a3, b3, 0x94d049bb133111eb, 0x319642b2d24d8ec3, 0x1cd336eda85f1453);
    assert(a3 == b3 ==> a2 == b2) by (bit_vector)
        requires
            a3 == a2 ^ (a2 >> 27u64),
            b3 == b2 ^ (b2 >> 27u64),
    ;
    lemma_wrapping_mul_injective(a1, b1, 0xbf58476d1ce4e5b9, 0x96de1b173f119089, 0x70c3bca78f27f46c);
    assert(a1 == b1 ==> x == y) by (bit_vector)
        requires
            a1 == x ^ (x >> 30u64),
            b1 == y ^ (y >> 30u64),
    ;
}

/// A SplitMix64 step is injective: from distinct counters it moves to
/// distinct counters and returns distinct values.
pub proof fn lemma_splitmix64_injective(x1: u64, x2: u64)
    requires
        x1 != x2,
    ensures
        x1.wrapping_add(SPLITMIX_GAMMA) != x2.wrapping_add(SPLITMIX_GAMMA),
        spec_mix64(x1.wrapping_add(SPLITMIX_GAMMA)) != spec_mix64(x2.wrapping_add(SPLITMIX_GAMMA)),
{
    if spec_mix64(x1.wrapping_add(SPLITMIX_GAMMA)) == spec_mix64(x2.wrapping_add(SPLITMIX_GAMMA)) {
        lemma_mix64_injective(x1.wrapping_add(SPLITMIX_GAMMA), x2.wrapping_add(SPLITMIX_GAMMA));
    }
}

/// Seeding is injective: distinct seeds give distinct state words, so
/// generators built from distinct seeds start in distinct states.
pub proof fn lemma_distinct_seeds_distinct_states(a: u64, b: u64)
    requires
        a != b,
    ensures
        spec_seed_word(a) != spec_seed_word(b),
        Xoshiro256::new_state(a) != Xoshiro256::new_state(b),
{
    lemma_splitmix64_injective(a, b);
}

} // verus!
