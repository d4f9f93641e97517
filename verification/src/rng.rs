//! A small deterministic generator, ours so the same seed always makes the same
//! map: splitmix64 to scramble the seed, xorshift64* to run.
use vstd::prelude::*;

verus! {

/// The splitmix64 finaliser applied to a seed, forced odd so that the
/// xorshift state never sits at zero.
pub open spec fn scrambled(seed: u64) -> u64 {
    let z0 = vstd::wrapping::u64_specs::wrapping_add(seed, 0x9E37_79B9_7F4A_7C15u64);
    let z1 = vstd::wrapping::u64_specs::wrapping_mul(z0 ^ (z0 >> 30u64), 0xBF58_476D_1CE4_E5B9u64);
    let z2 = vstd::wrapping::u64_specs::wrapping_mul(z1 ^ (z1 >> 27u64), 0x94D0_49BB_1331_11EBu64);
    (z2 ^ (z2 >> 31u64)) | 1u64
}

/// One xorshift64 step of the state.
pub open spec fn xorshift(x: u64) -> u64 {
    let a = x ^ (x >> 12u64);
    let b = a ^ (a << 25u64);
    b ^ (b >> 27u64)
}

/// The number handed out for a state: the star multiplier of xorshift64*.
pub open spec fn scrambled_output(x: u64) -> u64 {
    vstd::wrapping::u64_specs::wrapping_mul(x, 0x2545_F491_4F6C_DD1Du64)
}

/// The upper end that `range` actually uses: a reversed range collapses to `low`.
pub open spec fn range_high(low: u32, high: u32) -> u32 {
    if high >= low { high } else { low }
}

/// The value `range(low, high)` draws from a raw 64-bit output.
pub open spec fn range_value(low: u32, high: u32, raw: u64) -> u32 {
    (low + raw as nat % ((range_high(low, high) - low) as nat + 1)) as u32
}

/// The 53 high bits of an output: a uniform numerator over 2^53.
pub open spec fn unit_value(raw: u64) -> u64 {
    raw >> 11u64
}

/// One in 2^53: the denominator of `unit` and of `chance` thresholds.
pub const UNIT_DENOMINATOR: u64 = 0x20_0000_0000_0000;

/// A draw over `low..=high` lands in that range, and every value in it is the
/// draw of some raw output: the raw output `r` gives `low + r mod (high - low + 1)`.
pub proof fn law_range_draws_cover_the_range(low: u32, high: u32, raw: u64, v: u32)
    requires
        low <= high,
    ensures
        low <= range_value(low, high, raw) <= high,
        range_value(low, high, raw) == low + (raw as int) % (high - low + 1),
        low <= v <= high ==> range_value(low, high, (v - low) as u64) == v,
{
    if low <= v <= high {
        vstd::arithmetic::div_mod::lemma_small_mod((v - low) as nat, (high - low + 1) as nat);
    }
}

/// A scrambled seed is odd, so never zero.
pub proof fn lemma_scrambled_nonzero(seed: u64)
    ensures
        scrambled(seed) != 0,
{
    let z0 = vstd::wrapping::u64_specs::wrapping_add(seed, 0x9E37_79B9_7F4A_7C15u64);
    let z1 = vstd::wrapping::u64_specs::wrapping_mul(z0 ^ (z0 >> 30u64), 0xBF58_476D_1CE4_E5B9u64);
    let z2 = vstd::wrapping::u64_specs::wrapping_mul(z1 ^ (z1 >> 27u64), 0x94D0_49BB_1331_11EBu64);
    let z3 = z2 ^ (z2 >> 31u64);
    assert((z3 | 1u64) != 0) by (bit_vector);
}

pub proof fn lemma_xorshift_nonzero(x: u64)
    requires
        x != 0,
    ensures
        xorshift(x) != 0,
{
    let a = x ^ (x >> 12u64);
    assert(a != 0) by (bit_vector)
        requires
            x != 0,
            a == x ^ (x >> 12u64),
    ;
    let b = a ^ (a << 25u64);
    assert(b != 0) by (bit_vector)
        requires
            a != 0,
            b == a ^ (a << 25u64),
    ;
    let c = b ^ (b >> 27u64);
    assert(c != 0) by (bit_vector)
        requires
            b != 0,
            c == b ^ (b >> 27u64),
    ;
}

#[derive(Clone, Copy, Debug, PartialEq, Eq)]
pub struct Rng(u64);

impl View for Rng {
    type V = u64;

    closed spec fn view(&self) -> u64 {
        self.0
    }
}

impl Rng {
    /// xorshift must never sit at zero: it would stay there forever.
    #[verifier::type_invariant]
    closed spec fn nonzero(self) -> bool {
        self.0 != 0
    }

    pub fn new(seed: u64) -> (rng: Self)
        ensures
            rng@ == scrambled(seed),
            rng@ != 0,
    {
        let mut z = seed.wrapping_add(0x9E37_79B9_7F4A_7C15);
        z = (z ^ (z >> 30)).wrapping_mul(0xBF58_476D_1CE4_E5B9);
        z = (z ^ (z >> 27)).wrapping_mul(0x94D0_49BB_1331_11EB);
        z = z ^ (z >> 31);
        let state = z | 1;
        assert(state != 0) by (bit_vector)
            requires
                state == z | 1u64,
        ;
        Rng(state)
    }

    pub fn next_u64(&mut self) -> (value: u64)
        ensures
            final(self)@ == xorshift(old(self)@),
            final(self)@ != 0,
            value == scrambled_output(final(self)@),
    {
        proof {
            use_type_invariant(&*self);
        }
        let mut x = self.0;
        x = x ^ (x >> 12);
        x = x ^ (x << 25);
        x = x ^ (x >> 27);
        proof {
            lemma_xorshift_nonzero(self.0);
        }
        self.0 = x;
        x.wrapping_mul(0x2545_F491_4F6C_DD1D)
    }

    /// Uniform in `[0, 2^53)`: the numerator of a uniform fraction of `UNIT_DENOMINATOR`.
    pub fn unit(&mut self) -> (value: u64)
        ensures
            final(self)@ == xorshift(old(self)@),
            final(self)@ != 0,
            value == unit_value(scrambled_output(final(self)@)),
            value < UNIT_DENOMINATOR,
    {
        let raw = self.next_u64();
        let value = raw >> 11;
        assert(value < 0x20_0000_0000_0000u64) by (bit_vector)
            requires
                value == raw >> 11u64,
        ;
        value
    }

    /// Uniform in `low..=high`; a reversed range gives `low`.
    pub fn range(&mut self, low: u32, high: u32) -> (value: u32)
        ensures
            final(self)@ == xorshift(old(self)@),
            final(self)@ != 0,
            value == range_value(low, high, scrambled_output(final(self)@)),
            low <= value <= range_high(low, high),
    {
        let top = if high >= low { high } else { low };
        let span: u64 = (top - low) as u64 + 1;
        let raw = self.next_u64();
        let offset = raw % span;
        assert(offset < span);
        let value = low + offset as u32;
        value
    }

    /// True with probability `threshold / UNIT_DENOMINATOR`: a probability `p`
    /// is the threshold `ceil(p * 2^53)`.
    pub fn chance(&mut self, threshold: u64) -> (hit: bool)
        ensures
            final(self)@ == xorshift(old(self)@),
            final(self)@ != 0,
            hit == (unit_value(scrambled_output(final(self)@)) < threshold),
    {
        self.unit() < threshold
    }
}

} // verus!
