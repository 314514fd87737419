//! The xoshiro generator that drives matrix generation.

use vstd::prelude::*;

verus! {

/// `2^64` as a mathematical integer.
pub open spec fn word_modulus() -> int {
    0x1_0000_0000_0000_0000int
}

/// Multiplication modulo `2^64`.
pub open spec fn mul_mod(a: u64, b: u64) -> u64 {
    ((a * b) % word_modulus()) as u64
}

/// Rotation left by `k` bits.
pub open spec fn rotl(x: u64, k: u64) -> u64 {
    (x << k) | (x >> ((64 - k) as u64))
}

/// Multiplies two words, keeping the low 64 bits.
fn wrap_mul(a: u64, b: u64) -> (r: u64)
    ensures
        r == mul_mod(a, b),
{
    proof {
        assert((a as int) * (b as int)
            < 0x1_0000_0000_0000_0000_0000_0000_0000_0000int) by (nonlinear_arith)
            requires
                a <= 0xFFFF_FFFF_FFFF_FFFFu64,
                b <= 0xFFFF_FFFF_FFFF_FFFFu64,
        ;
    }
    let p: u128 = (a as u128) * (b as u128);
    let r = #[verifier::truncate] (p as u64);
    proof {
        assert((#[verifier::truncate] (p as u64)) as u128 == p
            % 0x1_0000_0000_0000_0000u128) by (bit_vector);
        assert(p == a * b);
    }
    r
}

/// Rotates a word left.
fn rotate_left(x: u64, k: u64) -> (r: u64)
    requires
        0 < k < 64,
    ensures
        r == rotl(x, k),
{
    (x << k) | (x >> (64 - k))
}

/// The xoshiro generator state.
#[derive(Debug, Clone, Copy, PartialEq, Eq, Structural)]
pub struct Xoshiro256 {
    pub s0: u64,
    pub s1: u64,
    pub s2: u64,
    pub s3: u64,
}

impl Xoshiro256 {
    /// Seeds the generator: the seed itself and three fixed multiples.
    pub fn new(seed: u64) -> (r: Xoshiro256)
        ensures
            r.s0 == seed,
            r.s1 == mul_mod(seed, 0x9E3779B97F4A7C15),
            r.s2 == mul_mod(seed, 0xB5297A4D3C2DB1EF),
            r.s3 == mul_mod(seed, 0x68BC384E9F5B8D3F),
    {
        Xoshiro256 {
            s0: seed,
            s1: wrap_mul(seed, 0x9E3779B97F4A7C15),
            s2: wrap_mul(seed, 0xB5297A4D3C2DB1EF),
            s3: wrap_mul(seed, 0x68BC384E9F5B8D3F),
        }
    }

    /// One generator step: the starred output and the state scramble.
    pub fn next(&mut self) -> (r: u64)
        ensures
            r == mul_mod(rotl(mul_mod(old(self).s1, 5), 7), 9),
            *final(self) == scramble(*old(self)),
    {
        let result = wrap_mul(rotate_left(wrap_mul(self.s1, 5), 7), 9);
        let t = self.s1 << 17u64;
        self.s2 = self.s2 ^ self.s0;
        self.s3 = self.s3 ^ self.s1;
        self.s1 = self.s1 ^ self.s2;
        self.s0 = self.s0 ^ self.s3;
        self.s2 = self.s2 ^ t;
        self.s3 = rotate_left(self.s3, 45);
        result
    }
}

/// The state scramble one generator step performs.
pub open spec fn scramble(s: Xoshiro256) -> Xoshiro256 {
    let t = s.s1 << 17u64;
    let s2a = s.s2 ^ s.s0;
    let s3a = s.s3 ^ s.s1;
    let s1a = s.s1 ^ s2a;
    let s0a = s.s0 ^ s3a;
    Xoshiro256 { s0: s0a, s1: s1a, s2: s2a ^ t, s3: rotl(s3a, 45) }
}

} // verus!
