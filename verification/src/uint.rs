//! Fixed-width unsigned big integers: the 192-bit accumulated-work type and
//! the 256-bit difficulty target.

use vstd::prelude::*;
use vstd::arithmetic::power2::{pow2, lemma_pow2_adds, lemma_pow2_strictly_increases, lemma2_to64};
use crate::hashes::word_byte;

verus! {

/// `2^64` as a mathematical integer.
pub open spec fn base64() -> int {
    0x1_0000_0000_0000_0000int
}

/// `2^128` as a mathematical integer.
pub open spec fn base128() -> int {
    0x1_0000_0000_0000_0000_0000_0000_0000_0000int
}

/// `2^192` as a mathematical integer.
pub open spec fn base192() -> int {
    0x1_0000_0000_0000_0000_0000_0000_0000_0000_0000_0000_0000_0000int
}

/// A 192-bit unsigned integer, stored as three 64-bit limbs in
/// little-endian limb order.
#[derive(Clone, Copy, PartialEq, Eq, Structural, Debug)]
pub struct Uint192 {
    pub l0: u64,
    pub l1: u64,
    pub l2: u64,
}

/// A 256-bit unsigned integer, stored as four 64-bit limbs in
/// little-endian limb order.
#[derive(Clone, Copy, PartialEq, Eq, Structural, Debug)]
pub struct Uint256 {
    pub d0: u64,
    pub d1: u64,
    pub d2: u64,
    pub d3: u64,
}

impl Uint192 {
    /// The integer this value stands for.
    pub open spec fn value(&self) -> int {
        self.l0 + self.l1 * 0x1_0000_0000_0000_0000int + self.l2
            * 0x1_0000_0000_0000_0000_0000_0000_0000_0000int
    }

    /// Limb `i` of the integer, for `0 <= i < 3`.
    pub open spec fn word(&self, i: int) -> u64 {
        if i == 0 {
            self.l0
        } else if i == 1 {
            self.l1
        } else {
            self.l2
        }
    }

    /// The 24-byte little-endian serialization.
    pub open spec fn bytes(&self) -> Seq<u8> {
        Seq::new(24, |i: int| word_byte(self.word(i / 8), i % 8))
    }

    /// Create from a `u64`.
    pub fn from_u64(val: u64) -> (r: Uint192)
        ensures
            r.value() == val,
            r == (Uint192 { l0: val, l1: 0, l2: 0 }),
    {
        Uint192 { l0: val, l1: 0, l2: 0 }
    }

    /// Get the 24-byte little-endian serialization.
    pub fn to_le_bytes(&self) -> (r: Vec<u8>)
        ensures
            r@ == self.bytes(),
    {
        let mut v: Vec<u8> = Vec::new();
        let mut i: usize = 0;
        while i < 24
            invariant
                0 <= i <= 24,
                v@.len() == i,
                forall|j: int| 0 <= j < i ==> v@[j] == self.bytes()[j],
            decreases 24 - i,
        {
            let w: u64 = if i < 8 {
                self.l0
            } else if i < 16 {
                self.l1
            } else {
                self.l2
            };
            let k: u64 = (i as u64) % 8;
            let b: u8 = ((w >> (8 * k)) & 0xff) as u8;
            proof {
                assert(w == self.word(i as int / 8));
                assert(b == word_byte(w, i as int % 8));
            }
            v.push(b);
            i += 1;
        }
        proof {
            assert(v@ =~= self.bytes());
        }
        v
    }

    /// Get the serialization, as `to_le_bytes`.
    pub fn as_bytes(&self) -> (r: Vec<u8>)
        ensures
            r@ == self.bytes(),
    {
        self.to_le_bytes()
    }

    /// Addition that clamps at the largest 192-bit value.
    pub fn saturating_add(&self, other: &Uint192) -> (r: Uint192)
        ensures
            r.value() == if self.value() + other.value() < base192() {
                self.value() + other.value()
            } else {
                base192() - 1
            },
    {
        let c0: u128 = self.l0 as u128 + other.l0 as u128;
        let s0: u64 = (c0 & 0xFFFF_FFFF_FFFF_FFFF) as u64;
        let k0: u64 = (c0 >> 64) as u64;
        let c1: u128 = self.l1 as u128 + other.l1 as u128 + k0 as u128;
        let s1: u64 = (c1 & 0xFFFF_FFFF_FFFF_FFFF) as u64;
        let k1: u64 = (c1 >> 64) as u64;
        let c2: u128 = self.l2 as u128 + other.l2 as u128 + k1 as u128;
        let s2: u64 = (c2 & 0xFFFF_FFFF_FFFF_FFFF) as u64;
        let k2: u64 = (c2 >> 64) as u64;
        proof {
            lemma_u128_split(c0);
            lemma_u128_split(c1);
            lemma_u128_split(c2);
        }
        if k2 == 0 {
            let r = Uint192 { l0: s0, l1: s1, l2: s2 };
            proof {
                assert(self.value() + other.value() == r.value());
            }
            r
        } else {
            let r = Uint192 {
                l0: 0xFFFF_FFFF_FFFF_FFFF,
                l1: 0xFFFF_FFFF_FFFF_FFFF,
                l2: 0xFFFF_FFFF_FFFF_FFFF,
            };
            proof {
                assert(self.value() + other.value() == s0 + s1 * base64() + s2 * base128() + k2
                    * base192());
                assert(self.value() + other.value() >= base192());
            }
            r
        }
    }

    /// Numeric order: true when `self < other`.
    pub fn less_than(&self, other: &Uint192) -> (r: bool)
        ensures
            r == (self.value() < other.value()),
    {
        proof {
            lemma_u192_order(*self, *other);
            lemma_u192_order(*other, *self);
        }
        if self.l2 != other.l2 {
            self.l2 < other.l2
        } else if self.l1 != other.l1 {
            self.l1 < other.l1
        } else {
            self.l0 < other.l0
        }
    }
}

impl Default for Uint192 {
    /// The default value is zero.
    fn default() -> (r: Uint192)
        ensures
            r.value() == 0,
    {
        Uint192 { l0: 0, l1: 0, l2: 0 }
    }
}

/// Splitting a 128-bit value at bit 64 into its low and high words is exact,
/// and the high word of a sum of three 64-bit values is at most 1.
proof fn lemma_u128_split(c: u128)
    ensures
        c == ((c & 0xFFFF_FFFF_FFFF_FFFF) as u64) + ((c >> 64) as u64)
            * 0x1_0000_0000_0000_0000int,
        c <= 0x2_FFFF_FFFF_FFFF_FFFDu128 ==> ((c >> 64) as u64) <= 2,
{
    assert(c == ((c & 0xFFFF_FFFF_FFFF_FFFF) as u64) as u128 + (((c >> 64) as u64) as u128)
        * 0x1_0000_0000_0000_0000u128 && (c <= 0x2_FFFF_FFFF_FFFF_FFFDu128 ==> ((c >> 64) as u64)
        <= 2)) by (bit_vector);
}

/// Limb-wise lexicographic order (most significant limb first) implies
/// numeric order for 192-bit values.
proof fn lemma_u192_order(a: Uint192, b: Uint192)
    ensures
        a.l2 < b.l2 ==> a.value() < b.value(),
        a.l2 == b.l2 && a.l1 < b.l1 ==> a.value() < b.value(),
        a.l2 == b.l2 && a.l1 == b.l1 && a.l0 < b.l0 ==> a.value() < b.value(),
{
    let p64: int = base64();
    let p128: int = base128();
    if a.l2 < b.l2 {
        assert(a.value() < b.value()) by (nonlinear_arith)
            requires
                a.value() == a.l0 + a.l1 * p64 + a.l2 * p128,
                b.value() == b.l0 + b.l1 * p64 + b.l2 * p128,
                a.l2 < b.l2,
                a.l0 < p64 && a.l1 < p64,
                0 <= b.l0 && 0 <= b.l1,
                0 <= a.l0 && 0 <= a.l1 && 0 <= a.l2,
                p64 == 0x1_0000_0000_0000_0000int,
                p128 == p64 * p64,
        ;
    } else if a.l2 == b.l2 && a.l1 < b.l1 {
        assert(a.value() < b.value()) by (nonlinear_arith)
            requires
                a.value() == a.l0 + a.l1 * p64 + a.l2 * p128,
                b.value() == b.l0 + b.l1 * p64 + b.l2 * p128,
                a.l2 == b.l2,
                a.l1 < b.l1,
                a.l0 < p64,
                0 <= b.l0,
                0 <= a.l0 && 0 <= a.l1,
                p64 == 0x1_0000_0000_0000_0000int,
        ;
    }
}

impl Uint256 {
    /// The integer this value stands for.
    pub open spec fn value(&self) -> int {
        self.d0 + self.d1 * 0x1_0000_0000_0000_0000int + self.d2
            * 0x1_0000_0000_0000_0000_0000_0000_0000_0000int + self.d3
            * 0x1_0000_0000_0000_0000_0000_0000_0000_0000_0000_0000_0000_0000int
    }

    /// A 256-bit integer carrying the numeric value of a hash.
    pub fn from_hash(h: &crate::hashes::Hash) -> (r: Uint256)
        ensures
            r.value() == h.value(),
    {
        Uint256 { d0: h.w0, d1: h.w1, d2: h.w2, d3: h.w3 }
    }

    /// Numeric order: true when `self < other`.
    pub fn less_than(&self, other: &Uint256) -> (r: bool)
        ensures
            r == (self.value() < other.value()),
    {
        let a = crate::hashes::Hash { w0: self.d0, w1: self.d1, w2: self.d2, w3: self.d3 };
        let b = crate::hashes::Hash { w0: other.d0, w1: other.d1, w2: other.d2, w3: other.d3 };
        proof {
            crate::hashes::lemma_value_order(a, b);
        }
        a.less_than(&b)
    }

    /// Three-way numeric comparison.
    pub fn cmp(&self, other: &Uint256) -> (r: core::cmp::Ordering)
        ensures
            r == core::cmp::Ordering::Less <==> self.value() < other.value(),
            r == core::cmp::Ordering::Greater <==> self.value() > other.value(),
            r == core::cmp::Ordering::Equal <==> self.value() == other.value(),
    {
        if self.less_than(other) {
            core::cmp::Ordering::Less
        } else if other.less_than(self) {
            core::cmp::Ordering::Greater
        } else {
            proof {
                let a = crate::hashes::Hash { w0: self.d0, w1: self.d1, w2: self.d2, w3: self.d3 };
                let b = crate::hashes::Hash { w0: other.d0, w1: other.d1, w2: other.d2, w3: other.d3 };
                crate::hashes::lemma_value_order(a, b);
            }
            core::cmp::Ordering::Equal
        }
    }
}

impl Default for Uint256 {
    /// The default value is zero.
    fn default() -> (r: Uint256)
        ensures
            r.value() == 0,
    {
        Uint256 { d0: 0, d1: 0, d2: 0, d3: 0 }
    }
}


/// The difficulty target encoded by 32-bit compact `bits`: with exponent
/// `e = bits >> 24` and mantissa `m = bits & 0xFFFFFF`, the target is
/// `m >> (8 * (3 - e))` when `e <= 3`, `m * 2^(8 * (e - 3))` when the byte
/// shift stays below 29, and zero otherwise.
pub open spec fn target_of(bits: u32) -> int {
    let e = bits >> 24;
    let m = bits & 0x00FF_FFFF;
    if e <= 3 {
        (m >> (8 * (3 - e))) as int
    } else if e - 3 < 29 {
        m * pow2((8 * (e - 3)) as nat)
    } else {
        0
    }
}

/// Shifting 1 left is the corresponding power of two.
proof fn lemma_u128_one_shl(s: u128)
    requires
        s < 128,
    ensures
        (1u128 << s) == pow2(s as nat),
        pow2(s as nat) <= 0x8000_0000_0000_0000_0000_0000_0000_0000int,
    decreases s,
{
    if s == 0 {
        assert((1u128 << 0) == 1u128) by (bit_vector);
        assert(pow2(0) == 1) by {
            lemma2_to64();
        }
    } else {
        lemma_u128_one_shl((s - 1) as u128);
        lemma_pow2_adds((s - 1) as nat, 1);
        assert(pow2(1) == 2) by {
            lemma2_to64();
        }
        let prev = (s - 1) as u128;
        assert((1u128 << s) == (1u128 << prev) * 2) by (bit_vector)
            requires
                0 < s < 128,
                s == prev + 1,
        ;
    }
    lemma2_to64();
    vstd::arithmetic::power2::lemma2_to64_rest();
    lemma_pow2_adds(64, 63);
    if s < 127 {
        lemma_pow2_strictly_increases(s as nat, 127);
    }
}

impl Uint256 {
    /// Decode a Bitcoin-style compact difficulty target.
    pub fn from_compact_target_bits(bits: u32) -> (r: Uint256)
        ensures
            r.value() == target_of(bits),
    {
        let e: u32 = bits >> 24;
        let m: u32 = bits & 0x00FF_FFFF;
        proof {
            assert(e <= 255 && m < 0x100_0000) by (bit_vector)
                requires
                    e == bits >> 24,
                    m == bits & 0x00FF_FFFF,
            ;
        }
        if e <= 3 {
            let v: u32 = m >> (8 * (3 - e));
            Uint256 { d0: v as u64, d1: 0, d2: 0, d3: 0 }
        } else if e - 3 < 29 {
            let s: u32 = e - 3;
            let sh: u32 = 8 * s;
            let idx: u32 = sh / 64;
            let off: u32 = sh % 64;
            let big: u128 = (m as u128) << off;
            let lo: u64 = #[verifier::truncate] ((big & 0xFFFF_FFFF_FFFF_FFFF) as u64);
            let hi: u64 = #[verifier::truncate] ((big >> 64) as u64);
            proof {
                let s128: u128 = off as u128;
                lemma_u128_one_shl(s128);
                assert(s128 as nat == off as nat);
                vstd::arithmetic::power2::lemma_pow2_pos(off as nat);
                assert(pow2(off as nat) <= 0x8000_0000_0000_0000int) by {
                    lemma2_to64();
                    vstd::arithmetic::power2::lemma2_to64_rest();
                    if off < 63 {
                        lemma_pow2_strictly_increases(off as nat, 63);
                    }
                }
                assert(pow2(off as nat) <= 0x8000_0000_0000_0000_0000_0000_0000_0000int);
                assert(big == (m as u128) * (1u128 << (off as u128))) by (bit_vector)
                    requires
                        big == (m as u128) << off,
                        m < 0x100_0000u32,
                        off < 64u32,
                ;
                assert(m * pow2(off as nat) < base128()) by (nonlinear_arith)
                    requires
                        m < 0x100_0000,
                        0 <= m,
                        0 < pow2(off as nat) <= 0x8000_0000_0000_0000int,
                        base128() == 0x1_0000_0000_0000_0000_0000_0000_0000_0000int,
                ;
                assert(big == m * pow2(off as nat));
                lemma_u128_split_wide(big);
                assert(sh == 64 * idx + off);
                assert(pow2(sh as nat) == pow2((64 * idx) as nat) * pow2(off as nat)) by {
                    lemma_pow2_adds((64 * idx) as nat, off as nat);
                }
            }
            let r = if idx == 0 {
                Uint256 { d0: lo, d1: hi, d2: 0, d3: 0 }
            } else if idx == 1 {
                Uint256 { d0: 0, d1: lo, d2: hi, d3: 0 }
            } else if idx == 2 {
                Uint256 { d0: 0, d1: 0, d2: lo, d3: hi }
            } else {
                proof {
                    assert(off <= 32);
                    assert(pow2(off as nat) <= pow2(32)) by {
                        if off < 32 {
                            lemma_pow2_strictly_increases(off as nat, 32);
                        }
                    }
                    assert(pow2(32) == 0x1_0000_0000) by {
                        lemma2_to64();
                    }
                    assert(big < 0x1_0000_0000_0000_0000u128) by (nonlinear_arith)
                        requires
                            big == m * pow2(off as nat),
                            0 <= m < 0x100_0000,
                            0 < pow2(off as nat) <= 0x1_0000_0000int,
                    ;
                    assert(hi == 0 && big == lo) by (bit_vector)
                        requires
                            hi == (big >> 64) as u64,
                            lo == (big & 0xFFFF_FFFF_FFFF_FFFF) as u64,
                            big < 0x1_0000_0000_0000_0000u128,
                    ;
                }
                Uint256 { d0: 0, d1: 0, d2: 0, d3: lo }
            };
            proof {
                lemma_place_limbs(r, lo, hi, big, m, idx as int, off as nat, sh as nat);
            }
            r
        } else {
            Uint256 { d0: 0, d1: 0, d2: 0, d3: 0 }
        }
    }

    /// The number of significant bits of the value: zero for zero, else the
    /// unique `n` with `2^(n-1) <= value < 2^n`.
    pub fn bits(&self) -> (n: u32)
        ensures
            n <= 256,
            self.value() < pow2(n as nat),
            n > 0 ==> self.value() >= pow2((n - 1) as nat),
            n == 0 ==> self.value() == 0,
    {
        proof {
            lemma_pow2_bases();
        }
        if self.d3 != 0 {
            let b = u64_bits(self.d3);
            proof {
                lemma_limb_bits(self.value(), self.d0, self.d1, self.d2, self.d3, 3, b as nat);
            }
            192 + b
        } else if self.d2 != 0 {
            let b = u64_bits(self.d2);
            proof {
                lemma_limb_bits(self.value(), self.d0, self.d1, self.d2, self.d3, 2, b as nat);
            }
            128 + b
        } else if self.d1 != 0 {
            let b = u64_bits(self.d1);
            proof {
                lemma_limb_bits(self.value(), self.d0, self.d1, self.d2, self.d3, 1, b as nat);
            }
            64 + b
        } else {
            let b = u64_bits(self.d0);
            proof {
                lemma_limb_bits(self.value(), self.d0, self.d1, self.d2, self.d3, 0, b as nat);
            }
            b
        }
    }
}

/// Splitting any 128-bit value at bit 64 into its words is exact.
proof fn lemma_u128_split_wide(c: u128)
    ensures
        c == ((c & 0xFFFF_FFFF_FFFF_FFFF) as u64) + ((c >> 64) as u64)
            * 0x1_0000_0000_0000_0000int,
{
    assert(c == ((c & 0xFFFF_FFFF_FFFF_FFFF) as u64) as u128 + (((c >> 64) as u64) as u128)
        * 0x1_0000_0000_0000_0000u128) by (bit_vector);
}

/// The word values of the powers of two at the limb boundaries.
pub proof fn lemma_pow2_bases()
    ensures
        pow2(64) == base64(),
        pow2(128) == base128(),
        pow2(192) == base192(),
{
    lemma2_to64();
    lemma_pow2_adds(64, 64);
    lemma_pow2_adds(128, 64);
}

/// Placing the two words of `big == m * 2^off` at limbs `idx` and `idx + 1`
/// yields the value `m * 2^(64 * idx + off)`.
proof fn lemma_place_limbs(
    r: Uint256,
    lo: u64,
    hi: u64,
    big: u128,
    m: u32,
    idx: int,
    off: nat,
    sh: nat,
)
    requires
        big == lo + hi * 0x1_0000_0000_0000_0000int,
        big == m * pow2(off),
        sh == 64 * idx + off,
        0 <= idx <= 3,
        idx == 0 ==> r == (Uint256 { d0: lo, d1: hi, d2: 0, d3: 0 }),
        idx == 1 ==> r == (Uint256 { d0: 0, d1: lo, d2: hi, d3: 0 }),
        idx == 2 ==> r == (Uint256 { d0: 0, d1: 0, d2: lo, d3: hi }),
        idx == 3 ==> r == (Uint256 { d0: 0, d1: 0, d2: 0, d3: lo }) && hi == 0,
    ensures
        r.value() == m * pow2(sh),
{
    lemma_pow2_bases();
    lemma_pow2_adds((64 * idx) as nat, off);
    let p64: int = base64();
    let p128: int = base128();
    let p192: int = base192();
    if idx == 0 {
        assert(r.value() == big);
        assert(pow2(sh) == pow2(off));
    } else if idx == 1 {
        assert(r.value() == lo * p64 + hi * p128);
        assert(r.value() == big * p64) by (nonlinear_arith)
            requires
                r.value() == lo * p64 + hi * p128,
                big == lo + hi * p64,
                p128 == p64 * p64,
        ;
        assert(big * p64 == m * pow2(sh)) by (nonlinear_arith)
            requires
                big == m * pow2(off),
                pow2(sh) == pow2(64) * pow2(off),
                p64 == pow2(64),
        ;
    } else if idx == 2 {
        assert(r.value() == lo * p128 + hi * p192);
        assert(r.value() == big * p128) by (nonlinear_arith)
            requires
                r.value() == lo * p128 + hi * p192,
                big == lo + hi * p64,
                p128 == p64 * p64,
                p192 == p64 * p128,
        ;
        assert(big * p128 == m * pow2(sh)) by (nonlinear_arith)
            requires
                big == m * pow2(off),
                pow2(sh) == pow2(128) * pow2(off),
                p128 == pow2(128),
        ;
    } else {
        assert(r.value() == lo * p192);
        assert(big == lo);
        assert(big * p192 == m * pow2(sh)) by (nonlinear_arith)
            requires
                big == m * pow2(off),
                pow2(sh) == pow2(192) * pow2(off),
                p192 == pow2(192),
        ;
    }
    assert(pow2((64 * idx) as nat) * pow2(off) == pow2(sh));
}

/// Bounds on a 256-bit value whose most significant nonzero limb is limb
/// `idx` with `b` significant bits.
proof fn lemma_limb_bits(v: int, d0: u64, d1: u64, d2: u64, d3: u64, idx: int, b: nat)
    requires
        v == d0 + d1 * base64() + d2 * base128() + d3 * base192(),
        0 <= idx <= 3,
        b <= 64,
        idx == 3 ==> d3 < pow2(b) && (b > 0 ==> d3 >= pow2((b - 1) as nat)) && (b == 0 ==> d3
            == 0),
        idx == 2 ==> d3 == 0 && d2 < pow2(b) && (b > 0 ==> d2 >= pow2((b - 1) as nat)) && (b == 0
            ==> d2 == 0),
        idx == 1 ==> d3 == 0 && d2 == 0 && d1 < pow2(b) && (b > 0 ==> d1 >= pow2((b - 1) as nat))
            && (b == 0 ==> d1 == 0),
        idx == 0 ==> d3 == 0 && d2 == 0 && d1 == 0 && d0 < pow2(b) && (b > 0 ==> d0 >= pow2((b
            - 1) as nat)) && (b == 0 ==> d0 == 0),
    ensures
        v < pow2((64 * idx + b) as nat),
        b > 0 ==> v >= pow2((64 * idx + b - 1) as nat),
        64 * idx + b == 0 ==> v == 0,
{
    lemma_pow2_bases();
    lemma2_to64();
    lemma_pow2_adds((64 * idx) as nat, b);
    if b > 0 {
        lemma_pow2_adds((64 * idx) as nat, (b - 1) as nat);
    }
    let p64: int = base64();
    let p128: int = base128();
    let p192: int = base192();
    let top: u64 = if idx == 0 {
        d0
    } else if idx == 1 {
        d1
    } else if idx == 2 {
        d2
    } else {
        d3
    };
    let base: int = if idx == 0 {
        1
    } else if idx == 1 {
        p64
    } else if idx == 2 {
        p128
    } else {
        p192
    };
    let low: int = if idx == 0 {
        0
    } else if idx == 1 {
        d0 as int
    } else if idx == 2 {
        d0 + d1 * p64
    } else {
        d0 + d1 * p64 + d2 * p128
    };
    assert(v == low + top * base);
    assert(0 <= low < base);
    if idx == 0 {
        assert(base == pow2(0));
    } else if idx == 1 {
        assert(base == pow2(64));
    } else if idx == 2 {
        assert(base == pow2(128));
    } else {
        assert(base == pow2(192));
    }
    assert(base == pow2((64 * idx) as nat));
    assert(v < pow2((64 * idx + b) as nat)) by (nonlinear_arith)
        requires
            v == low + top * base,
            0 <= low < base,
            top < pow2(b),
            0 <= top,
            0 < base,
            pow2((64 * idx + b) as nat) == base * pow2(b),
    ;
    if b > 0 {
        assert(v >= pow2((64 * idx + b - 1) as nat)) by (nonlinear_arith)
            requires
                v == low + top * base,
                0 <= low,
                top >= pow2((b - 1) as nat),
                0 < base,
                pow2((64 * idx + b - 1) as nat) == base * pow2((b - 1) as nat),
        ;
    }
}

/// The number of significant bits of a 64-bit word.
fn u64_bits(w: u64) -> (n: u32)
    ensures
        n <= 64,
        (w as int) < pow2(n as nat),
        n > 0 ==> w as int >= pow2((n - 1) as nat),
        n == 0 ==> w == 0,
{
    let mut n: u32 = 0;
    let mut x: u64 = w;
    proof {
        lemma2_to64();
        vstd::arithmetic::power2::lemma_pow2_pos(0);
    }
    while x > 0
        invariant
            n <= 64,
            x as int == w as int / (pow2(n as nat) as int),
            n > 0 ==> w as int >= pow2((n - 1) as nat),
            x > 0 ==> n < 64,
        decreases x,
    {
        proof {
            vstd::arithmetic::power2::lemma_pow2_pos(n as nat);
            vstd::arithmetic::power2::lemma_pow2_pos((n + 1) as nat);
            lemma_pow2_adds(n as nat, 1);
            lemma2_to64();
            vstd::arithmetic::div_mod::lemma_div_denominator(
                w as int,
                pow2(n as nat) as int,
                2,
            );
            assert(w as int / pow2(n as nat) as int / 2 == w as int / pow2((n + 1) as nat) as int);
            assert(x >= 1);
            assert(w as int >= pow2(n as nat)) by (nonlinear_arith)
                requires
                    x as int == w as int / (pow2(n as nat) as int),
                    x >= 1,
                    0 < pow2(n as nat),
                    w >= 0,
            ;
            if n + 1 > 64 {
                lemma_pow2_strictly_increases(64, n as nat);
                assert(false);
            }
            if x / 2 > 0 {
                assert(w as int >= pow2((n + 1) as nat)) by (nonlinear_arith)
                    requires
                        x as int == w as int / (pow2(n as nat) as int),
                        x / 2 >= 1,
                        0 < pow2(n as nat),
                        pow2((n + 1) as nat) == pow2(n as nat) * 2,
                        w >= 0,
                ;
                if n + 1 >= 64 {
                    if n + 1 > 64 {
                        lemma_pow2_strictly_increases(64, (n + 1) as nat);
                    }
                    assert(false);
                }
            }
        }
        x = x / 2;
        n = n + 1;
    }
    proof {
        vstd::arithmetic::power2::lemma_pow2_pos(n as nat);
        assert(w as int / pow2(n as nat) as int == 0);
        assert((w as int) < pow2(n as nat)) by (nonlinear_arith)
            requires
                w as int / pow2(n as nat) as int == 0,
                0 < pow2(n as nat),
                w >= 0,
        ;
    }
    n
}


} // verus!
