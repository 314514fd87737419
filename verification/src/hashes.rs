//! The 256-bit digest type used throughout the consensus core.

use vstd::prelude::*;

verus! {

/// A 256-bit hash, stored as four 64-bit limbs in little-endian limb order.
/// The byte serialization is the little-endian byte string of the limbs,
/// matching a digest read as 32 raw bytes.
#[derive(Clone, Copy, PartialEq, Eq, Structural, Debug)]
pub struct Hash {
    pub w0: u64,
    pub w1: u64,
    pub w2: u64,
    pub w3: u64,
}

/// Byte `k` (0 = least significant) of a 64-bit word.
pub open spec fn word_byte(w: u64, k: int) -> u8 {
    ((w >> ((8 * k) as u64)) & 0xff) as u8
}

impl Hash {
    /// Limb `i` of the hash, for `0 <= i < 4`.
    pub open spec fn word(&self, i: int) -> u64 {
        if i == 0 {
            self.w0
        } else if i == 1 {
            self.w1
        } else if i == 2 {
            self.w2
        } else {
            self.w3
        }
    }

    /// The 32-byte serialization of the hash.
    pub open spec fn bytes(&self) -> Seq<u8> {
        Seq::new(32, |i: int| word_byte(self.word(i / 8), i % 8))
    }

    /// The hash read as a 256-bit unsigned integer.
    pub open spec fn value(&self) -> int {
        self.w0 + self.w1 * 0x1_0000_0000_0000_0000int + self.w2
            * 0x1_0000_0000_0000_0000_0000_0000_0000_0000int + self.w3
            * 0x1_0000_0000_0000_0000_0000_0000_0000_0000_0000_0000_0000_0000int
    }

    /// The all-zero hash.
    pub open spec fn zero() -> Hash {
        Hash { w0: 0, w1: 0, w2: 0, w3: 0 }
    }

    /// Create a hash from a little-endian `u64` array.
    pub fn from_le_u64(data: [u64; 4]) -> (r: Hash)
        ensures
            r.w0 == data@[0],
            r.w1 == data@[1],
            r.w2 == data@[2],
            r.w3 == data@[3],
    {
        Hash { w0: data[0], w1: data[1], w2: data[2], w3: data[3] }
    }

    /// Get the hash as a little-endian `u64` array.
    pub fn as_le_u64(&self) -> (r: [u64; 4])
        ensures
            r@ == seq![self.w0, self.w1, self.w2, self.w3],
    {
        let r = [self.w0, self.w1, self.w2, self.w3];
        proof {
            assert(r@ =~= seq![self.w0, self.w1, self.w2, self.w3]);
        }
        r
    }

    /// Create a hash from a byte slice: up to 32 leading bytes are taken,
    /// missing bytes are zero.
    pub fn from_slice(data: &[u8]) -> (r: Hash)
        ensures
            forall|i: int|
                0 <= i < 32 ==> r.bytes()[i] == (if i < data@.len() {
                    data@[i]
                } else {
                    0u8
                }),
    {
        let r = Hash {
            w0: word_from_slice(data, 0),
            w1: word_from_slice(data, 8),
            w2: word_from_slice(data, 16),
            w3: word_from_slice(data, 24),
        };
        proof {
            assert forall|i: int| 0 <= i < 32 implies r.bytes()[i] == (if i < data@.len() {
                data@[i]
            } else {
                0u8
            }) by {
                let d = i / 8;
                let k = i % 8;
                assert(0 <= d < 4 && 0 <= k < 8);
                assert(8 * d + k == i);
            }
        }
        r
    }

    /// The 32-byte serialization of the hash, least significant limb first.
    pub fn as_bytes(&self) -> (r: Vec<u8>)
        ensures
            r@ == self.bytes(),
    {
        let mut v: Vec<u8> = Vec::new();
        let mut i: usize = 0;
        while i < 32
            invariant
                0 <= i <= 32,
                v@.len() == i,
                forall|j: int| 0 <= j < i ==> v@[j] == self.bytes()[j],
            decreases 32 - i,
        {
            let w: u64 = if i < 8 {
                self.w0
            } else if i < 16 {
                self.w1
            } else if i < 24 {
                self.w2
            } else {
                self.w3
            };
            let k: u64 = (i as u64) % 8;
            let b: u8 = ((w >> (8 * k)) & 0xff) as u8;
            proof {
                assert(w == self.word(i as int / 8));
                assert(b == word_byte(w, i as int % 8));
            }
            v.push(b);
            i += 1;
        }
        proof {
            assert(v@ =~= self.bytes());
        }
        v
    }

    /// True when every byte of the hash is zero.
    pub fn is_zero(&self) -> (r: bool)
        ensures
            r == (*self == Hash::zero()),
    {
        self.w0 == 0 && self.w1 == 0 && self.w2 == 0 && self.w3 == 0
    }

    /// Numeric order on the 256-bit values: true when `self < other`.
    /// This is the order "smaller hash" means throughout the crate: the
    /// hash read as a 256-bit little-endian number, which is the
    /// lexicographic order of the displayed reversed-byte hex form, not
    /// of the stored byte array.
    pub fn less_than(&self, other: &Hash) -> (r: bool)
        ensures
            r == (self.value() < other.value()),
    {
        proof {
            lemma_value_order(*self, *other);
        }
        if self.w3 != other.w3 {
            self.w3 < other.w3
        } else if self.w2 != other.w2 {
            self.w2 < other.w2
        } else if self.w1 != other.w1 {
            self.w1 < other.w1
        } else {
            self.w0 < other.w0
        }
    }
}

impl Default for Hash {
    /// The default hash is all-zero.
    fn default() -> (r: Hash)
        ensures
            r == Hash::zero(),
    {
        Hash { w0: 0, w1: 0, w2: 0, w3: 0 }
    }
}

/// One direction of the limb-wise comparison: if the limbs of `a`, read
/// from the most significant down, are lexicographically below those of
/// `b`, then `a.value() < b.value()`.
proof fn lemma_value_lt(a: Hash, b: Hash)
    ensures
        a.w3 < b.w3 ==> a.value() < b.value(),
        a.w3 == b.w3 && a.w2 < b.w2 ==> a.value() < b.value(),
        a.w3 == b.w3 && a.w2 == b.w2 && a.w1 < b.w1 ==> a.value() < b.value(),
        a.w3 == b.w3 && a.w2 == b.w2 && a.w1 == b.w1 && a.w0 < b.w0 ==> a.value() < b.value(),
{
    let p64: int = 0x1_0000_0000_0000_0000int;
    let p128: int = 0x1_0000_0000_0000_0000_0000_0000_0000_0000int;
    let p192: int = 0x1_0000_0000_0000_0000_0000_0000_0000_0000_0000_0000_0000_0000int;
    if a.w3 < b.w3 {
        assert(a.value() < b.value()) by (nonlinear_arith)
            requires
                a.value() == a.w0 + a.w1 * p64 + a.w2 * p128 + a.w3 * p192,
                b.value() == b.w0 + b.w1 * p64 + b.w2 * p128 + b.w3 * p192,
                a.w3 < b.w3,
                a.w0 < p64 && a.w1 < p64 && a.w2 < p64,
                0 <= b.w0 && 0 <= b.w1 && 0 <= b.w2,
                0 <= a.w0 && 0 <= a.w1 && 0 <= a.w2 && 0 <= a.w3,
                p64 == 0x1_0000_0000_0000_0000int,
                p128 == p64 * p64,
                p192 == p64 * p64 * p64,
        ;
    } else if a.w3 == b.w3 && a.w2 < b.w2 {
        assert(a.value() < b.value()) by (nonlinear_arith)
            requires
                a.value() == a.w0 + a.w1 * p64 + a.w2 * p128 + a.w3 * p192,
                b.value() == b.w0 + b.w1 * p64 + b.w2 * p128 + b.w3 * p192,
                a.w3 == b.w3,
                a.w2 < b.w2,
                a.w0 < p64 && a.w1 < p64,
                0 <= b.w0 && 0 <= b.w1,
                0 <= a.w0 && 0 <= a.w1 && 0 <= a.w2,
                p64 == 0x1_0000_0000_0000_0000int,
                p128 == p64 * p64,
                p192 == p64 * p64 * p64,
        ;
    } else if a.w3 == b.w3 && a.w2 == b.w2 && a.w1 < b.w1 {
        assert(a.value() < b.value()) by (nonlinear_arith)
            requires
                a.value() == a.w0 + a.w1 * p64 + a.w2 * p128 + a.w3 * p192,
                b.value() == b.w0 + b.w1 * p64 + b.w2 * p128 + b.w3 * p192,
                a.w3 == b.w3,
                a.w2 == b.w2,
                a.w1 < b.w1,
                a.w0 < p64,
                0 <= b.w0,
                0 <= a.w0 && 0 <= a.w1,
                p64 == 0x1_0000_0000_0000_0000int,
        ;
    }
}

/// Numeric order of two hashes agrees with lexicographic order of their
/// limbs read from the most significant limb down; in particular equal
/// values force equal limbs.
pub proof fn lemma_value_order(a: Hash, b: Hash)
    ensures
        a.w3 < b.w3 ==> a.value() < b.value(),
        a.w3 == b.w3 && a.w2 < b.w2 ==> a.value() < b.value(),
        a.w3 == b.w3 && a.w2 == b.w2 && a.w1 < b.w1 ==> a.value() < b.value(),
        a.w3 == b.w3 && a.w2 == b.w2 && a.w1 == b.w1 ==> (a.value() < b.value() <==> a.w0 < b.w0),
        a.value() == b.value() <==> (a.w0 == b.w0 && a.w1 == b.w1 && a.w2 == b.w2 && a.w3 == b.w3),
{
    lemma_value_lt(a, b);
    lemma_value_lt(b, a);
}

/// Read a 64-bit little-endian word out of `data` at `start`; bytes past the
/// end of `data` read as zero.
pub(crate) fn word_from_slice(data: &[u8], start: usize) -> (w: u64)
    requires
        start <= 24,
    ensures
        forall|k: int|
            0 <= k < 8 ==> word_byte(w, k) == (if start + k < data@.len() {
                data@[start + k]
            } else {
                0u8
            }),
{
    let n = data.len();
    let b0: u8 = if start < n { data[start] } else { 0 };
    let b1: u8 = if start + 1 < n { data[start + 1] } else { 0 };
    let b2: u8 = if start + 2 < n { data[start + 2] } else { 0 };
    let b3: u8 = if start + 3 < n { data[start + 3] } else { 0 };
    let b4: u8 = if start + 4 < n { data[start + 4] } else { 0 };
    let b5: u8 = if start + 5 < n { data[start + 5] } else { 0 };
    let b6: u8 = if start + 6 < n { data[start + 6] } else { 0 };
    let b7: u8 = if start + 7 < n { data[start + 7] } else { 0 };
    let w: u64 = (b0 as u64) | ((b1 as u64) << 8u64) | ((b2 as u64) << 16u64) | ((b3 as u64)
        << 24u64) | ((b4 as u64) << 32u64) | ((b5 as u64) << 40u64) | ((b6 as u64) << 48u64) | ((
    b7 as u64) << 56u64);
    proof {
        assert(((w >> 0u64) & 0xff) == b0 && ((w >> 8u64) & 0xff) == b1 && ((w >> 16u64) & 0xff)
            == b2 && ((w >> 24u64) & 0xff) == b3 && ((w >> 32u64) & 0xff) == b4 && ((w >> 40u64)
            & 0xff) == b5 && ((w >> 48u64) & 0xff) == b6 && ((w >> 56u64) & 0xff) == b7)
            by (bit_vector)
            requires
                w == (b0 as u64) | ((b1 as u64) << 8u64) | ((b2 as u64) << 16u64) | ((b3 as u64)
                    << 24u64) | ((b4 as u64) << 32u64) | ((b5 as u64) << 40u64) | ((b6 as u64)
                    << 48u64) | ((b7 as u64) << 56u64),
        ;
        assert forall|k: int| 0 <= k < 8 implies word_byte(w, k) == (if start + k < data@.len() {
            data@[start + k]
        } else {
            0u8
        }) by {
            if k == 0 {
                assert(word_byte(w, 0) == b0);
            } else if k == 1 {
                assert(word_byte(w, 1) == b1);
            } else if k == 2 {
                assert(word_byte(w, 2) == b2);
            } else if k == 3 {
                assert(word_byte(w, 3) == b3);
            } else if k == 4 {
                assert(word_byte(w, 4) == b4);
            } else if k == 5 {
                assert(word_byte(w, 5) == b5);
            } else if k == 6 {
                assert(word_byte(w, 6) == b6);
            } else {
                assert(word_byte(w, 7) == b7);
            }
        }
    }
    w
}


/// Two words with the same eight bytes are equal.
proof fn lemma_word_bytes_injective(x: u64, y: u64)
    requires
        word_byte(x, 0) == word_byte(y, 0),
        word_byte(x, 1) == word_byte(y, 1),
        word_byte(x, 2) == word_byte(y, 2),
        word_byte(x, 3) == word_byte(y, 3),
        word_byte(x, 4) == word_byte(y, 4),
        word_byte(x, 5) == word_byte(y, 5),
        word_byte(x, 6) == word_byte(y, 6),
        word_byte(x, 7) == word_byte(y, 7),
    ensures
        x == y,
{
    assert(x == y) by (bit_vector)
        requires
            word_byte(x, 0) == word_byte(y, 0),
            word_byte(x, 1) == word_byte(y, 1),
            word_byte(x, 2) == word_byte(y, 2),
            word_byte(x, 3) == word_byte(y, 3),
            word_byte(x, 4) == word_byte(y, 4),
            word_byte(x, 5) == word_byte(y, 5),
            word_byte(x, 6) == word_byte(y, 6),
            word_byte(x, 7) == word_byte(y, 7),
    ;
}

/// Two hashes with the same byte serialization are the same hash.
pub proof fn lemma_hash_bytes_injective(a: Hash, b: Hash)
    requires
        a.bytes() == b.bytes(),
    ensures
        a == b,
{
    assert forall|k: int| 0 <= k < 8 implies word_byte(a.w0, k) == word_byte(b.w0, k) by {
        assert(a.bytes()[k] == word_byte(a.word(k / 8), k % 8));
        assert(b.bytes()[k] == word_byte(b.word(k / 8), k % 8));
    }
    assert forall|k: int| 0 <= k < 8 implies word_byte(a.w1, k) == word_byte(b.w1, k) by {
        assert(a.bytes()[8 + k] == word_byte(a.word((8 + k) / 8), (8 + k) % 8));
        assert(b.bytes()[8 + k] == word_byte(b.word((8 + k) / 8), (8 + k) % 8));
    }
    assert forall|k: int| 0 <= k < 8 implies word_byte(a.w2, k) == word_byte(b.w2, k) by {
        assert(a.bytes()[16 + k] == word_byte(a.word((16 + k) / 8), (16 + k) % 8));
        assert(b.bytes()[16 + k] == word_byte(b.word((16 + k) / 8), (16 + k) % 8));
    }
    assert forall|k: int| 0 <= k < 8 implies word_byte(a.w3, k) == word_byte(b.w3, k) by {
        assert(a.bytes()[24 + k] == word_byte(a.word((24 + k) / 8), (24 + k) % 8));
        assert(b.bytes()[24 + k] == word_byte(b.word((24 + k) / 8), (24 + k) % 8));
    }
    lemma_word_bytes_injective(a.w0, b.w0);
    lemma_word_bytes_injective(a.w1, b.w1);
    lemma_word_bytes_injective(a.w2, b.w2);
    lemma_word_bytes_injective(a.w3, b.w3);
}

} // verus!
