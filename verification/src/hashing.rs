//! Domain hashing: SHA-256 and SHA3-256 digests, the incremental block and
//! proof-of-work hashers, and the compact-target rules.

use vstd::prelude::*;
use crate::hashes::word_byte;
use crate::uint::{Uint192, Uint256, target_of};

verus! {

/// The SHA-256 digest of a byte string. Relies on the sha2 crate; the
/// result depends on the input bytes alone.
pub uninterp spec fn sha256_of(data: Seq<u8>) -> Seq<u8>;

/// The SHA3-256 digest of a byte string. Relies on the sha3 crate; the
/// result depends on the input bytes alone.
pub uninterp spec fn sha3_256_of(data: Seq<u8>) -> Seq<u8>;

/// Relies on sha2's `Sha256`: a 32-byte digest that is a function of the
/// input bytes alone.
#[verifier::external_body]
fn sha256(data: &[u8]) -> (r: Vec<u8>)
    ensures
        r@ == sha256_of(data@),
        r@.len() == 32,
{
    <sha2::Sha256 as sha2::Digest>::digest(data).to_vec()
}

/// Relies on sha3's `Sha3_256`: a 32-byte digest that is a function of the
/// input bytes alone.
#[verifier::external_body]
fn sha3_256(data: &[u8]) -> (r: Vec<u8>)
    ensures
        r@ == sha3_256_of(data@),
        r@.len() == 32,
{
    <sha3::Sha3_256 as sha3::Digest>::digest(data).to_vec()
}

/// Hash data with SHA-256.
pub fn hash_data(data: &[u8]) -> (r: crate::hashes::Hash)
    ensures
        r.bytes() == sha256_of(data@),
{
    let digest = sha256(data);
    let r = crate::hashes::Hash::from_slice(digest.as_slice());
    proof {
        assert(r.bytes() =~= sha256_of(data@));
    }
    r
}

/// Hash a serialized block header.
pub fn hash_block_header(data: &[u8]) -> (r: crate::hashes::Hash)
    ensures
        r.bytes() == sha256_of(data@),
{
    hash_data(data)
}

/// Hash a script.
pub fn hash_script(data: &[u8]) -> (r: crate::hashes::Hash)
    ensures
        r.bytes() == sha256_of(data@),
{
    hash_data(data)
}

/// Hash a serialized transaction.
pub fn hash_transaction(data: &[u8]) -> (r: crate::hashes::Hash)
    ensures
        r.bytes() == sha256_of(data@),
{
    hash_data(data)
}

/// SHA-256 applied twice.
pub fn double_sha256(data: &[u8]) -> (r: crate::hashes::Hash)
    ensures
        r.bytes() == sha256_of(sha256_of(data@)),
{
    let first = hash_data(data);
    let first_bytes = first.as_bytes();
    hash_data(first_bytes.as_slice())
}

/// The concatenated byte serializations of a sequence of hashes.
pub open spec fn flat_hash_bytes(hashes: Seq<crate::hashes::Hash>) -> Seq<u8>
    decreases hashes.len(),
{
    if hashes.len() == 0 {
        Seq::empty()
    } else {
        flat_hash_bytes(hashes.drop_last()) + hashes.last().bytes()
    }
}

/// Hash the concatenation of a list of hashes with SHA-256.
pub fn hash_merkle_root(hashes: &Vec<crate::hashes::Hash>) -> (r: crate::hashes::Hash)
    ensures
        r.bytes() == sha256_of(flat_hash_bytes(hashes@)),
{
    let mut data: Vec<u8> = Vec::new();
    let mut i: usize = 0;
    while i < hashes.len()
        invariant
            0 <= i <= hashes@.len(),
            data@ == flat_hash_bytes(hashes@.take(i as int)),
        decreases hashes@.len() - i,
    {
        let mut hb = hashes[i].as_bytes();
        data.append(&mut hb);
        proof {
            assert(hashes@.take(i + 1 as int).drop_last() =~= hashes@.take(i as int));
            assert(hashes@.take(i + 1 as int).last() == hashes@[i as int]);
        }
        i += 1;
    }
    proof {
        assert(hashes@.take(hashes@.len() as int) =~= hashes@);
    }
    hash_data(data.as_slice())
}

/// Decode the 32-bit compact representation of the difficulty target.
pub fn target_from_bits(bits: u32) -> (r: Uint256)
    ensures
        r.value() == target_of(bits),
{
    Uint256::from_compact_target_bits(bits)
}

/// True when the hash value does not exceed the target.
pub fn meets_target(hash: &crate::hashes::Hash, target: &Uint256) -> (r: bool)
    ensures
        r == (hash.value() <= target.value()),
{
    let hv = Uint256::from_hash(hash);
    !target.less_than(&hv)
}

/// The 8-byte little-endian serialization of a 64-bit value.
pub open spec fn u64_le(v: u64) -> Seq<u8> {
    Seq::new(8, |i: int| word_byte(v, i))
}

/// The 4-byte little-endian serialization of a 32-bit value.
pub open spec fn u32_le(v: u32) -> Seq<u8> {
    Seq::new(4, |i: int| word_byte(v as u64, i))
}

/// The 2-byte little-endian serialization of a 16-bit value.
pub open spec fn u16_le(v: u16) -> Seq<u8> {
    Seq::new(2, |i: int| word_byte(v as u64, i))
}

/// Append the little-endian bytes of a 64-bit value.
pub fn push_u64_le(out: &mut Vec<u8>, x: u64)
    ensures
        final(out)@ == old(out)@ + u64_le(x),
{
    let mut k: u64 = 0;
    while k < 8
        invariant
            0 <= k <= 8,
            out@ == old(out)@ + u64_le(x).take(k as int),
        decreases 8 - k,
    {
        let b: u8 = ((x >> (8 * k)) & 0xff) as u8;
        proof {
            assert(b == word_byte(x, k as int));
            assert(u64_le(x).take(k + 1int) =~= u64_le(x).take(k as int).push(b));
        }
        out.push(b);
        k += 1;
    }
    proof {
        assert(u64_le(x).take(8) =~= u64_le(x));
    }
}

/// Append the little-endian bytes of a 32-bit value.
pub fn push_u32_le(out: &mut Vec<u8>, x: u32)
    ensures
        final(out)@ == old(out)@ + u32_le(x),
{
    let mut k: u64 = 0;
    while k < 4
        invariant
            0 <= k <= 4,
            out@ == old(out)@ + u32_le(x).take(k as int),
        decreases 4 - k,
    {
        let b: u8 = (((x as u64) >> (8 * k)) & 0xff) as u8;
        proof {
            assert(b == word_byte(x as u64, k as int));
            assert(u32_le(x).take(k + 1int) =~= u32_le(x).take(k as int).push(b));
        }
        out.push(b);
        k += 1;
    }
    proof {
        assert(u32_le(x).take(4) =~= u32_le(x));
    }
}

/// Append the little-endian bytes of a 16-bit value.
pub fn push_u16_le(out: &mut Vec<u8>, x: u16)
    ensures
        final(out)@ == old(out)@ + u16_le(x),
{
    let mut k: u64 = 0;
    while k < 2
        invariant
            0 <= k <= 2,
            out@ == old(out)@ + u16_le(x).take(k as int),
        decreases 2 - k,
    {
        let b: u8 = (((x as u64) >> (8 * k)) & 0xff) as u8;
        proof {
            assert(b == word_byte(x as u64, k as int));
            assert(u16_le(x).take(k + 1int) =~= u16_le(x).take(k as int).push(b));
        }
        out.push(b);
        k += 1;
    }
    proof {
        assert(u16_le(x).take(2) =~= u16_le(x));
    }
}

/// Big-endian serialization of a 192-bit work value with leading zero bytes
/// removed.
pub open spec fn blue_work_be_trimmed(work: Uint192) -> Seq<u8> {
    trim_leading_zeros(work.bytes().reverse())
}

/// Remove leading zero bytes.
pub open spec fn trim_leading_zeros(s: Seq<u8>) -> Seq<u8>
    decreases s.len(),
{
    if s.len() > 0 && s[0] == 0 {
        trim_leading_zeros(s.skip(1))
    } else {
        s
    }
}

/// Extensions every domain hasher offers: writing lengths, flags, integers,
/// works and length-prefixed byte strings into the hashed stream.
pub trait HasherExtensions {
    /// The bytes fed to the hasher so far.
    spec fn fed(&self) -> Seq<u8>;

    /// Writes the length as little-endian 64-bit bytes.
    fn write_len(&mut self, len: usize)
        ensures
            final(self).fed() == old(self).fed() + u64_le(len as u64),
    ;

    /// Writes the boolean as one byte.
    fn write_bool(&mut self, element: bool)
        ensures
            final(self).fed() == old(self).fed() + seq![
                if element {
                    1u8
                } else {
                    0u8
                },
            ],
    ;

    /// Writes a single byte.
    fn write_u8(&mut self, element: u8)
        ensures
            final(self).fed() == old(self).fed() + seq![element],
    ;

    /// Writes the value as 2 little-endian bytes.
    fn write_u16(&mut self, element: u16)
        ensures
            final(self).fed() == old(self).fed() + u16_le(element),
    ;

    /// Writes the value as 4 little-endian bytes.
    fn write_u32(&mut self, element: u32)
        ensures
            final(self).fed() == old(self).fed() + u32_le(element),
    ;

    /// Writes the value as 8 little-endian bytes.
    fn write_u64(&mut self, element: u64)
        ensures
            final(self).fed() == old(self).fed() + u64_le(element),
    ;

    /// Writes the work value as big-endian bytes without leading zeros,
    /// length-prefixed.
    fn write_blue_work(&mut self, work: Uint192)
        ensures
            final(self).fed() == old(self).fed() + u64_le(
                blue_work_be_trimmed(work).len() as u64,
            ) + blue_work_be_trimmed(work),
    ;

    /// Writes the number of bytes followed by the bytes themselves.
    fn write_var_bytes(&mut self, bytes: &[u8])
        ensures
            final(self).fed() == old(self).fed() + u64_le(bytes@.len() as u64) + bytes@,
    ;
}

/// An incremental hasher for consensus blocks, producing a SHA3-256 digest
/// over everything written into it.
pub struct BlockHash {
    buffer: Vec<u8>,
}

impl BlockHash {
    /// The bytes written so far.
    pub closed spec fn fed_bytes(&self) -> Seq<u8> {
        self.buffer@
    }

    /// Creates an empty block hasher.
    pub fn new() -> (r: BlockHash)
        ensures
            r.fed_bytes() == Seq::<u8>::empty(),
    {
        let r = BlockHash { buffer: Vec::new() };
        proof {
            assert(r.fed_bytes() =~= Seq::<u8>::empty());
        }
        r
    }

    /// Feeds bytes into the hasher.
    pub fn update(&mut self, data: &[u8])
        ensures
            final(self).fed_bytes() == old(self).fed_bytes() + data@,
    {
        let mut i: usize = 0;
        while i < data.len()
            invariant
                0 <= i <= data@.len(),
                self.buffer@ == old(self).buffer@ + data@.take(i as int),
            decreases data@.len() - i,
        {
            let b = data[i];
            proof {
                assert(data@.take(i + 1int) =~= data@.take(i as int).push(b));
            }
            self.buffer.push(b);
            i += 1;
        }
        proof {
            assert(data@.take(data@.len() as int) =~= data@);
        }
    }

    /// Produces the SHA3-256 digest of everything written.
    pub fn finalize(self) -> (r: crate::hashes::Hash)
        ensures
            r.bytes() == sha3_256_of(self.fed_bytes()),
    {
        let digest = sha3_256(self.buffer.as_slice());
        let r = crate::hashes::Hash::from_slice(digest.as_slice());
        proof {
            assert(r.bytes() =~= sha3_256_of(self.fed_bytes()));
        }
        r
    }
}

impl Default for BlockHash {
    /// The default block hasher is empty.
    fn default() -> (r: BlockHash)
        ensures
            r.fed_bytes() == Seq::<u8>::empty(),
    {
        BlockHash::new()
    }
}

impl HasherExtensions for BlockHash {
    open spec fn fed(&self) -> Seq<u8> {
        self.fed_bytes()
    }

    fn write_len(&mut self, len: usize) {
        let ghost pre = self.buffer@;
        push_u64_le(&mut self.buffer, len as u64);
    }

    fn write_bool(&mut self, element: bool) {
        self.buffer.push(if element {
            1u8
        } else {
            0u8
        });
        proof {
            assert(self.buffer@ =~= old(self).fed() + seq![
                if element {
                    1u8
                } else {
                    0u8
                },
            ]);
        }
    }

    fn write_u8(&mut self, element: u8) {
        self.buffer.push(element);
        proof {
            assert(self.buffer@ =~= old(self).fed() + seq![element]);
        }
    }

    fn write_u16(&mut self, element: u16) {
        push_u16_le(&mut self.buffer, element);
    }

    fn write_u32(&mut self, element: u32) {
        push_u32_le(&mut self.buffer, element);
    }

    fn write_u64(&mut self, element: u64) {
        push_u64_le(&mut self.buffer, element);
    }

    fn write_blue_work(&mut self, work: Uint192) {
        let le = work.to_le_bytes();
        let mut be: Vec<u8> = Vec::new();
        let mut i: usize = 24;
        while i > 0
            invariant
                0 <= i <= 24,
                le@ == work.bytes(),
                be@ =~= work.bytes().reverse().take(24 - i as int),
            decreases i,
        {
            i -= 1;
            proof {
                assert(work.bytes().reverse()[24 - i - 1int] == work.bytes()[i as int]);
                assert(work.bytes().reverse().take(24 - i as int) =~= work.bytes().reverse().take(
                    24 - i - 1int,
                ).push(work.bytes()[i as int]));
            }
            be.push(le[i]);
        }
        proof {
            assert(be@ =~= work.bytes().reverse());
        }
        let mut start: usize = 0;
        while start < be.len() && be[start] == 0
            invariant
                0 <= start <= be@.len(),
                be@ == work.bytes().reverse(),
                forall|j: int| 0 <= j < start ==> be@[j] == 0,
                trim_leading_zeros(be@) == trim_leading_zeros(be@.skip(start as int)),
            decreases be@.len() - start,
        {
            proof {
                assert(be@.skip(start as int)[0] == 0);
                assert(be@.skip(start + 1int) =~= be@.skip(start as int).skip(1));
            }
            start += 1;
        }
        proof {
            let rest = be@.skip(start as int);
            if start < be@.len() {
                assert(rest[0] != 0);
            }
            assert(trim_leading_zeros(rest) == rest);
            assert(blue_work_be_trimmed(work) == rest);
        }
        let mut tail: Vec<u8> = Vec::new();
        let mut j: usize = start;
        while j < be.len()
            invariant
                start <= j <= be@.len(),
                be@ == work.bytes().reverse(),
                tail@ =~= be@.skip(start as int).take(j - start as int),
            decreases be@.len() - j,
        {
            proof {
                assert(be@.skip(start as int).take(j - start + 1int) =~= be@.skip(
                    start as int,
                ).take(j - start as int).push(be@[j as int]));
            }
            tail.push(be[j]);
            j += 1;
        }
        proof {
            assert(tail@ =~= be@.skip(start as int));
        }
        self.write_var_bytes(tail.as_slice());
    }

    fn write_var_bytes(&mut self, bytes: &[u8]) {
        push_u64_le(&mut self.buffer, bytes.len() as u64);
        let mut i: usize = 0;
        while i < bytes.len()
            invariant
                0 <= i <= bytes@.len(),
                self.buffer@ == old(self).buffer@ + u64_le(bytes@.len() as u64) + bytes@.take(
                    i as int,
                ),
            decreases bytes@.len() - i,
        {
            let b = bytes[i];
            proof {
                assert(bytes@.take(i + 1int) =~= bytes@.take(i as int).push(b));
            }
            self.buffer.push(b);
            i += 1;
        }
        proof {
            assert(bytes@.take(bytes@.len() as int) =~= bytes@);
        }
    }
}

/// An incremental hasher for the proof-of-work check, seeded with the
/// pre-work hash, the timestamp and 32 zero padding bytes, and finished
/// with the trial nonce.
pub struct PowHash {
    buffer: Vec<u8>,
}

impl PowHash {
    /// The bytes a fresh proof-of-work hasher is seeded with.
    pub open spec fn seed_bytes(pre_pow_hash: crate::hashes::Hash, timestamp: u64) -> Seq<u8> {
        pre_pow_hash.bytes() + u64_le(timestamp) + Seq::new(32, |i: int| 0u8)
    }

    /// The bytes this hasher has accumulated.
    pub closed spec fn fed_bytes(&self) -> Seq<u8> {
        self.buffer@
    }

    /// Creates a proof-of-work hasher seeded with the pre-work hash and the
    /// timestamp.
    pub fn new(pre_pow_hash: crate::hashes::Hash, timestamp: u64) -> (r: PowHash)
        ensures
            r.fed_bytes() == PowHash::seed_bytes(pre_pow_hash, timestamp),
    {
        let mut buffer = pre_pow_hash.as_bytes();
        push_u64_le(&mut buffer, timestamp);
        let mut i: usize = 0;
        while i < 32
            invariant
                0 <= i <= 32,
                buffer@ == pre_pow_hash.bytes() + u64_le(timestamp) + Seq::new(
                    i as nat,
                    |j: int| 0u8,
                ),
            decreases 32 - i,
        {
            proof {
                assert(Seq::new((i + 1) as nat, |j: int| 0u8) =~= Seq::new(i as nat, |j: int| 0u8)
                    .push(0u8));
            }
            buffer.push(0u8);
            i += 1;
        }
        let r = PowHash { buffer };
        proof {
            assert(r.fed_bytes() =~= PowHash::seed_bytes(pre_pow_hash, timestamp));
        }
        r
    }

    /// Appends the nonce and produces the SHA3-256 digest.
    pub fn finalize_with_nonce(self, nonce: u64) -> (r: crate::hashes::Hash)
        ensures
            r.bytes() == sha3_256_of(self.fed_bytes() + u64_le(nonce)),
    {
        let mut buffer = self.buffer;
        push_u64_le(&mut buffer, nonce);
        let digest = sha3_256(buffer.as_slice());
        let r = crate::hashes::Hash::from_slice(digest.as_slice());
        proof {
            assert(r.bytes() =~= sha3_256_of(self.fed_bytes() + u64_le(nonce)));
        }
        r
    }
}

} // verus!
