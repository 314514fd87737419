//! Block headers with multi-level parents, and the deterministic header
//! hash over the fixed wire layout.

use vstd::prelude::*;
use crate::hashing::{u16_le, u32_le, u64_le, sha256_of, flat_hash_bytes};
use crate::uint::Uint192;

verus! {

/// A block header. Parents are stratified by level; level 0 holds the real
/// parents used by the GHOSTDAG engine.
#[derive(Debug, Clone, PartialEq, Eq)]
pub struct Header {
    pub version: u16,
    pub parents_by_level: Vec<Vec<crate::hashes::Hash>>,
    pub merkle_root: crate::hashes::Hash,
    pub timestamp: u64,
    pub bits: u32,
    pub nonce: u64,
    pub daa_score: u64,
    pub blue_score: u64,
    pub blue_work: Uint192,
    pub pruning_point: crate::hashes::Hash,
}

/// The serialization of the parent levels: for each level its count and
/// then its hashes.
pub open spec fn levels_bytes(levels: Seq<Vec<crate::hashes::Hash>>) -> Seq<u8>
    decreases levels.len(),
{
    if levels.len() == 0 {
        Seq::empty()
    } else {
        levels_bytes(levels.drop_last()) + u32_le(levels.last()@.len() as u32) + flat_hash_bytes(
            levels.last()@,
        )
    }
}

/// The header wire layout with an arbitrary trial nonce: version, level
/// count, per-level counts and hashes, merkle root, timestamp, bits, nonce,
/// daa score, blue score, blue work and pruning point.
pub open spec fn header_bytes_with_nonce(h: Header, nonce: u64) -> Seq<u8> {
    u16_le(h.version) + u32_le(h.parents_by_level@.len() as u32) + levels_bytes(
        h.parents_by_level@,
    ) + h.merkle_root.bytes() + u64_le(h.timestamp) + u32_le(h.bits) + u64_le(nonce) + u64_le(
        h.daa_score,
    ) + u64_le(h.blue_score) + h.blue_work.bytes() + h.pruning_point.bytes()
}

impl Header {
    /// The counts in the wire layout are 32-bit: the level count and each
    /// level's parent count must fit.
    pub open spec fn counts_fit(&self) -> bool {
        &&& self.parents_by_level@.len() <= u32::MAX
        &&& forall|i: int|
            0 <= i < self.parents_by_level@.len() ==> self.parents_by_level@[i]@.len() <= u32::MAX
    }

    /// All parents across levels, level 0 first.
    pub open spec fn all_parents(&self) -> Seq<crate::hashes::Hash> {
        self.parents_by_level@.map_values(|level: Vec<crate::hashes::Hash>| level@).flatten()
    }

    /// The level 0 parents, the ones the GHOSTDAG engine uses.
    pub open spec fn parents_level0(&self) -> Seq<crate::hashes::Hash> {
        if self.parents_by_level@.len() == 0 {
            Seq::empty()
        } else {
            self.parents_by_level@[0]@
        }
    }

    /// The genesis predicate: every parent level is empty.
    pub open spec fn spec_is_genesis(&self) -> bool {
        forall|i: int| 0 <= i < self.parents_by_level@.len() ==> self.parents_by_level@[i]@.len()
            == 0
    }

    /// Creates a header with the default field values: version 1, one empty
    /// parent level, and zeroes elsewhere.
    pub fn new() -> (r: Header)
        ensures
            r.version == 1,
            r.parents_by_level@.len() == 1,
            r.parents_by_level@[0]@.len() == 0,
            r.merkle_root == crate::hashes::Hash::zero(),
            r.timestamp == 0,
            r.bits == 0,
            r.nonce == 0,
            r.daa_score == 0,
            r.blue_score == 0,
            r.blue_work.value() == 0,
            r.pruning_point == crate::hashes::Hash::zero(),
            r.spec_is_genesis(),
            r.counts_fit(),
    {
        let mut parents_by_level: Vec<Vec<crate::hashes::Hash>> = Vec::new();
        parents_by_level.push(Vec::new());
        Header {
            version: 1,
            parents_by_level,
            merkle_root: crate::hashes::Hash::default(),
            timestamp: 0,
            bits: 0,
            nonce: 0,
            daa_score: 0,
            blue_score: 0,
            blue_work: Uint192::from_u64(0),
            pruning_point: crate::hashes::Hash::default(),
        }
    }

    /// The deterministic header hash, nonce included.
    pub fn hash(&self) -> (r: crate::hashes::Hash)
        requires
            self.counts_fit(),
        ensures
            r.bytes() == sha256_of(header_bytes_with_nonce(*self, self.nonce)),
    {
        self.hash_with_nonce(self.nonce)
    }

    /// The header hash with a trial nonce in place of the stored one, the
    /// primitive for mining inner loops.
    pub fn hash_with_nonce(&self, nonce: u64) -> (r: crate::hashes::Hash)
        requires
            self.counts_fit(),
        ensures
            r.bytes() == sha256_of(header_bytes_with_nonce(*self, nonce)),
    {
        let mut data: Vec<u8> = Vec::new();
        crate::hashing::push_u16_le(&mut data, self.version);
        crate::hashing::push_u32_le(&mut data, self.parents_by_level.len() as u32);
        let mut i: usize = 0;
        while i < self.parents_by_level.len()
            invariant
                0 <= i <= self.parents_by_level@.len(),
                self.counts_fit(),
                data@ == u16_le(self.version) + u32_le(self.parents_by_level@.len() as u32)
                    + levels_bytes(self.parents_by_level@.take(i as int)),
            decreases self.parents_by_level@.len() - i,
        {
            let level = &self.parents_by_level[i];
            crate::hashing::push_u32_le(&mut data, level.len() as u32);
            let mut j: usize = 0;
            let ghost base = data@;
            while j < level.len()
                invariant
                    0 <= j <= level@.len(),
                    level == self.parents_by_level@[i as int],
                    data@ == base + flat_hash_bytes(level@.take(j as int)),
                decreases level@.len() - j,
            {
                let mut hb = level[j].as_bytes();
                proof {
                    assert(level@.take(j + 1int).drop_last() =~= level@.take(j as int));
                    assert(level@.take(j + 1int).last() == level@[j as int]);
                }
                data.append(&mut hb);
                j += 1;
            }
            proof {
                assert(level@.take(level@.len() as int) =~= level@);
                assert(self.parents_by_level@.take(i + 1int).drop_last()
                    =~= self.parents_by_level@.take(i as int));
                assert(self.parents_by_level@.take(i + 1int).last() == self.parents_by_level@[
                    i as int]);
                assert(data@ =~= u16_le(self.version) + u32_le(self.parents_by_level@.len() as u32)
                    + levels_bytes(self.parents_by_level@.take(i + 1int)));
            }
            i += 1;
        }
        proof {
            assert(self.parents_by_level@.take(self.parents_by_level@.len() as int)
                =~= self.parents_by_level@);
        }
        let mut mb = self.merkle_root.as_bytes();
        data.append(&mut mb);
        crate::hashing::push_u64_le(&mut data, self.timestamp);
        crate::hashing::push_u32_le(&mut data, self.bits);
        crate::hashing::push_u64_le(&mut data, nonce);
        crate::hashing::push_u64_le(&mut data, self.daa_score);
        crate::hashing::push_u64_le(&mut data, self.blue_score);
        let mut wb = self.blue_work.to_le_bytes();
        data.append(&mut wb);
        let mut pb = self.pruning_point.as_bytes();
        data.append(&mut pb);
        proof {
            assert(data@ =~= header_bytes_with_nonce(*self, nonce));
        }
        crate::hashing::hash_block_header(data.as_slice())
    }
}

impl Default for Header {
    /// The default header has the `new` field values.
    fn default() -> (r: Header)
        ensures
            r.version == 1,
            r.spec_is_genesis(),
            r.counts_fit(),
    {
        Header::new()
    }
}

/// Hashing a header with a trial nonce gives exactly the hash of the same
/// header with that nonce stored: the wire bytes agree.
pub proof fn lemma_hash_with_nonce(h: Header, n: u64)
    ensures
        header_bytes_with_nonce(h, n) == header_bytes_with_nonce(
            Header { nonce: n, ..h },
            (Header { nonce: n, ..h }).nonce,
        ),
{
    assert(header_bytes_with_nonce(h, n) =~= header_bytes_with_nonce(
        Header { nonce: n, ..h },
        (Header { nonce: n, ..h }).nonce,
    ));
}

} // verus!
