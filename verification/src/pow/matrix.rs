//! The matrix the heavy-hash mixes a hash with, generated from the
//! pre-work hash.

use vstd::prelude::*;

verus! {

/// A 64-byte mixing table for the heavy hash.
#[derive(Debug, Clone)]
pub struct Matrix {
    data: Vec<u8>,
}

impl Matrix {
    /// The mixing bytes.
    pub closed spec fn spec_data(&self) -> Seq<u8> {
        self.data@
    }

    /// The table holds 64 bytes.
    pub open spec fn wf(&self) -> bool {
        self.spec_data().len() == 64
    }

    /// Generates the table from a pre-work hash: its 32 bytes, repeated.
    pub fn generate(pre_pow_hash: crate::hashes::Hash) -> (r: Matrix)
        ensures
            r.wf(),
            forall|i: int| 0 <= i < 64 ==> r.spec_data()[i] == pre_pow_hash.bytes()[i % 32],
    {
        let bytes = pre_pow_hash.as_bytes();
        let mut data: Vec<u8> = Vec::new();
        let mut i: usize = 0;
        while i < 64
            invariant
                0 <= i <= 64,
                bytes@ == pre_pow_hash.bytes(),
                data@.len() == i,
                forall|j: int| 0 <= j < i ==> data@[j] == pre_pow_hash.bytes()[j % 32],
            decreases 64 - i,
        {
            data.push(bytes[i % 32]);
            i += 1;
        }
        Matrix { data }
    }

    /// Mixes an input hash with the table: byte `i` of the result is the
    /// input byte folded with table bytes `i` and `i + 32`.
    pub fn heavy_hash(&self, input: crate::hashes::Hash) -> (r: crate::hashes::Hash)
        requires
            self.wf(),
        ensures
            forall|i: int|
                0 <= i < 32 ==> r.bytes()[i] == (input.bytes()[i] ^ self.spec_data()[i]
                    ^ self.spec_data()[i + 32]),
    {
        let input_bytes = input.as_bytes();
        let mut result: Vec<u8> = Vec::new();
        let mut i: usize = 0;
        while i < 32
            invariant
                0 <= i <= 32,
                input_bytes@ == input.bytes(),
                self.wf(),
                result@.len() == i,
                forall|j: int|
                    0 <= j < i ==> result@[j] == (input.bytes()[j] ^ self.spec_data()[j]
                        ^ self.spec_data()[j + 32]),
            decreases 32 - i,
        {
            result.push(input_bytes[i] ^ self.data[i] ^ self.data[i + 32]);
            i += 1;
        }
        let r = crate::hashes::Hash::from_slice(result.as_slice());
        proof {
            assert forall|i: int| 0 <= i < 32 implies r.bytes()[i] == (input.bytes()[i]
                ^ self.spec_data()[i] ^ self.spec_data()[i + 32]) by {
                assert(r.bytes()[i] == result@[i]);
            }
        }
        r
    }
}

} // verus!
