//! Block hash utilities.

use vstd::prelude::*;
use crate::block::Block;
use crate::hashing::sha256_of;
use crate::header::header_bytes_with_nonce;

verus! {

/// The hash of a block: its header hash.
pub fn block_hash(block: &Block) -> (r: crate::hashes::Hash)
    requires
        block.header.counts_fit(),
    ensures
        r.bytes() == sha256_of(header_bytes_with_nonce(block.header, block.header.nonce)),
{
    block.hash()
}

/// The marker bytes a hash must not begin with to count as valid.
pub open spec fn invalid_marker() -> Seq<u8> {
    seq![0x69u8, 0x6eu8, 0x76u8, 0x61u8, 0x6cu8, 0x69u8, 0x64u8]
}

/// A block hash is valid when it is neither all-zero nor begins with the
/// marker bytes.
pub fn is_valid_block_hash(hash: &crate::hashes::Hash) -> (r: bool)
    ensures
        r == (*hash != crate::hashes::Hash::zero() && hash.bytes().take(7) != invalid_marker()),
{
    if hash.is_zero() {
        return false;
    }
    let bytes = hash.as_bytes();
    let marked = bytes[0] == 0x69 && bytes[1] == 0x6e && bytes[2] == 0x76 && bytes[3] == 0x61
        && bytes[4] == 0x6c && bytes[5] == 0x69 && bytes[6] == 0x64;
    proof {
        if marked {
            assert(hash.bytes().take(7) =~= invalid_marker());
        }
        if hash.bytes().take(7) == invalid_marker() {
            assert(hash.bytes()[0] == 0x69 && hash.bytes()[1] == 0x6e && hash.bytes()[2] == 0x76
                && hash.bytes()[3] == 0x61 && hash.bytes()[4] == 0x6c && hash.bytes()[5] == 0x69
                && hash.bytes()[6] == 0x64) by {
            assert(invalid_marker()[0] == 0x69u8 && hash.bytes().take(7)[0] == hash.bytes()[0]);
            assert(hash.bytes().take(7)[1] == hash.bytes()[1]);
            assert(hash.bytes().take(7)[2] == hash.bytes()[2]);
            assert(hash.bytes().take(7)[3] == hash.bytes()[3]);
            assert(hash.bytes().take(7)[4] == hash.bytes()[4]);
            assert(hash.bytes().take(7)[5] == hash.bytes()[5]);
            assert(hash.bytes().take(7)[6] == hash.bytes()[6]);
            }
        }
    }
    !marked
}

} // verus!
