//! Mining rules: the proof-of-work bound and the sanity of attached
//! GHOSTDAG data.

use vstd::prelude::*;
use vstd::string::StringExecFns;
use crate::block::Block;
use crate::errors::{ConsensusError, ConsensusResult};
use crate::hashing::sha256_of;
use crate::header::header_bytes_with_nonce;
use crate::uint::target_of;

verus! {

/// The block's hash meets its own declared target. Genesis blocks with
/// nonzero bits are exempt.
pub open spec fn pow_ok(block: Block) -> bool {
    ||| (block.header.spec_is_genesis() && block.header.bits != 0)
    ||| (exists|bh: crate::hashes::Hash|
        bh.bytes() == sha256_of(
            #[trigger] header_bytes_with_nonce(block.header, block.header.nonce),
        ) && bh.value() <= target_of(block.header.bits))
}

/// Checks the proof of work: the block hash must not exceed the target
/// decoded from the header bits; genesis blocks with nonzero bits pass.
pub fn check_proof_of_work(block: &Block) -> (r: bool)
    requires
        block.header.counts_fit(),
    ensures
        r == pow_ok(*block),
{
    if block.is_genesis() && block.header.bits != 0 {
        return true;
    }
    let hash = block.hash();
    let target = crate::hashing::target_from_bits(block.header.bits);
    let meets = crate::hashing::meets_target(&hash, &target);
    proof {
        if meets {
            assert(pow_ok(*block)) by {
                assert(hash.bytes() == sha256_of(
                    header_bytes_with_nonce(block.header, block.header.nonce),
                ) && hash.value() <= target_of(block.header.bits));
            }
        } else {
            if pow_ok(*block) {
                let bh = choose|bh: crate::hashes::Hash|
                    bh.bytes() == sha256_of(
                        #[trigger] header_bytes_with_nonce(block.header, block.header.nonce),
                    ) && bh.value() <= target_of(block.header.bits);
                crate::hashes::lemma_hash_bytes_injective(bh, hash);
            }
        }
    }
    meets
}

/// Validates the attached GHOSTDAG data: genesis needs none; any other
/// block must carry data whose selected parent is a level-0 parent.
pub fn validate_ghostdag_data(block: &Block) -> (r: ConsensusResult<()>)
    ensures
        block.header.spec_is_genesis() ==> r.is_ok(),
        !block.header.spec_is_genesis() ==> ({
            &&& (r.is_ok() <==> block.ghostdag_data is Some
                && block.header.parents_level0().contains(
                block.ghostdag_data->0.selected_parent,
            ))
            &&& (block.ghostdag_data is None ==> r->Err_0 is MissingGhostDagData)
            &&& (!r.is_ok() && block.ghostdag_data is Some ==> r->Err_0
                is InvalidSelectedParent)
        }),
{
    if block.is_genesis() {
        return Ok(());
    }
    let data = match &block.ghostdag_data {
        Some(data) => data,
        None => {
            return Err(ConsensusError::MissingGhostDagData);
        },
    };
    if block.header.parents_by_level.len() == 0 {
        proof {
            assert(block.header.parents_level0() =~= Seq::<crate::hashes::Hash>::empty());
            if block.header.parents_level0().contains(data.selected_parent) {
                let j = choose|j: int|
                    0 <= j < block.header.parents_level0().len()
                        && block.header.parents_level0()[j] == data.selected_parent;
            }
        }
        return Err(ConsensusError::InvalidSelectedParent);
    }
    let level0 = &block.header.parents_by_level[0];
    let mut i: usize = 0;
    while i < level0.len()
        invariant
            0 <= i <= level0@.len(),
            block.header.parents_by_level@.len() > 0,
            level0 == block.header.parents_by_level@[0],
            forall|j: int| 0 <= j < i ==> level0@[j] != data.selected_parent,
            data == block.ghostdag_data->0,
            block.ghostdag_data is Some,
        decreases level0@.len() - i,
    {
        if level0[i] == data.selected_parent {
            proof {
                assert(block.header.parents_level0()[i as int] == data.selected_parent);
            }
            return Ok(());
        }
        i += 1;
    }
    proof {
        if block.header.parents_level0().contains(data.selected_parent) {
            let j = choose|j: int|
                0 <= j < block.header.parents_level0().len() && block.header.parents_level0()[j]
                    == data.selected_parent;
            assert(false);
        }
    }
    Err(ConsensusError::InvalidSelectedParent)
}

/// Validates the mining rules for a block: the proof of work must hold
/// and the attached GHOSTDAG data must be sane.
pub fn validate_mining_rules(block: &Block) -> (r: ConsensusResult<()>)
    requires
        block.header.counts_fit(),
    ensures
        !pow_ok(*block) ==> !r.is_ok() && r->Err_0 is MiningRuleViolation,
        pow_ok(*block) && block.header.spec_is_genesis() ==> r.is_ok(),
        pow_ok(*block) && !block.header.spec_is_genesis() ==> (r.is_ok()
            <==> block.ghostdag_data is Some && block.header.parents_level0().contains(
            block.ghostdag_data->0.selected_parent,
        )),
        pow_ok(*block) && !block.header.spec_is_genesis() && block.ghostdag_data is None ==> r
            is Err && r->Err_0 is MissingGhostDagData,
        pow_ok(*block) && !block.header.spec_is_genesis() && block.ghostdag_data is Some
            && !block.header.parents_level0().contains(block.ghostdag_data->0.selected_parent)
            ==> r is Err && r->Err_0 is InvalidSelectedParent,
{
    if !check_proof_of_work(block) {
        return Err(
            ConsensusError::MiningRuleViolation {
                msg: "proof of work not satisfied".to_owned(),
            },
        );
    }
    validate_ghostdag_data(block)
}

} // verus!
