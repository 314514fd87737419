//! Block mass accounting.

use vstd::prelude::*;
use vstd::string::StringExecFns;
use crate::tx::Transaction;
use crate::errors::{ConsensusError, ConsensusResult};

verus! {

/// Contextual mass of a set of transactions.
#[derive(Debug, Clone, Copy, PartialEq, Eq, Structural)]
pub struct ContextualMasses(pub u64);

/// Non-contextual mass of a set of transactions.
#[derive(Debug, Clone, Copy, PartialEq, Eq, Structural)]
pub struct NonContextualMasses(pub u64);

/// The mass of a block.
pub type BlockMass = u64;

/// The summed mass of a transaction list.
pub open spec fn total_mass(txs: Seq<Transaction>) -> int
    decreases txs.len(),
{
    if txs.len() == 0 {
        0
    } else {
        total_mass(txs.drop_last()) + txs.last().spec_mass()
    }
}

/// Sums the mass of every transaction in the block.
pub fn calculate_block_mass(transactions: &Vec<Transaction>) -> (r: BlockMass)
    requires
        total_mass(transactions@) <= u64::MAX,
        forall|i: int|
            0 <= i < transactions@.len() ==> (#[trigger] transactions@[i]).spec_mass()
                <= u64::MAX,
    ensures
        r == total_mass(transactions@),
{
    proof {
        lemma_total_mass_bounds(transactions@);
    }
    let mut mass: u64 = 0;
    let mut i: usize = 0;
    while i < transactions.len()
        invariant
            0 <= i <= transactions@.len(),
            total_mass(transactions@) <= u64::MAX,
            forall|q: int|
                0 <= q < transactions@.len() ==> (#[trigger] transactions@[q]).spec_mass()
                    <= u64::MAX,
            mass == total_mass(transactions@.take(i as int)),
            forall|j: int|
                0 <= j <= transactions@.len() ==> total_mass(#[trigger] transactions@.take(j))
                    <= total_mass(transactions@),
        decreases transactions@.len() - i,
    {
        proof {
            assert(transactions@.take(i + 1int).drop_last() =~= transactions@.take(i as int));
            assert(transactions@.take(i + 1int).last() == transactions@[i as int]);
        }
        mass = mass + transactions[i].mass();
        i += 1;
    }
    proof {
        assert(transactions@.take(transactions@.len() as int) =~= transactions@);
    }
    mass
}

/// Every prefix sum is at most the total, and every summand is
/// nonnegative.
proof fn lemma_total_mass_bounds(txs: Seq<Transaction>)
    ensures
        forall|j: int| 0 <= j <= txs.len() ==> total_mass(#[trigger] txs.take(j)) <= total_mass(
            txs,
        ),
        total_mass(txs) >= 0,
    decreases txs.len(),
{
    if txs.len() == 0 {
        assert forall|j: int| 0 <= j <= txs.len() implies total_mass(#[trigger] txs.take(j))
            <= total_mass(txs) by {
            assert(txs.take(j) =~= txs);
        }
    } else {
        lemma_total_mass_bounds(txs.drop_last());
        assert forall|j: int| 0 <= j <= txs.len() implies total_mass(#[trigger] txs.take(j))
            <= total_mass(txs) by {
            if j == txs.len() {
                assert(txs.take(j) =~= txs);
            } else {
                assert(txs.take(j) =~= txs.drop_last().take(j));
            }
        }
    }
}

/// Accepts a mass exactly up to the block limit.
pub fn validate_block_mass(mass: BlockMass) -> (r: ConsensusResult<()>)
    ensures
        r.is_ok() <==> mass <= crate::constants::MAX_BLOCK_MASS,
        !r.is_ok() ==> r->Err_0 is MiningRuleViolation,
{
    if mass > crate::constants::MAX_BLOCK_MASS {
        return Err(
            ConsensusError::MiningRuleViolation {
                msg: "block mass exceeds the maximum".to_owned(),
            },
        );
    }
    Ok(())
}

} // verus!
