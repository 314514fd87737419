//! Subnets: membership lists for network partitioning.

use vstd::prelude::*;

verus! {

/// A subnet identifier.
pub type SubnetId = u32;

/// A subnet and its members.
#[derive(Debug, Clone)]
pub struct Subnet {
    pub id: SubnetId,
    pub members: Vec<crate::hashes::Hash>,
}

impl Subnet {
    /// Creates an empty subnet.
    pub fn new(id: SubnetId) -> (r: Subnet)
        ensures
            r.id == id,
            r.members@.len() == 0,
    {
        Subnet { id, members: Vec::new() }
    }

    /// Adds a member.
    pub fn add_member(&mut self, member: crate::hashes::Hash)
        ensures
            final(self).members@ == old(self).members@.push(member),
            final(self).id == old(self).id,
    {
        self.members.push(member);
    }

    /// True when the hash is a member.
    pub fn has_member(&self, member: &crate::hashes::Hash) -> (r: bool)
        ensures
            r == self.members@.contains(*member),
    {
        let mut i: usize = 0;
        while i < self.members.len()
            invariant
                0 <= i <= self.members@.len(),
                forall|j: int| 0 <= j < i ==> self.members@[j] != *member,
            decreases self.members@.len() - i,
        {
            if self.members[i] == *member {
                proof {
                    assert(self.members@[i as int] == *member);
                }
                return true;
            }
            i += 1;
        }
        proof {
            if self.members@.contains(*member) {
                let j = choose|j: int|
                    0 <= j < self.members@.len() && self.members@[j] == *member;
                assert(false);
            }
        }
        false
    }
}

} // verus!
