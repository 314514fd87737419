//! The signature capability boundary: the core checks only the shape of
//! signatures; the algorithm lives outside.

use vstd::prelude::*;
use crate::errors::{ConsensusError, ConsensusResult};

verus! {

/// Produces a stand-in signature of the fixed 64-byte shape; real
/// signing is the host's capability.
pub fn sign_data(data: &[u8], private_key: &[u8]) -> (r: Vec<u8>)
    ensures
        r@.len() == 64,
        forall|i: int| 0 <= i < 64 ==> r@[i] == 0u8,
{
    let _ = data;
    let _ = private_key;
    let mut r: Vec<u8> = Vec::new();
    let mut i: usize = 0;
    while i < 64
        invariant
            0 <= i <= 64,
            r@.len() == i,
            forall|j: int| 0 <= j < i ==> r@[j] == 0u8,
        decreases 64 - i,
    {
        r.push(0u8);
        i += 1;
    }
    r
}

/// Accepts exactly the signatures of the fixed 64-byte shape.
pub fn verify_signature(data: &[u8], signature: &[u8], public_key: &[u8]) -> (r: ConsensusResult<
    (),
>)
    ensures
        r.is_ok() <==> signature@.len() == 64,
        !r.is_ok() ==> r->Err_0 is InvalidSignature,
{
    let _ = data;
    let _ = public_key;
    if signature.len() != 64 {
        return Err(ConsensusError::InvalidSignature);
    }
    Ok(())
}

} // verus!
