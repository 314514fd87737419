//! Structural script public key classification: pay-to-pubkey-hash,
//! pay-to-script-hash and pay-to-pubkey shapes.

use vstd::prelude::*;
use crate::errors::{ConsensusError, ConsensusResult};
use crate::hashing::sha256_of;

verus! {

/// The structural kinds of script public keys.
#[derive(Debug, Clone, PartialEq, Eq, Structural)]
pub enum ScriptPublicKeyType {
    /// Pay to public key hash.
    PayToPubkeyHash,
    /// Pay to script hash.
    PayToScriptHash,
    /// Pay to public key.
    PayToPubkey,
    /// Unknown script type.
    Unknown,
}

/// A script public key: the script bytes and a version.
#[derive(Debug, Clone, PartialEq, Eq)]
pub struct ScriptPublicKey {
    pub script: Vec<u8>,
    pub version: u16,
}

/// The pay-to-pubkey-hash shape: `OP_DUP OP_HASH160 <32-byte push> <hash>
/// OP_EQUALVERIFY OP_CHECKSIG`.
pub open spec fn is_p2pkh(script: Seq<u8>) -> bool {
    &&& script.len() == 37
    &&& script[0] == 0x76u8
    &&& script[1] == 0xa9u8
    &&& script[2] == 0x20u8
    &&& script[35] == 0x88u8
    &&& script[36] == 0xacu8
}

/// The pay-to-script-hash shape: `OP_HASH160 <20-byte push> <hash>
/// OP_EQUAL`.
pub open spec fn is_p2sh(script: Seq<u8>) -> bool {
    &&& script.len() == 23
    &&& script[0] == 0xa9u8
    &&& script[1] == 0x14u8
    &&& script[22] == 0x87u8
}

/// The pay-to-pubkey shape: a pushed key followed by `OP_CHECKSIG`.
pub open spec fn is_p2pk(script: Seq<u8>) -> bool {
    &&& (script.len() == 35 || script.len() == 67)
    &&& script[script.len() - 1] == 0xacu8
}

impl ScriptPublicKey {
    /// Creates a new script public key.
    pub fn new(script: Vec<u8>, version: u16) -> (r: ScriptPublicKey)
        ensures
            r.script == script,
            r.version == version,
    {
        ScriptPublicKey { script, version }
    }

    /// Builds the canonical pay-to-pubkey-hash script around a 32-byte hash.
    pub fn pay_to_pubkey_hash(pubkey_hash: &crate::hashes::Hash) -> (r: ScriptPublicKey)
        ensures
            r.script@ == seq![0x76u8, 0xa9u8, 0x20u8] + pubkey_hash.bytes() + seq![0x88u8, 0xacu8],
            r.version == 0,
            is_p2pkh(r.script@),
    {
        let mut script: Vec<u8> = Vec::new();
        script.push(0x76);
        script.push(0xa9);
        script.push(0x20);
        let mut hb = pubkey_hash.as_bytes();
        script.append(&mut hb);
        script.push(0x88);
        script.push(0xac);
        proof {
            assert(script@ =~= seq![0x76u8, 0xa9u8, 0x20u8] + pubkey_hash.bytes() + seq![
                0x88u8,
                0xacu8,
            ]);
        }
        ScriptPublicKey { script, version: 0 }
    }

    /// Classifies the script by its structural shape.
    pub fn script_type(&self) -> (r: ScriptPublicKeyType)
        ensures
            r == ScriptPublicKeyType::PayToPubkeyHash <==> is_p2pkh(self.script@),
            !is_p2pkh(self.script@) ==> (r == ScriptPublicKeyType::PayToScriptHash <==> is_p2sh(
                self.script@,
            )),
            !is_p2pkh(self.script@) && !is_p2sh(self.script@) ==> (r
                == ScriptPublicKeyType::PayToPubkey <==> is_p2pk(self.script@)),
            r == ScriptPublicKeyType::Unknown <==> (!is_p2pkh(self.script@) && !is_p2sh(
                self.script@,
            ) && !is_p2pk(self.script@)),
    {
        if self.is_pay_to_pubkey_hash() {
            ScriptPublicKeyType::PayToPubkeyHash
        } else if self.is_pay_to_script_hash() {
            ScriptPublicKeyType::PayToScriptHash
        } else if self.is_pay_to_pubkey() {
            ScriptPublicKeyType::PayToPubkey
        } else {
            ScriptPublicKeyType::Unknown
        }
    }

    /// True for the pay-to-pubkey-hash shape.
    pub fn is_pay_to_pubkey_hash(&self) -> (r: bool)
        ensures
            r == is_p2pkh(self.script@),
    {
        self.script.len() == 37 && self.script[0] == 0x76 && self.script[1] == 0xa9
            && self.script[2] == 0x20 && self.script[35] == 0x88 && self.script[36] == 0xac
    }

    /// True for the pay-to-script-hash shape.
    pub fn is_pay_to_script_hash(&self) -> (r: bool)
        ensures
            r == is_p2sh(self.script@),
    {
        self.script.len() == 23 && self.script[0] == 0xa9 && self.script[1] == 0x14
            && self.script[22] == 0x87
    }

    /// True for the pay-to-pubkey shape.
    pub fn is_pay_to_pubkey(&self) -> (r: bool)
        ensures
            r == is_p2pk(self.script@),
    {
        (self.script.len() == 35 || self.script.len() == 67) && self.script[self.script.len() - 1]
            == 0xac
    }

    /// The pubkey hash carried by a pay-to-pubkey-hash script.
    pub fn pubkey_hash(&self) -> (r: Option<crate::hashes::Hash>)
        ensures
            is_p2pkh(self.script@) ==> r is Some && r->0.bytes() == self.script@.subrange(3, 35),
            !is_p2pkh(self.script@) ==> r is None,
    {
        if self.is_pay_to_pubkey_hash() {
            let mut part: Vec<u8> = Vec::new();
            let mut i: usize = 3;
            while i < 35
                invariant
                    3 <= i <= 35,
                    self.script@.len() == 37,
                    part@ == self.script@.subrange(3, i as int),
                decreases 35 - i,
            {
                proof {
                    assert(self.script@.subrange(3, i + 1int) =~= self.script@.subrange(
                        3,
                        i as int,
                    ).push(self.script@[i as int]));
                }
                part.push(self.script[i]);
                i += 1;
            }
            let h = crate::hashes::Hash::from_slice(part.as_slice());
            proof {
                assert(h.bytes() =~= self.script@.subrange(3, 35));
            }
            Some(h)
        } else {
            None
        }
    }

    /// Rejects empty scripts; everything else is structurally acceptable.
    pub fn validate(&self) -> (r: ConsensusResult<()>)
        ensures
            r.is_ok() <==> self.script@.len() > 0,
            !r.is_ok() ==> r->Err_0 is ScriptValidation,
    {
        if self.script.len() == 0 {
            Err(
                ConsensusError::ScriptValidation {
                    msg: "script public key is empty".to_owned(),
                },
            )
        } else {
            Ok(())
        }
    }

    /// The SHA-256 hash of the script bytes.
    pub fn script_hash(&self) -> (r: crate::hashes::Hash)
        ensures
            r.bytes() == sha256_of(self.script@),
    {
        crate::hashing::hash_script(self.script.as_slice())
    }
}

} // verus!
