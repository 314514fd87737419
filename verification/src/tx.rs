//! The transaction model: inputs, outputs, canonical hashing, structural
//! validation, the coinbase predicate and the mass formula.

use vstd::prelude::*;
use crate::hashing::{u16_le, u32_le, u64_le, sha256_of, push_u16_le, push_u32_le, push_u64_le};
use crate::errors::{ConsensusError, ConsensusResult};

pub mod script_public_key;

verus! {

/// Transaction input: the outpoint it spends, its script and sequence.
#[derive(Debug, Clone, PartialEq, Eq)]
pub struct TxInput {
    pub prev_tx_hash: crate::hashes::Hash,
    pub index: u32,
    pub script_sig: Vec<u8>,
    pub sequence: u32,
}

/// Transaction output: a value and the script that locks it.
#[derive(Debug, Clone, PartialEq, Eq)]
pub struct TxOutput {
    pub value: u64,
    pub script_pubkey: Vec<u8>,
}

/// A transaction.
#[derive(Debug, Clone, PartialEq, Eq)]
pub struct Transaction {
    pub version: u16,
    pub inputs: Vec<TxInput>,
    pub outputs: Vec<TxOutput>,
    pub lock_time: u32,
}

/// The canonical serialization of one input.
pub open spec fn input_bytes(input: TxInput) -> Seq<u8> {
    input.prev_tx_hash.bytes() + u32_le(input.index) + input.script_sig@ + u32_le(input.sequence)
}

/// The canonical serialization of a list of inputs.
pub open spec fn inputs_bytes(inputs: Seq<TxInput>) -> Seq<u8>
    decreases inputs.len(),
{
    if inputs.len() == 0 {
        Seq::empty()
    } else {
        inputs_bytes(inputs.drop_last()) + input_bytes(inputs.last())
    }
}

/// The canonical serialization of one output.
pub open spec fn output_bytes(output: TxOutput) -> Seq<u8> {
    u64_le(output.value) + output.script_pubkey@
}

/// The canonical serialization of a list of outputs.
pub open spec fn outputs_bytes(outputs: Seq<TxOutput>) -> Seq<u8>
    decreases outputs.len(),
{
    if outputs.len() == 0 {
        Seq::empty()
    } else {
        outputs_bytes(outputs.drop_last()) + output_bytes(outputs.last())
    }
}

/// The canonical serialization of a transaction: version, inputs, outputs
/// and lock time, concatenated in that fixed order.
pub open spec fn tx_bytes(tx: Transaction) -> Seq<u8> {
    u16_le(tx.version) + inputs_bytes(tx.inputs@) + outputs_bytes(tx.outputs@) + u32_le(
        tx.lock_time,
    )
}

/// No two inputs spend the same `(prev_tx_hash, index)` outpoint.
pub open spec fn inputs_distinct(inputs: Seq<TxInput>) -> bool {
    forall|i: int, j: int|
        0 <= i < j < inputs.len() ==> !(inputs[i].prev_tx_hash == inputs[j].prev_tx_hash
            && inputs[i].index == inputs[j].index)
}

impl Transaction {
    /// A transaction is structurally valid when it has at least one input,
    /// at least one output, and no duplicate input outpoints.
    pub open spec fn structurally_valid(&self) -> bool {
        &&& self.inputs@.len() > 0
        &&& self.outputs@.len() > 0
        &&& inputs_distinct(self.inputs@)
    }

    /// Creates a new transaction.
    pub fn new(version: u16, inputs: Vec<TxInput>, outputs: Vec<TxOutput>, lock_time: u32) -> (r:
        Transaction)
        ensures
            r.version == version,
            r.inputs == inputs,
            r.outputs == outputs,
            r.lock_time == lock_time,
    {
        Transaction { version, inputs, outputs, lock_time }
    }

    /// The content-defining transaction hash: SHA-256 over the canonical
    /// serialization, so structurally equal transactions hash equally.
    pub fn hash(&self) -> (r: crate::hashes::Hash)
        ensures
            r.bytes() == sha256_of(tx_bytes(*self)),
    {
        let mut data: Vec<u8> = Vec::new();
        push_u16_le(&mut data, self.version);
        let mut i: usize = 0;
        while i < self.inputs.len()
            invariant
                0 <= i <= self.inputs@.len(),
                data@ == u16_le(self.version) + inputs_bytes(self.inputs@.take(i as int)),
            decreases self.inputs@.len() - i,
        {
            let input = &self.inputs[i];
            let mut hb = input.prev_tx_hash.as_bytes();
            data.append(&mut hb);
            push_u32_le(&mut data, input.index);
            let mut j: usize = 0;
            let ghost base = data@;
            while j < input.script_sig.len()
                invariant
                    0 <= j <= input.script_sig@.len(),
                    input == self.inputs@[i as int],
                    data@ == base + input.script_sig@.take(j as int),
                decreases input.script_sig@.len() - j,
            {
                let b = input.script_sig[j];
                proof {
                    assert(input.script_sig@.take(j + 1int) =~= input.script_sig@.take(
                        j as int,
                    ).push(b));
                }
                data.push(b);
                j += 1;
            }
            proof {
                assert(input.script_sig@.take(input.script_sig@.len() as int)
                    =~= input.script_sig@);
            }
            push_u32_le(&mut data, input.sequence);
            proof {
                assert(self.inputs@.take(i + 1int).drop_last() =~= self.inputs@.take(i as int));
                assert(self.inputs@.take(i + 1int).last() == self.inputs@[i as int]);
                assert(data@ =~= u16_le(self.version) + inputs_bytes(self.inputs@.take(i + 1int)));
            }
            i += 1;
        }
        proof {
            assert(self.inputs@.take(self.inputs@.len() as int) =~= self.inputs@);
        }
        let ghost mid = data@;
        let mut o: usize = 0;
        while o < self.outputs.len()
            invariant
                0 <= o <= self.outputs@.len(),
                data@ == mid + outputs_bytes(self.outputs@.take(o as int)),
            decreases self.outputs@.len() - o,
        {
            let output = &self.outputs[o];
            push_u64_le(&mut data, output.value);
            let mut j: usize = 0;
            let ghost base = data@;
            while j < output.script_pubkey.len()
                invariant
                    0 <= j <= output.script_pubkey@.len(),
                    output == self.outputs@[o as int],
                    data@ == base + output.script_pubkey@.take(j as int),
                decreases output.script_pubkey@.len() - j,
            {
                let b = output.script_pubkey[j];
                proof {
                    assert(output.script_pubkey@.take(j + 1int) =~= output.script_pubkey@.take(
                        j as int,
                    ).push(b));
                }
                data.push(b);
                j += 1;
            }
            proof {
                assert(output.script_pubkey@.take(output.script_pubkey@.len() as int)
                    =~= output.script_pubkey@);
                assert(self.outputs@.take(o + 1int).drop_last() =~= self.outputs@.take(o as int));
                assert(self.outputs@.take(o + 1int).last() == self.outputs@[o as int]);
                assert(data@ =~= mid + outputs_bytes(self.outputs@.take(o + 1int)));
            }
            o += 1;
        }
        proof {
            assert(self.outputs@.take(self.outputs@.len() as int) =~= self.outputs@);
        }
        push_u32_le(&mut data, self.lock_time);
        proof {
            assert(data@ =~= tx_bytes(*self));
        }
        crate::hashing::hash_transaction(data.as_slice())
    }

    /// Structural validation: at least one input, at least one output, and
    /// no duplicate input outpoints; every violation is a transaction
    /// validation error.
    pub fn validate(&self) -> (r: ConsensusResult<()>)
        ensures
            r.is_ok() <==> self.structurally_valid(),
            !r.is_ok() ==> r->Err_0 is TransactionValidation,
    {
        if self.inputs.len() == 0 {
            return Err(
                ConsensusError::TransactionValidation {
                    msg: "transaction must have at least one input".to_owned(),
                },
            );
        }
        if self.outputs.len() == 0 {
            return Err(
                ConsensusError::TransactionValidation {
                    msg: "transaction must have at least one output".to_owned(),
                },
            );
        }
        let mut i: usize = 0;
        while i < self.inputs.len()
            invariant
                0 <= i <= self.inputs@.len(),
                forall|a: int, b: int|
                    0 <= a < b < self.inputs@.len() && a < i ==> !(
                    self.inputs@[a].prev_tx_hash == self.inputs@[b].prev_tx_hash
                        && self.inputs@[a].index == self.inputs@[b].index),
            decreases self.inputs@.len() - i,
        {
            let mut j: usize = i + 1;
            while j < self.inputs.len()
                invariant
                    0 <= i < j <= self.inputs@.len(),
                    forall|b: int|
                        i < b < j ==> !(self.inputs@[i as int].prev_tx_hash
                            == self.inputs@[b].prev_tx_hash && self.inputs@[i as int].index
                            == self.inputs@[b].index),
                decreases self.inputs@.len() - j,
            {
                if self.inputs[i].prev_tx_hash == self.inputs[j].prev_tx_hash && self.inputs[i].index
                    == self.inputs[j].index {
                    return Err(
                        ConsensusError::TransactionValidation {
                            msg: "duplicate transaction inputs".to_owned(),
                        },
                    );
                }
                j += 1;
            }
            i += 1;
        }
        Ok(())
    }

    /// The coinbase predicate: exactly one input whose previous transaction
    /// hash is all-zero.
    pub fn is_coinbase(&self) -> (r: bool)
        ensures
            r == (self.inputs@.len() == 1 && self.inputs@[0].prev_tx_hash
                == crate::hashes::Hash::zero()),
    {
        self.inputs.len() == 1 && self.inputs[0].prev_tx_hash.is_zero()
    }

    /// The mass formula of one transaction.
    pub open spec fn spec_mass(&self) -> int {
        100 + self.inputs@.len() * 50 + self.outputs@.len() * 30int
    }

    /// The mass of the transaction: a base charge plus a charge per input
    /// and per output, monotone in both counts.
    pub fn mass(&self) -> (r: u64)
        requires
            self.spec_mass() <= u64::MAX,
        ensures
            r == self.spec_mass(),
    {
        let base_mass: u64 = 100;
        let input_mass: u64 = (self.inputs.len() as u64) * 50;
        let output_mass: u64 = (self.outputs.len() as u64) * 30;
        base_mass + input_mass + output_mass
    }
}

/// A transaction still being assembled.
#[derive(Debug, Clone)]
pub struct MutableTransaction {
    pub version: u16,
    pub inputs: Vec<TxInput>,
    pub outputs: Vec<TxOutput>,
    pub lock_time: u32,
}

impl Default for MutableTransaction {
    /// The default mutable transaction is empty.
    fn default() -> (r: MutableTransaction)
        ensures
            r.version == 0,
            r.inputs@.len() == 0,
            r.outputs@.len() == 0,
            r.lock_time == 0,
    {
        MutableTransaction { version: 0, inputs: Vec::new(), outputs: Vec::new(), lock_time: 0 }
    }
}

/// A transaction prepared for signing.
#[derive(Debug, Clone)]
pub struct SignableTransaction {
    pub version: u16,
    pub inputs: Vec<TxInput>,
    pub outputs: Vec<TxOutput>,
    pub lock_time: u32,
}

impl Default for SignableTransaction {
    /// The default signable transaction is empty.
    fn default() -> (r: SignableTransaction)
        ensures
            r.version == 0,
            r.inputs@.len() == 0,
            r.outputs@.len() == 0,
            r.lock_time == 0,
    {
        SignableTransaction { version: 0, inputs: Vec::new(), outputs: Vec::new(), lock_time: 0 }
    }
}

/// A reference to one output of a transaction.
#[derive(Debug, Clone, Copy, PartialEq, Eq, Structural)]
pub struct TransactionOutpoint {
    pub transaction_id: crate::hashes::Hash,
    pub index: u32,
}

/// An unspent output together with its acceptance context.
#[derive(Debug, Clone)]
pub struct UtxoEntry {
    pub amount: u64,
    pub script_pubkey: Vec<u8>,
    pub block_daa_score: u64,
    pub is_coinbase: bool,
}

impl Default for UtxoEntry {
    /// The default entry carries no value.
    fn default() -> (r: UtxoEntry)
        ensures
            r.amount == 0,
            r.script_pubkey@.len() == 0,
            r.block_daa_score == 0,
            r.is_coinbase == false,
    {
        UtxoEntry { amount: 0, script_pubkey: Vec::new(), block_daa_score: 0, is_coinbase: false }
    }
}


/// The plain value of an output: its amount and script bytes.
pub open spec fn out_v(o: TxOutput) -> (u64, Seq<u8>) {
    (o.value, o.script_pubkey@)
}

/// An owned copy of an output.
pub fn clone_output(o: &TxOutput) -> (r: TxOutput)
    ensures
        out_v(r) == out_v(*o),
        r.value == o.value,
        r.script_pubkey@ == o.script_pubkey@,
{
    let mut script: Vec<u8> = Vec::new();
    let mut i: usize = 0;
    while i < o.script_pubkey.len()
        invariant
            0 <= i <= o.script_pubkey@.len(),
            script@ =~= o.script_pubkey@.take(i as int),
        decreases o.script_pubkey@.len() - i,
    {
        proof {
            assert(o.script_pubkey@.take(i + 1int) =~= o.script_pubkey@.take(i as int).push(
                o.script_pubkey@[i as int],
            ));
        }
        script.push(o.script_pubkey[i]);
        i += 1;
    }
    proof {
        assert(o.script_pubkey@.take(o.script_pubkey@.len() as int) =~= o.script_pubkey@);
    }
    TxOutput { value: o.value, script_pubkey: script }
}

} // verus!
