//! Network identities and messages.

use vstd::prelude::*;
use vstd::string::StringExecFns;

verus! {

/// The network a node runs on.
#[derive(Debug, Clone, Copy, PartialEq, Eq, Structural)]
pub enum NetworkId {
    Mainnet,
    Testnet,
    Devnet,
    Simnet,
}

impl NetworkId {
    /// The wire magic bytes of the network.
    pub fn magic(&self) -> (r: [u8; 4])
        ensures
            *self is Mainnet ==> r@ == seq![0xABu8, 0xCDu8, 0xEFu8, 0x12u8],
            *self is Testnet ==> r@ == seq![0xBAu8, 0xDCu8, 0xFEu8, 0x21u8],
            *self is Devnet ==> r@ == seq![0xCAu8, 0xEDu8, 0xFAu8, 0x31u8],
            *self is Simnet ==> r@ == seq![0xDAu8, 0xECu8, 0xFBu8, 0x41u8],
    {
        let r = match self {
            NetworkId::Mainnet => [0xAB, 0xCD, 0xEF, 0x12],
            NetworkId::Testnet => [0xBA, 0xDC, 0xFE, 0x21],
            NetworkId::Devnet => [0xCA, 0xED, 0xFA, 0x31],
            NetworkId::Simnet => [0xDA, 0xEC, 0xFB, 0x41],
        };
        proof {
            if *self is Mainnet {
                assert(r@ =~= seq![0xABu8, 0xCDu8, 0xEFu8, 0x12u8]);
            }
            if *self is Testnet {
                assert(r@ =~= seq![0xBAu8, 0xDCu8, 0xFEu8, 0x21u8]);
            }
            if *self is Devnet {
                assert(r@ =~= seq![0xCAu8, 0xEDu8, 0xFAu8, 0x31u8]);
            }
            if *self is Simnet {
                assert(r@ =~= seq![0xDAu8, 0xECu8, 0xFBu8, 0x41u8]);
            }
        }
        r
    }
}

/// The default network.
pub const DEFAULT_NETWORK: NetworkId = NetworkId::Mainnet;

/// A contextual network address, kept as its textual form.
#[derive(Debug, Clone)]
pub struct ContextualNetAddress {
    pub address: String,
}

impl ContextualNetAddress {
    /// The unspecified address.
    pub fn unspecified() -> (r: ContextualNetAddress)
        ensures
            r.address@ == "0.0.0.0"@,
    {
        ContextualNetAddress { address: String::from_str("0.0.0.0") }
    }

    /// Keeps the textual form as given.
    pub fn from_text(s: &str) -> (r: ContextualNetAddress)
        ensures
            r.address@ == s@,
    {
        ContextualNetAddress { address: String::from_str(s) }
    }
}

impl Default for ContextualNetAddress {
    /// The default address is empty text.
    fn default() -> (r: ContextualNetAddress)
        ensures
            r.address@ == Seq::<char>::empty(),
    {
        let r = ContextualNetAddress { address: String::new() };
        proof {
            assert(r.address@ =~= Seq::<char>::empty());
        }
        r
    }
}

/// A network address, kept as its textual form.
#[derive(Debug, Clone)]
pub struct NetAddress {
    pub address: String,
}

impl NetAddress {
    /// Keeps the textual form as given.
    pub fn from_text(s: &str) -> (r: NetAddress)
        ensures
            r.address@ == s@,
    {
        NetAddress { address: String::from_str(s) }
    }
}

impl Default for NetAddress {
    /// The default address is empty text.
    fn default() -> (r: NetAddress)
        ensures
            r.address@ == Seq::<char>::empty(),
    {
        let r = NetAddress { address: String::new() };
        proof {
            assert(r.address@ =~= Seq::<char>::empty());
        }
        r
    }
}

/// The messages peers exchange.
#[derive(Debug, Clone)]
pub enum NetworkMessage {
    Ping,
    Pong,
    GetBlocks { hashes: Vec<crate::hashes::Hash> },
    Blocks { blocks: Vec<crate::hashes::Hash> },
    Inv { hashes: Vec<crate::hashes::Hash> },
    GetData { hashes: Vec<crate::hashes::Hash> },
    Tx { transaction: crate::hashes::Hash },
}

} // verus!
