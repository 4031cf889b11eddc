//! The messages of the handshake, and the network parameters that the
//! envelope depends on.
use crate::codec::RawMessage;
use vstd::prelude::*;

verus! {

/// The networks a node can join.
#[derive(Debug, Clone, Copy, PartialEq, Eq, Structural)]
pub enum Network {
    Bitcoin,
    Testnet,
    Testnet4,
    Signet,
    Regtest,
}

/// The four magic bytes of a network, read as a little-endian integer.
pub open spec fn network_magic(n: Network) -> u32 {
    match n {
        Network::Bitcoin => 0xD9B4BEF9u32,
        Network::Testnet => 0x0709110Bu32,
        Network::Testnet4 => 0x283F161Cu32,
        Network::Signet => 0x40CF030Au32,
        Network::Regtest => 0xDAB5BFFAu32,
    }
}

/// Relies on bitcoin's `Network::magic` and `Magic::to_bytes`: the magic
/// bytes of each network, as its source lists them.
#[verifier::external_body]
pub(crate) fn magic_of(network: Network) -> (r: u32)
    ensures
        r == network_magic(network),
{
    let n = match network {
        Network::Bitcoin => bitcoin::Network::Bitcoin,
        Network::Testnet => bitcoin::Network::Testnet,
        Network::Testnet4 => bitcoin::Network::Testnet4,
        Network::Signet => bitcoin::Network::Signet,
        Network::Regtest => bitcoin::Network::Regtest,
    };
    u32::from_le_bytes(n.magic().to_bytes())
}

/// The address record of a node: an IPv6 (or IPv4 mapped) address in
/// network byte order and a port.
#[derive(Debug, Clone, Copy)]
pub struct NetAddress {
    pub address: [u16; 8],
    pub port: u16,
}

/// The fields of a `version` message that the handshake reads or sends.
#[derive(Debug, Clone)]
pub struct VersionInfo {
    pub version: u32,
    pub services: u64,
    pub timestamp: i64,
    pub nonce: u64,
    pub user_agent: String,
    pub start_height: i32,
    pub relay: bool,
}

/// Service bit of a node that serves the full block chain.
pub const NODE_NETWORK: u64 = 1;

/// Service bits that a peer must offer: full chain and segregated witness.
pub const REQUIRED_SERVICES: u64 = 9;

/// Oldest protocol version of a peer that is accepted.
pub const MIN_PEER_VERSION: u32 = 70013;

/// Protocol version announced by this node.
pub const OWN_VERSION: u32 = 70001;

/// The decoded payload of a `version` message, if it is one.
pub uninterp spec fn decoded_version(payload: Seq<u8>) -> Option<VersionInfo>;

/// Relies on bitcoin's `consensus::deserialize::<VersionMessage>`: the
/// message encoded by the whole of `payload`, or nothing.
#[verifier::external_body]
pub(crate) fn parse_version(payload: &[u8]) -> (r: Option<VersionInfo>)
    ensures
        r == decoded_version(payload@),
{
    match bitcoin::consensus::deserialize::<bitcoin::p2p::message_network::VersionMessage>(payload) {
        Ok(v) => Some(VersionInfo {
            version: v.version,
            services: v.services.to_u64(),
            timestamp: v.timestamp,
            nonce: v.nonce,
            user_agent: v.user_agent,
            start_height: v.start_height,
            relay: v.relay,
        }),
        Err(_) => None,
    }
}

/// The fields of a version record as plain values: version, services,
/// timestamp, nonce, user agent, start height, relay.
pub open spec fn version_fields(v: VersionInfo) -> (u32, u64, i64, u64, Seq<char>, i32, bool) {
    (v.version, v.services, v.timestamp, v.nonce, v.user_agent@, v.start_height, v.relay)
}

/// The payload of a `version` message with the given fields, whose receiver
/// and sender records are both the address `address`, `port` with service
/// bits `addr_services`.
pub uninterp spec fn encoded_version(
    v: (u32, u64, i64, u64, Seq<char>, i32, bool),
    address: Seq<u16>,
    port: u16,
    addr_services: u64,
) -> Seq<u8>;

/// Relies on bitcoin's `consensus::serialize` of a `VersionMessage`.
#[verifier::external_body]
pub(crate) fn serialize_version(v: &VersionInfo, addr: &NetAddress, addr_services: u64) -> (r: Vec<u8>)
    ensures
        r@ == encoded_version(version_fields(*v), addr.address@, addr.port, addr_services),
{
    let a = bitcoin::p2p::Address { services: addr_services.into(), address: addr.address, port: addr.port };
    bitcoin::consensus::serialize(&bitcoin::p2p::message_network::VersionMessage {
        version: v.version,
        services: v.services.into(),
        timestamp: v.timestamp,
        receiver: a.clone(),
        sender: a,
        nonce: v.nonce,
        user_agent: v.user_agent.clone(),
        start_height: v.start_height,
        relay: v.relay,
    })
}

/// The command name `version`.
pub open spec fn version_command() -> Seq<u8> {
    seq![118u8, 101u8, 114u8, 115u8, 105u8, 111u8, 110u8]
}

/// The command name `verack`.
pub open spec fn verack_command() -> Seq<u8> {
    seq![118u8, 101u8, 114u8, 97u8, 99u8, 107u8]
}

fn bytes_of(b: &[u8]) -> (r: Vec<u8>)
    ensures
        r@ == b@,
{
    let mut v: Vec<u8> = Vec::new();
    v.extend_from_slice(b);
    v
}

/// A `verack` message.
pub fn verack() -> (r: RawMessage)
    ensures
        r@ == (verack_command(), Seq::<u8>::empty()),
{
    let command = bytes_of(&[118u8, 101u8, 114u8, 97u8, 99u8, 107u8]);
    proof {
        assert(command@ =~= verack_command());
    }
    RawMessage { command, payload: Vec::new() }
}

/// A `version` message with the given fields, addressed to `remote`.
pub fn version_message(v: &VersionInfo, remote: &NetAddress) -> (r: RawMessage)
    ensures
        r@ == (version_command(), encoded_version(version_fields(*v), remote.address@, remote.port, NODE_NETWORK)),
{
    let command = bytes_of(&[118u8, 101u8, 114u8, 115u8, 105u8, 111u8, 110u8]);
    proof {
        assert(command@ =~= version_command());
    }
    RawMessage { command, payload: serialize_version(v, remote, NODE_NETWORK) }
}

/// Whether two byte strings are equal.
pub fn same_bytes(a: &Vec<u8>, b: &[u8]) -> (r: bool)
    ensures
        r == (a@ == b@),
{
    if a.len() != b.len() {
        return false;
    }
    let mut i: usize = 0;
    while i < a.len()
        invariant
            a@.len() == b@.len(),
            i <= a@.len(),
            forall|j: int| 0 <= j < i ==> a@[j] == b@[j],
        decreases a@.len() - i,
    {
        if a[i] != b[i] {
            return false;
        }
        i = i + 1;
    }
    proof {
        assert(a@ =~= b@);
    }
    true
}

} // verus!
