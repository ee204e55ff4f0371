use vstd::prelude::*;

verus! {

/// A JSON-RPC response whose result is a list of fields.
pub struct ApiResponse<T> {
    pub jsonrpc: String,
    pub result: Vec<ResultField<T>>,
    pub id: u64,
}

/// A JSON-RPC response with a single result.
pub struct ApiResponseKeys<T> {
    pub jsonrpc: String,
    pub result: T,
    pub id: u64,
}

/// One field of a response: a record or a number.
pub enum ResultField<T> {
    NodeInfo(T),
    Number(u64),
}

/// A node's registration as the RPC reports it.
pub struct NodeInfo {
    pub owner: String,
    pub public_key: String,
    pub consensus_key: String,
    pub staked_since: u64,
    pub stake: StakeInfo,
    pub domain: String,
    pub worker_domain: String,
    pub ports: Ports,
    pub worker_public_key: String,
    pub participation: String,
    pub nonce: u64,
}

/// A node's stake as the RPC reports it (amounts as decimal strings).
pub struct StakeInfo {
    pub staked: String,
    pub stake_locked_until: u64,
    pub locked: String,
    pub locked_until: u64,
}

/// The ports a node serves on.
#[derive(Clone, Copy, PartialEq, Eq, Structural, Debug)]
pub struct Ports {
    pub primary: u16,
    pub worker: u16,
    pub mempool: u16,
    pub rpc: u16,
    pub pool: u16,
    pub pinger: u16,
    pub handshake: HandshakePorts,
}

/// The ports of the handshake server.
#[derive(Clone, Copy, PartialEq, Eq, Structural, Debug)]
pub struct HandshakePorts {
    pub http: u16,
    pub webrtc: u16,
    pub webtransport: u16,
}

} // verus!
