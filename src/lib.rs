//! Consensus-to-application pipeline of a node.
//!
//! - `store`: the replay buffer of parcels and attestations, and the walk that
//!   connects a parcel to the executed head through attested parcels.
//! - `edge`, `ordering`, `timeout`: the decisions of the gossip pipeline, the
//!   parcel built from an ordered sub-dag, and the timeout for missing parcels.
//! - `codec`, `digest`: the wire encoding of messages and transactions, and the
//!   parcel digest.
//! - `state`, `executor`, `rewards`, `genesis`, `query`: the state-transition
//!   rules, their execution, the epoch's emissions and rewards, the initial
//!   state, and reads of the state.
//! - `signer`: the nonces a node signs its own transactions with.
//! - `ebpf`, `cli`, `node_info`: data shared with the packet filter, the command
//!   line and the dashboard.

pub mod digest;
pub mod timeout;
pub mod parcel;
pub mod keyed;
pub mod store;
pub mod state;
pub mod edge;
pub mod codec;
pub mod ebpf;
pub mod cli;
pub mod node_info;
pub mod executor;
pub mod rewards;
pub mod genesis;
pub mod ordering;
pub mod signer;
pub mod query;
