//! Protocol nodes of a small leaderless cluster. Every node reads and writes
//! line-delimited JSON envelopes; the runtime around it feeds one handler with
//! inbound messages and timer ticks, one event at a time.
//!
//! - `message`: the envelope and the `Handler` interface, and the handshake.
//! - `json`, `codec`: the JSON tree of an envelope, and each payload's wire form.
//! - `gossip`, `gossip_rounds`: set-union gossip and its convergence.
//! - `counter`: counter replication.
//! - `echo`, `unique_id`: two request/response services.

pub mod codec;
pub mod counter;
pub mod echo;
pub mod gossip;
pub mod gossip_rounds;
pub mod json;
pub mod message;
pub mod unique_id;
