//! A node for a simulated distributed-systems harness: an anti-entropy
//! gossip broadcast core, together with the envelope types it exchanges
//! and two small stateless node behaviours (echo, unique-id generation).
//!
//! The heart of the crate is [`broadcast::BroadcastNode`]: it keeps a
//! growing set of broadcast values, a per-neighbor lower bound on what
//! each neighbor already knows, and on every timer tick offers each
//! neighbor everything it is not yet known to have.

pub mod msg_set;
pub mod protocol;
pub mod broadcast;
pub mod model;
pub mod network;
pub mod echo;
pub mod unique_ids;
