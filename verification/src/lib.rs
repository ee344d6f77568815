//! A peer-to-peer transaction node library: a binary codec for transaction
//! records, a deduplicating gossip overlay model, a replicated key/value
//! store model, local peer discovery with expiry, and the orchestrator that
//! wires them into one event-driven step function.

pub mod codec;
pub mod discovery;
pub mod gossip;
pub mod node;
pub mod store;
pub mod text;
