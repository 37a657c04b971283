//! Verified core of a market-data gateway: a stream-multiplexing engine that
//! fans per-instrument quote snapshots out from upstream feed adapters to many
//! WebSocket clients.
//!
//! The crate owns the logic of the engine — subscription bookkeeping, the
//! adapter state machine, dialect parsing and encoding — while the network
//! plumbing around it stays outside.

#![verifier::loop_isolation(false)]

pub mod adapter;
pub mod codec;
pub mod connector;
pub mod distributor;
pub mod ids;
pub mod json;
pub mod messages;
pub mod session;
pub mod smap;
pub mod snapshot;
pub mod sources;
pub mod strutil;
pub mod timeutil;
