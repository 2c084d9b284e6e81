//! Core of a structured peer-to-peer overlay network runtime.
//!
//! The crate verifies the deterministic heart of a single-node network
//! plane: the on-wire message codec, the connection bus that routes
//! events between per-service behaviors and per-connection handlers,
//! the plane's lifecycle decisions, and a replicated key-value store
//! with retry/ack/anti-entropy semantics.  Transports, timers and task
//! plumbing stay outside; they hand these modules plain values and
//! carry out the actions they decide.

pub mod bus;
pub mod find_key;
pub mod identity;
pub mod kv_sdk;
pub mod msg;
pub mod node_alias;
pub mod plane;
pub mod pubsub;
pub mod router;
pub mod storage;
pub mod transport;
