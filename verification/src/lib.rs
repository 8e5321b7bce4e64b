//! Bridge between a relay-based publish/subscribe network and a local
//! application: it keeps a signing identity, publishes short text notes,
//! ingests matching inbound events into a durable local store exactly once,
//! and answers list queries over what was stored.
//!
//! The network transport and the request/response framework live outside this
//! crate; this library holds the decisions: how an identity is established
//! from a credential file, which notifications are committed, how a list
//! request's limit is capped, and how stored events are projected for
//! callers.

pub mod errors;
pub mod identity;
pub mod store;
pub mod ingest;
pub mod service;
