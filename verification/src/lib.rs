//! Decision core of a KV-cache-aware request router.
//!
//! The crate holds the rules by which a router picks a worker for a
//! request, keeps its per-worker ledger of in-flight work, reads the
//! membership keys it watches, and interprets the frames of a response
//! stream. Everything here is a function of plain values with a proved
//! contract; tasks, channels and sockets live with the caller.

pub mod keys;
pub mod protocols;
pub mod sampling;
pub mod scheduler;
pub mod selector;
pub mod sequences;
pub mod subscriber;
pub mod transport;
