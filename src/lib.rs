//! Core of a boundary gateway: it keeps a consistent, versioned view of which
//! nodes of each subnet are registered and healthy, picks nodes for requests
//! with retries across failures, checks each node's pinned identity, and
//! applies rate limiting and response caching at the edge.
//!
//! Everything that talks to the network, the clock or the disk stays outside
//! this crate: callers hand in plain values (probe outcomes, registry
//! records, the identity a node presented, the current time) and get
//! decisions back.

pub mod cache;
pub mod dispatch;
pub mod health;
pub mod identity;
pub mod node;
pub mod persist;
pub mod ratelimit;
pub mod routing;
pub mod snapshot;
pub mod testing;
