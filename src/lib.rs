//! Overlay multiplexing and request/response engine for a Kademlia-style
//! content network in which several subnetworks share one discovery
//! transport.
//!
//! - `distance`: the XOR metric over 256-bit identifiers.
//! - `content_key`: content keys, their wire and text forms, validators.
//! - `store`: the bounded content store, evicting the farthest content.
//! - `routing`: known peers, liveness failures, nearest-peer queries.
//! - `requests`: outstanding queries, each resolved exactly once.
//! - `messages` and `wire`: the overlay messages and their byte form.
//! - `session`: one subnetwork's decisions on requests, answers, deadlines.
//! - `lookup`: the iterative lookup towards a target.
//! - `registry`: dispatch of inbound messages by protocol tag.
//! - `node`: a simulated node, its default configuration and peer seeding.

pub mod distance;
pub mod content_key;
pub mod store;
pub mod messages;
pub mod requests;
pub mod routing;
pub mod session;
pub mod registry;
pub mod node;
pub mod wire;
pub mod lookup;
