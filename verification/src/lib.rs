//! The decisions of a node of the Mainline DHT: which messages a socket sends and lets through,
//! which queries run and what is kept of them, and which signed peers are stored and handed out.
//!
//! Nothing here reads a clock or touches the network: times and what arrived are arguments, and
//! what is to be sent is a result.

pub mod address;
pub mod chance;
pub mod core_laws;
pub mod dht_core;
pub mod id;
pub mod id_map;
pub mod inflight;
pub mod messages;
pub mod query;
pub mod recency;
pub mod routing;
pub mod sequences;
pub mod signed_peers;
pub mod socket;
