//! The rules of a local-first document store.
//!
//! - Replication between peers: clocks ([`hlc`]), records on the wire ([`wire`]),
//!   the log of every origin ([`replog`]), last-writer-wins state ([`lww`],
//!   [`sync_state`]), members ([`membership`]), the document store ([`store`]) and
//!   one session of the sync protocol ([`session`]). That replicas with the same
//!   frames show the same records is proved in [`convergence`].
//! - Connections between peers: addresses ([`stun`]), certificates ([`quic`]), the
//!   exchange of offers ([`signaling`], [`peer`]), discovery ([`discovery`]) and
//!   files ([`transfer`]).
//! - Stores behind a broker: the scope of a store and its events
//!   ([`memory_store`]), requests and deliveries ([`sync_engine`]), and the labels
//!   that a script sees ([`bindings`]).
//! - Runs against all of it: a local broker ([`harness`]), a cluster of peers
//!   ([`cluster`]) under random change ([`chaos`]), and a narrated demo ([`demo`]).
pub mod addr;
pub mod assoc;
pub mod bindings;
pub mod bytes;
pub mod chaos;
pub mod cluster;
pub mod config;
pub mod convergence;
pub mod demo;
pub mod discovery;
pub mod harness;
pub mod hashing;
pub mod hlc;
pub mod json;
pub mod lww;
pub mod membership;
pub mod memory_store;
pub mod peer;
pub mod persistence;
pub mod quic;
pub mod replog;
pub mod session;
pub mod signaling;
pub mod store;
pub mod stun;
pub mod sync_engine;
pub mod sync_state;
pub mod text;
pub mod transfer;
pub mod types;
pub mod wire;
