//! Core of a BitTorrent tracker: swarm bookkeeping, announce and scrape
//! services, time-bounded authentication keys, an info-hash whitelist,
//! a stateless UDP connection-id scheme, and the wire codecs.
//!
//! Transport listeners, persistence and clock live outside; they hand the
//! library plain values (the current time in whole seconds, resolved
//! addresses, raw packet bytes) and take plain values back.

pub mod assoc;
pub mod peer;
pub mod swarm;
pub mod store;
pub mod errors;
pub mod keys;
pub mod whitelist;
pub mod auth;
pub mod connection;
pub mod stats;
pub mod resolver;
pub mod announce;
pub mod tracker;
pub mod udp;
pub mod http;
