//! An end-to-end encrypted chat relay.
//!
//! A broker keeps a directory of connected peers and relays opaque envelopes
//! between them. Peers agree on pairwise keys with X25519 and encrypt message
//! bodies with AES-256, block by block. This crate holds the rules of both
//! sides as functions on plain values: the wire format, the directory, the
//! broker's reaction to each event, and the peer's session state.

pub mod broker;
pub mod chat;
pub mod cipher;
pub mod codec;
pub mod events;
pub mod keys;
pub mod network;
pub mod peer;
pub mod protocol;
pub mod session;
pub mod text;
pub mod ui;
