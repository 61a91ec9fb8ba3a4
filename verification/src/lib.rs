//! Core of a LAN file-sharing application: the transfer protocol and its
//! state machines.
//!
//! Two peers on the same local network discover each other, establish a
//! secure datagram transport, negotiate a file offer, and stream the file in
//! integrity-checked chunks with cooperative pause / resume / cancel
//! semantics and a final acknowledged completion.
//!
//! This crate holds the verified logic: the wire codec, the adaptive
//! chunking rule, the sender and receiver state machines, the transfer
//! registry, and the supporting device-trust, discovery and sync helpers.
//! All I/O (QUIC transport, file system, timers, mDNS) lives in the
//! surrounding application, which drives the state machines here with the
//! events it observes.

pub mod chunking;
pub mod codec;
pub mod discovery;
pub mod errors;
pub mod hashing;
pub mod laws;
pub mod pairing;
pub mod protocol;
pub mod receiver;
pub mod registry;
pub mod security;
pub mod sender;
pub mod sync;
pub mod text;
