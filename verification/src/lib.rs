//! Verified core of a peer-to-peer direct messaging client.
//!
//! The crate models the signaling and connection machinery that brokers a
//! WebRTC-style session between two peers addressed by public-key node
//! identities: the wire codecs for signaling payloads, the per-connection
//! driver state machine, the connection supervisor with its command loop,
//! and the user/message store.  All I/O — the rendezvous overlay, the media
//! stack, the command socket and the database file — lives outside this
//! crate and hands plain values in and out.

pub mod client;
pub mod codec;
pub mod constants;
pub mod db;
pub mod enums;
pub mod errors;
pub mod ipc;
pub mod models;
pub mod rtc;
pub mod signal;
pub mod strutil;
pub mod timefmt;
pub mod types;

pub use errors::ErrorKind;
pub use errors::ParseEnumError;
pub use errors::TimeoutError;
