//! Protocol engine for a two-party secure messaging session: a signed
//! Diffie–Hellman handshake, encrypted and authenticated records, a record
//! counter and key rotation.

pub mod iv;
pub mod connection;
pub mod crypto;
pub mod error;
pub mod mac;
pub mod net;
pub mod wire;
pub mod session;
