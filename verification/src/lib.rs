//! The core of a local secret-distribution daemon.
//!
//! The daemon keeps secrets in guarded memory and hands them to local clients
//! over a connection that is keyed afresh each time. This library holds what
//! the daemon decides and computes, each function with a contract that Verus
//! checks; sockets, the vault client and the lock around the store are the
//! caller's.
//!
//! - [`memory`]: guarded memory blocks.
//! - [`cipher`]: the key stream that seals secrets and replies.
//! - [`store`]: the secure store, and the laws of storing and getting.
//! - [`protected_secret`]: values that never show what they hold.
//! - [`numbers`]: big-endian natural numbers.
//! - [`key_exchange`]: the per-connection key exchange.
//! - [`framing`]: length-prefixed frames.
//! - [`json`]: the JSON texts of the protocol.
//! - [`protocol`]: commands and replies.
//! - [`connection`]: one connection as a state machine.
//! - [`admission`]: the bound on connections in flight.
//! - [`server`]: the server's state and its dealings with the vault.

pub mod admission;
pub mod cipher;
pub mod connection;
pub mod framing;
pub mod json;
pub mod key_exchange;
pub mod memory;
pub mod numbers;
pub mod protected_secret;
pub mod protocol;
pub mod server;
pub mod store;
