//! An in-memory key-value store speaking the RESP wire protocol, with
//! primary/replica replication and snapshot-file bootstrap.
//!
//! The library holds the verified core: the RESP codec, the snapshot
//! decoder, the keyed store with lazy expiry, the command dispatcher and
//! the replication handshake state machine. Socket and file handling live
//! outside, in the accompanying binary, which feeds this library plain
//! bytes and applies the effects it returns.

pub mod digits;
pub mod resp;
pub mod resp_laws;
pub mod parse;
pub mod db;
pub mod rdb;
pub mod store;
pub mod config;
pub mod connection;
pub mod replica;
pub mod utils;
