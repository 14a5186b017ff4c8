//! An in-memory, network-addressable key-value store speaking a
//! Redis-style line protocol: the wire codec, the command grammar, and
//! the per-database engines behind a lazily growing router.

pub mod assoc;
pub mod command;
pub mod db;
pub mod deserialise;
pub mod numbers;
pub mod request;
pub mod resp;
pub mod router;
pub mod serialise;
