//! An append-only ledger of fixed-size record batches, each bound to its
//! predecessor by a SHA-256 content hash, with a validator that re-derives
//! every hash and link.
pub mod block;
pub mod chain;
pub mod clock;
pub mod digest;
pub mod encoding;
