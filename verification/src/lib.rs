//! Verified core of a block-bridging oracle.
//!
//! The library extracts transaction and output data handed over from a
//! source-chain node, builds the two Merkle roots that an on-chain verifier
//! recomputes, and decides the order and error handling of a reconciliation
//! pass. All network and process plumbing lives outside the library and talks
//! to it through plain values.

pub mod errors;
pub mod hashes;
pub mod hexutil;
pub mod merkle;
pub mod outputs;
pub mod reconcile;
pub mod rpc;
pub mod strutil;
