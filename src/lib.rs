//! An in-memory, time-bounded store of client-encrypted pastes.
//!
//! The store keeps opaque ciphertext and nonce bytes under random
//! alphanumeric identifiers, checks their sizes on acceptance and drops
//! records once they are older than the retention window.

pub mod store;
pub mod ident;
pub mod service;
pub mod laws;
pub mod config;
