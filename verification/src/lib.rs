//! Group-keying core of an end-to-end encrypted group messaging protocol:
//! the ratchet tree, the proposal queue and the per-sender application
//! ratchet, with their wire encodings.
//!
//! The library holds the protocol's rules. Cryptographic primitives are
//! supplied by the caller: every function that needs a digest, a derived
//! secret or a ciphertext either hands out the exact bytes to be processed
//! or takes the result as a plain value.

pub mod ciphersuite;
pub mod codec;
pub mod creds;
pub mod extensions;
pub mod framing;
pub mod group;
pub mod key_packages;
pub mod messages;
pub mod schedule;
pub mod tree;
pub mod utils;
