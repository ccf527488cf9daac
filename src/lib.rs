//! Encrypted conversation and messaging core: key derivation, a keyed-MAC
//! keystream cipher, rate limiting, replay protection, and participant-based
//! authorization over an injected store.
pub mod encoding;
pub mod error;
pub mod hashing;
pub mod ordering;
pub mod principal;
pub mod text;
pub mod cipher;
pub mod keys;
pub mod envelope;
pub mod guard;
pub mod model;
pub mod store;
pub mod service;
pub mod sizes;
pub mod laws;
