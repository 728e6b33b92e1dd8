//! A device-bound identity vault: PIN-derived keys, authenticated storage of
//! identities and their signing keys, deterministic key derivation, and signed
//! payment intents.
//!
//! - `crypto`: the vault key, encryption bound to a device, and ed25519.
//! - `codec`: the canonical binary form of a vault.
//! - `persistence`: where a vault is stored, saves planned as a write and a
//!   rename, and loads.
//! - `parser`: the fields of a `upi://pay` request.
//! - `service`: payment payloads and the bytes that are signed for them.
//! - `session`: unlocking, identities, signing, and reset.

pub mod error;
pub mod text;
pub mod crypto;
pub mod domain;
pub mod persistence;
pub mod codec;
pub mod parser;
pub mod service;
pub mod session;
