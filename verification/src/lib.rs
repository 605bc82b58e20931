//! A verified core for a directory-structured encrypted credential store.
//!
//! Secrets live as ciphertext files in a directory tree. Each directory may
//! carry a marker list of recipient identifiers that overrides the list
//! inherited from its parent; an identity resolver maps each identifier to a
//! concrete key id through a pinning cache, a saved-key cache, the local
//! keyring, and an external key-directory listing. The keyring, the caches and
//! the tree are modelled as explicit values, so every policy and resolution
//! decision is stated and proved here; the surrounding binary performs the
//! actual disk, subprocess and network work.

pub mod bytes;
pub mod caches;
pub mod directory;
pub mod errors;
pub mod keyring;
pub mod laws;
pub mod policy;
pub mod resolver;
pub mod store;
