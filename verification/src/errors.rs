//! The store's failure taxonomy, with a ghost mirror so that contracts can
//! state exactly which error each input produces.

use vstd::prelude::*;

verus! {

/// A failure of the store core.
#[derive(Debug)]
pub enum StoreError {
    /// The store root carries no marker file, so no policy is defined.
    MissingRootPolicy,
    /// Resolution would consult the external key directory for `user`
    /// (with the pinned id as disambiguation suffix, when one exists),
    /// but no listing was supplied.
    NeedsLookup { user: Vec<u8>, suffix: Option<Vec<u8>> },
    /// Every resolution strategy failed for `user`.
    UnknownKey { user: Vec<u8> },
    /// The addressed file, or a directory on the way to it, does not exist.
    MissingPath,
    /// No secret key held by the keyring opens the ciphertext.
    DecryptionFailed,
    /// A recipient key id is absent from the keyring.
    EncryptionFailed,
}

/// The ghost form of [`StoreError`].
pub ghost enum ErrV {
    MissingRootPolicy,
    NeedsLookup { user: Seq<u8>, suffix: Option<Seq<u8>> },
    UnknownKey { user: Seq<u8> },
    MissingPath,
    DecryptionFailed,
    EncryptionFailed,
}

impl View for StoreError {
    type V = ErrV;

    open spec fn view(&self) -> ErrV {
        match self {
            StoreError::MissingRootPolicy => ErrV::MissingRootPolicy,
            StoreError::NeedsLookup { user, suffix } => ErrV::NeedsLookup {
                user: user@,
                suffix: match suffix {
                    Some(s) => Some(s@),
                    None => None,
                },
            },
            StoreError::UnknownKey { user } => ErrV::UnknownKey { user: user@ },
            StoreError::MissingPath => ErrV::MissingPath,
            StoreError::DecryptionFailed => ErrV::DecryptionFailed,
            StoreError::EncryptionFailed => ErrV::EncryptionFailed,
        }
    }
}

} // verus!
