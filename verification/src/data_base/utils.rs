//! The shapes of the two persisted documents.

use super::Entry;
use vstd::prelude::*;

verus! {

/// The entries document: the full ordered collection, the unit of
/// durability — every mutation is followed by a rewrite of the whole
/// document.
pub struct Entries {
    pub entries: Vec<Entry>,
}

/// The master document: the single hex ciphertext token of the vault
/// passphrase, encrypted under the master key class. Its presence on
/// disk is the sole signal that the vault has been initialized.
pub struct Master {
    pub master: String,
}

} // verus!
