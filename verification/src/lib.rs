//! A local, file-backed secret vault core.
//!
//! The crate provides the encrypted record engine of a small password
//! manager: authenticated symmetric encryption of text fields under three
//! fixed, purpose-scoped keys; the credential record model (`Entry`); the
//! JSON documents in which the record collection and the encrypted master
//! passphrase are persisted; and the bootstrap state machine that gates
//! access to the vault.
//!
//! All file and clock access happens outside this crate; every function
//! here computes over plain values, so the persistence protocol and the
//! token format are stated and verified as contracts.

pub mod bootstrap;
pub mod cryptography;
pub mod data_base;
pub mod helpers;
