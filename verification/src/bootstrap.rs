//! The bootstrap state machine that gates access to the vault.
//!
//! The presentation layer drives these transitions; the decisions
//! themselves are pure and live here. The master document's presence on
//! disk is the sole signal that the vault has been initialized: probing
//! for it distinguishes the first use from a returning user. A stored
//! master passphrase admits a login attempt exactly when the entered
//! passphrase equals the decrypted stored one.

use vstd::prelude::*;

verus! {

/// The phases of vault access, from a fresh start to an open vault.
#[derive(Clone, Copy, PartialEq, Eq, Structural, Debug)]
pub enum VaultState {
    /// No master document exists yet; the vault has never been set up.
    Uninitialized,
    /// First use detected; waiting for the user to choose a passphrase.
    AwaitingPassphraseSetup,
    /// A master document exists but the user has not authenticated.
    LoggedOut,
    /// The user has authenticated; the entries are accessible.
    LoggedIn,
}

/// The state right after probing for the master document:
/// present means a returning user, absent means first use.
pub fn state_after_probe(master_found: bool) -> (s: VaultState)
    ensures
        s == (if master_found { VaultState::LoggedOut } else { VaultState::Uninitialized }),
{
    if master_found {
        VaultState::LoggedOut
    } else {
        VaultState::Uninitialized
    }
}

/// First use moves on to choosing a passphrase; any other state is kept.
pub fn begin_setup(s: VaultState) -> (t: VaultState)
    ensures
        t == (if s == VaultState::Uninitialized {
            VaultState::AwaitingPassphraseSetup
        } else {
            s
        }),
{
    if s == VaultState::Uninitialized {
        VaultState::AwaitingPassphraseSetup
    } else {
        s
    }
}

/// The transition taken when a master document has just been written:
/// the only way to reach an initialized vault, and it logs the user in.
pub fn state_after_master_saved() -> (s: VaultState)
    ensures
        s == VaultState::LoggedIn,
{
    VaultState::LoggedIn
}

/// Byte-for-byte equality of the recovered and the entered passphrase is
/// the only admission criterion.
pub fn passphrase_matches(recovered: &str, entered: &str) -> (r: bool)
    ensures
        r == (recovered@ == entered@),
{
    let n = recovered.unicode_len();
    if n != entered.unicode_len() {
        return false;
    }
    let mut i: usize = 0;
    while i < n
        invariant
            n == recovered@.len() == entered@.len(),
            i <= n,
            forall|j: int| 0 <= j < i ==> recovered@[j] == entered@[j],
        decreases n - i,
    {
        if recovered.get_char(i) != entered.get_char(i) {
            return false;
        }
        i += 1;
    }
    proof {
        assert(recovered@ =~= entered@);
    }
    true
}

/// A login attempt from the logged-out state: admitted exactly when the
/// recovered passphrase equals the entered one; any other state is kept.
pub fn state_after_login(s: VaultState, recovered: &str, entered: &str) -> (t: VaultState)
    ensures
        s == VaultState::LoggedOut && recovered@ == entered@ ==> t == VaultState::LoggedIn,
        s == VaultState::LoggedOut && recovered@ != entered@ ==> t == VaultState::LoggedOut,
        s != VaultState::LoggedOut ==> t == s,
{
    if s == VaultState::LoggedOut && passphrase_matches(recovered, entered) {
        VaultState::LoggedIn
    } else {
        s
    }
}

} // verus!
