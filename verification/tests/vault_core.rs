use vault::bootstrap::{
    begin_setup, passphrase_matches, state_after_login, state_after_master_saved,
    state_after_probe, VaultState,
};
use vault::cryptography::{decrypt_text, encrypt_text};
use vault::data_base::get::{load_entries_from, load_master_from};
use vault::data_base::post::{add_entry, entries_document, master_document};
use vault::data_base::Entry;
use vault::helpers::{timestamp_as_date, InternalError};

#[test]
fn nonce_freshness_same_text_same_class() {
    let a = encrypt_text("same plaintext", false, false).unwrap();
    let b = encrypt_text("same plaintext", false, false).unwrap();
    assert_ne!(a, b);
    assert_eq!(decrypt_text(&a, false, false).unwrap(), "same plaintext");
    assert_eq!(decrypt_text(&b, false, false).unwrap(), "same plaintext");
}

#[test]
fn wrong_key_class_fails_decryption() {
    let token = encrypt_text("secret", false, false).unwrap();
    let err = decrypt_text(&token, false, true).unwrap_err();
    assert_eq!(err.code(), "[CR_DP-2]");
    let err = decrypt_text(&token, true, true).unwrap_err();
    assert_eq!(err.code(), "[CR_DP-2]");
}

#[test]
fn non_hex_token_is_a_decode_failure() {
    let err = decrypt_text("not hex at all!", false, false).unwrap_err();
    assert_eq!(err.code(), "[CR_DP-1]");
    let err = decrypt_text("abc", false, false).unwrap_err();
    assert_eq!(err.code(), "[CR_DP-1]");
}

#[test]
fn short_hex_token_is_a_decryption_failure() {
    let err = decrypt_text("", false, false).unwrap_err();
    assert_eq!(err.code(), "[CR_DP-2]");
    let err = decrypt_text("0a1b2c", true, true).unwrap_err();
    assert_eq!(err.code(), "[CR_DP-2]");
    let err = decrypt_text("00112233445566778899aa", false, true).unwrap_err();
    assert_eq!(err.code(), "[CR_DP-2]");
}

#[test]
fn tampered_token_fails_authentication() {
    let token = encrypt_text("integrity matters", false, false).unwrap();
    let mut flipped: String = String::new();
    let last = token.chars().last().unwrap();
    let replacement = if last == '0' { '1' } else { '0' };
    for (i, c) in token.chars().enumerate() {
        if i == token.chars().count() - 1 {
            flipped.push(replacement);
        } else {
            flipped.push(c);
        }
    }
    let err = decrypt_text(&flipped, false, false).unwrap_err();
    assert_eq!(err.code(), "[CR_DP-2]");
}

#[test]
fn missing_entries_file_means_empty_collection() {
    let entries = load_entries_from(None).unwrap();
    assert_eq!(entries.len(), 0);
}

#[test]
fn malformed_entries_document_is_a_corrupt_store() {
    let err = load_entries_from(Some("this is not json")).unwrap_err();
    assert_eq!(err.code(), "[DB_G_GE-1]");
    let err = load_entries_from(Some("{\n  \"entries\": [\n")).unwrap_err();
    assert_eq!(err.code(), "[DB_G_GE-1]");
}

#[test]
fn missing_master_file_is_no_vault() {
    let err = load_master_from(None).unwrap_err();
    assert_eq!(err.code(), "[DB_G_GM-3]");
}

#[test]
fn malformed_master_document_is_a_corrupt_store() {
    let err = load_master_from(Some("{}")).unwrap_err();
    assert_eq!(err.code(), "[DB_G_GM-1]");
}

#[test]
fn master_document_round_trip_recovers_the_passphrase() {
    let doc = master_document("hunter2").unwrap();
    let token = load_master_from(Some(&doc)).unwrap();
    let recovered = decrypt_text(&token, true, true).unwrap();
    assert_eq!(recovered, "hunter2");
}

#[test]
fn create_reveal_edit_end_to_end() {
    let mut entry = Entry::new("Email", "alice@example.com", "s3cr3t").unwrap();
    let details = entry.get_details().unwrap();
    assert_eq!(details.name, "Email");
    assert_eq!(details.user_name, "alice@example.com");
    assert_eq!(details.password, "s3cr3t");
    assert_eq!(details.created_at, details.last_edited);
    let id_before = entry.id();
    let created_before = details.created_at;

    // wait until the clock has visibly moved, so that the edit lands on
    // a strictly later second
    loop {
        let probe = Entry::new("probe", "u", "p").unwrap();
        if probe.get_details().unwrap().created_at > created_before {
            break;
        }
    }

    entry.edit("Email2", "bob@example.com", "t0p").unwrap();
    let after = entry.get_details().unwrap();
    assert_eq!(after.name, "Email2");
    assert_eq!(after.user_name, "bob@example.com");
    assert_eq!(after.password, "t0p");
    assert_eq!(after.created_at, created_before);
    assert!(after.last_edited > after.created_at);
    assert_eq!(entry.id(), id_before);
    assert_eq!(entry.name(), "Email2");
}

#[test]
fn entries_document_round_trip_keeps_every_field_and_the_order() {
    let list: Vec<Entry> = Vec::new();
    let list = add_entry("first", "user one", "pw one", list).unwrap();
    let list = add_entry("we\u{e4}rd \"name\"\\with\nbreaks\tand\u{1}controls", "u2", "p2", list)
        .unwrap();
    let list = add_entry("third", "", "", list).unwrap();
    assert_eq!(list.len(), 3);

    let doc = entries_document(&list);
    let parsed = load_entries_from(Some(&doc)).unwrap();
    assert_eq!(parsed.len(), 3);
    assert!(parsed == list);
    for (a, b) in list.iter().zip(parsed.iter()) {
        assert_eq!(a.id(), b.id());
        assert_eq!(a.name(), b.name());
    }
}

#[test]
fn empty_entries_document_round_trip() {
    let list: Vec<Entry> = Vec::new();
    let doc = entries_document(&list);
    assert_eq!(doc, "{\n  \"entries\": []\n}");
    let parsed = load_entries_from(Some(&doc)).unwrap();
    assert_eq!(parsed.len(), 0);
}

#[test]
fn internal_error_accessors_and_toast() {
    let err = InternalError::new("[XY-1]", "Something broke");
    assert_eq!(err.code(), "[XY-1]");
    assert_eq!(err.message(), "Something broke");
    assert_eq!(err.toast_message(), "Something broke - [XY-1]");
}

#[test]
fn bootstrap_first_use_flow() {
    let s = state_after_probe(false);
    assert_eq!(s, VaultState::Uninitialized);
    let s = begin_setup(s);
    assert_eq!(s, VaultState::AwaitingPassphraseSetup);
    let s = state_after_master_saved();
    assert_eq!(s, VaultState::LoggedIn);
}

#[test]
fn bootstrap_returning_user_flow() {
    let s = state_after_probe(true);
    assert_eq!(s, VaultState::LoggedOut);
    let s = state_after_login(s, "letmein", "wrong");
    assert_eq!(s, VaultState::LoggedOut);
    let s = state_after_login(s, "letmein", "letmein");
    assert_eq!(s, VaultState::LoggedIn);
    assert!(passphrase_matches("abc", "abc"));
    assert!(!passphrase_matches("abc", "abd"));
    assert!(!passphrase_matches("abc", "ab"));
}

#[test]
fn timestamp_display_shape() {
    let shown = timestamp_as_date(0);
    let parts: Vec<&str> = shown.split(' ').collect();
    assert_eq!(parts.len(), 2);
    let date: Vec<&str> = parts[0].split('.').collect();
    assert_eq!(date.len(), 3);
    assert_eq!(date[0].len(), 2);
    assert_eq!(date[1].len(), 2);
    assert_eq!(date[2].len(), 4);
    assert!(date.iter().all(|p| p.chars().all(|c| c.is_ascii_digit())));
}
