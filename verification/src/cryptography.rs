//! Authenticated symmetric encryption of text under three purpose-scoped
//! keys.
//!
//! Each of the three key classes — master, password, generic — is a fixed,
//! compiled-in 256-bit key. The classes are not secrets: they only provide
//! domain separation, so that a ciphertext made for one field class cannot
//! be replayed into another. The user's master passphrase is the only
//! actual secret, and it is never used as key material.
//!
//! `encrypt_text` draws a fresh random 96-bit nonce, seals the UTF-8 bytes
//! of the text with AES-256-GCM, and renders `nonce || ciphertext+tag` as
//! a lowercase hex token; `decrypt_text` inverts every step. The sealing
//! itself is deterministic in key, nonce and plaintext, which is what the
//! uninterpreted `sealed` names; every call of `encrypt_text` is
//! probabilistically fresh only through the nonce.

use crate::helpers::InternalError;
use aes_gcm::aead::common::Generate;
use aes_gcm::aead::Aead;
use aes_gcm::{Aes256Gcm, KeyInit};
use vstd::prelude::*;
use vstd::slice::slice_subrange;
use vstd::utf8::{encode_utf8, encode_utf8_decode_utf8, encode_utf8_valid_utf8, valid_utf8};

pub mod hex_format;

use hex_format::{hex_of, hex_val, lemma_hex_round_trip, valid_hex};

verus! {

/// The fixed key for the master passphrase class.
closed spec fn master_key() -> Seq<char> {
    "master--vault-domain-separation!"@
}

/// The fixed key for the password field class.
closed spec fn password_key() -> Seq<char> {
    "passwd--vault-domain-separation!"@
}

/// The fixed key for the generic field class.
closed spec fn generic_key() -> Seq<char> {
    "generic-vault-domain-separation!"@
}

/// One of the three compiled-in keys: each is 32 ASCII characters, so its
/// UTF-8 encoding is the 32 bytes AES-256 requires.
spec fn is_vault_key(k: Seq<char>) -> bool {
    k == master_key() || k == password_key() || k == generic_key()
}

/// The key selected by the two class flags: the master flag wins, then the
/// password flag, and the generic key is the default.
pub closed spec fn key_for(is_master: bool, is_password: bool) -> Seq<char> {
    if is_master {
        master_key()
    } else if is_password {
        password_key()
    } else {
        generic_key()
    }
}

/// What AES-256-GCM returns for a given key, nonce and plaintext: the
/// ciphertext with its 16-byte authentication tag appended. The primitive
/// is deterministic, so the result is a function of exactly these three
/// values; its pages-long definition is left uninterpreted.
pub uninterp spec fn sealed(key: Seq<char>, nonce: Seq<u8>, plaintext: Seq<u8>) -> Seq<u8>;

/// The token produced for a plaintext when the fresh nonce came out as
/// `n`: the hex rendering of `n || sealed(..)`.
pub open spec fn token_with_nonce(key: Seq<char>, n: Seq<u8>, plaintext: Seq<char>) -> Seq<char> {
    hex_of(n + sealed(key, n, encode_utf8(plaintext)))
}

/// A well-formed encryption token for a plaintext under a key: produced
/// from some 12-byte nonce.
pub open spec fn is_token_for(tok: Seq<char>, key: Seq<char>, plaintext: Seq<char>) -> bool {
    exists|n: Seq<u8>| n.len() == 12 && tok == #[trigger] token_with_nonce(key, n, plaintext)
}

/// The stable code reported when the AEAD primitive rejects an input.
pub open spec fn encryption_failure_code() -> Seq<char> {
    "[CR_EP-1]"@
}

/// The stable code reported when a token is not valid hexadecimal.
pub open spec fn decode_failure_code() -> Seq<char> {
    "[CR_DP-1]"@
}

/// The stable code reported when authentication fails: tampered data, a
/// wrong key class, or a payload too short to hold a nonce.
pub open spec fn decryption_failure_code() -> Seq<char> {
    "[CR_DP-2]"@
}

/// The stable code reported when decrypted bytes are not valid UTF-8.
pub open spec fn encoding_failure_code() -> Seq<char> {
    "[CR_DP-3]"@
}

/// The compiled-in key for the two class flags.
fn select_key(is_master: bool, is_password: bool) -> (r: &'static str)
    ensures
        r@ == key_for(is_master, is_password),
        is_vault_key(r@),
{
    if is_master {
        "master--vault-domain-separation!"
    } else if is_password {
        "passwd--vault-domain-separation!"
    } else {
        "generic-vault-domain-separation!"
    }
}

/// Relies on `Generate` for `Array<u8, U12>` (crypto-common): draws 12
/// bytes from the operating system's RNG. Nothing can be promised about
/// the value; freshness is probabilistic.
#[verifier::external_body]
fn fresh_nonce() -> (r: Result<Vec<u8>, ()>)
    ensures
        r matches Ok(n) ==> n@.len() == 12,
{
    match aes_gcm::Nonce::<aes_gcm::aead::consts::U12>::try_generate() {
        Ok(n) => Ok(n.to_vec()),
        Err(_) => Err(()),
    }
}

/// Relies on `Aes256Gcm::encrypt` (aes-gcm): with one of the 32-byte vault
/// keys and a 12-byte nonce it deterministically produces the ciphertext
/// plus appended tag from the plaintext bytes alone, which is what
/// `sealed` names. A rejected input (overlong plaintext, wrong nonce
/// size) comes back as an error.
#[verifier::external_body]
fn aead_seal(key: &str, nonce: &Vec<u8>, plaintext: &str) -> (r: Result<Vec<u8>, ()>)
    requires
        is_vault_key(key@),
    ensures
        r matches Ok(c) ==> c@ == sealed(key@, nonce@, encode_utf8(plaintext@)),
{
    let cipher = match Aes256Gcm::new_from_slice(key.as_bytes()) {
        Ok(c) => c,
        Err(_) => return Err(()),
    };
    let nonce = match aes_gcm::Nonce::<aes_gcm::aead::consts::U12>::try_from(nonce.as_slice()) {
        Ok(n) => n,
        Err(_) => return Err(()),
    };
    match cipher.encrypt(&nonce, plaintext.as_bytes()) {
        Ok(c) => Ok(c),
        Err(_) => Err(()),
    }
}

/// Relies on `Aes256Gcm::decrypt` (aes-gcm): GCM decryption inverts the
/// deterministic sealing — it rejects a ciphertext only if that
/// ciphertext is not the sealing of any plaintext under this key and
/// nonce, and whenever it accepts one, the ciphertext is the sealing of
/// the returned plaintext and of no other, because the tag check
/// recomputes the deterministic encryption.
#[verifier::external_body]
fn aead_open(key: &str, nonce: &[u8], ciphertext: &[u8]) -> (r: Result<Vec<u8>, ()>)
    requires
        is_vault_key(key@),
        nonce@.len() == 12,
    ensures
        r is Err ==> forall|p: Seq<u8>| ciphertext@ != sealed(key@, nonce@, p),
        r matches Ok(q) ==> ciphertext@ == sealed(key@, nonce@, q@) && (forall|p: Seq<u8>|
            ciphertext@ == sealed(key@, nonce@, p) ==> p == q@),
{
    let cipher = match Aes256Gcm::new_from_slice(key.as_bytes()) {
        Ok(c) => c,
        Err(_) => return Err(()),
    };
    let nonce = match aes_gcm::Nonce::<aes_gcm::aead::consts::U12>::try_from(nonce) {
        Ok(n) => n,
        Err(_) => return Err(()),
    };
    match cipher.decrypt(&nonce, ciphertext) {
        Ok(p) => Ok(p),
        Err(_) => Err(()),
    }
}

/// Relies on `hex::encode`: lowercase hexadecimal, two digits per byte.
#[verifier::external_body]
fn hex_encode(data: &Vec<u8>) -> (r: String)
    ensures
        r@ == hex_of(data@),
{
    hex::encode(data.as_slice())
}

/// Relies on `hex::decode`: it accepts exactly the even-length strings of
/// hexadecimal digits (either case) and returns the bytes they denote.
#[verifier::external_body]
fn hex_decode(text: &str) -> (r: Result<Vec<u8>, ()>)
    ensures
        r is Ok <==> valid_hex(text@),
        r matches Ok(d) ==> d@ == hex_val(text@),
{
    match hex::decode(text) {
        Ok(d) => Ok(d),
        Err(_) => Err(()),
    }
}

/// Relies on `String::from_utf8`: it accepts exactly the valid UTF-8
/// byte sequences and returns the string whose encoding is the input;
/// in particular it inverts `encode_utf8`.
#[verifier::external_body]
fn bytes_to_string(bytes: Vec<u8>) -> (r: Result<String, ()>)
    ensures
        r is Ok <==> valid_utf8(bytes@),
        r matches Ok(s) ==> bytes@ == encode_utf8(s@),
{
    match String::from_utf8(bytes) {
        Ok(s) => Ok(s),
        Err(_) => Err(()),
    }
}

/// Encrypts `text` under the key class selected by the two flags: a fresh
/// random 96-bit nonce, AES-256-GCM, and the token `hex(nonce ||
/// ciphertext+tag)`. On success the token is well-formed for exactly this
/// text and key class, so `decrypt_text` under the same class returns the
/// text again.
pub fn encrypt_text(text: &str, is_master: bool, is_password: bool) -> (r: Result<
    String,
    InternalError,
>)
    ensures
        r matches Ok(tok) ==> is_token_for(tok@, key_for(is_master, is_password), text@),
        r matches Err(e) ==> e.spec_code() == encryption_failure_code(),
{
    let key = select_key(is_master, is_password);
    let nonce = match fresh_nonce() {
        Ok(n) => n,
        Err(_) => return Err(InternalError::new("[CR_EP-1]", "Failed to encrypt")),
    };
    let ciphered = match aead_seal(key, &nonce, text) {
        Ok(c) => c,
        Err(_) => return Err(InternalError::new("[CR_EP-1]", "Failed to encrypt")),
    };
    let ghost n = nonce@;
    let mut encrypted_data = nonce;
    let mut tail = ciphered;
    encrypted_data.append(&mut tail);
    let tok = hex_encode(&encrypted_data);
    proof {
        assert(encrypted_data@ == n + sealed(key@, n, encode_utf8(text@)));
        assert(tok@ == token_with_nonce(key_for(is_master, is_password), n, text@));
    }
    Ok(tok)
}

/// Decrypts a token made by `encrypt_text`. The token is decoded from
/// hex (`DecodeFailure` if it is not hexadecimal), split after the
/// 12-byte nonce (`DecryptionFailure` if shorter, or if authentication
/// fails — tampered data or a wrong key class), and the recovered bytes
/// are read as UTF-8 (`EncodingFailure` if invalid). Every well-formed
/// token for a plaintext under this key class decrypts to that plaintext.
pub fn decrypt_text(text: &str, is_master: bool, is_password: bool) -> (r: Result<
    String,
    InternalError,
>)
    ensures
        forall|p: Seq<char>|
            is_token_for(text@, key_for(is_master, is_password), p) ==> (r matches Ok(s) && s@
                == p),
        !valid_hex(text@) <==> (r matches Err(e) && e.spec_code() == decode_failure_code()),
        valid_hex(text@) && hex_val(text@).len() < 12 ==> (r matches Err(e) && e.spec_code()
            == decryption_failure_code()),
        r matches Ok(s) ==> valid_hex(text@) && hex_val(text@).len() >= 12 && hex_val(text@)
            == hex_val(text@).subrange(0, 12) + sealed(
            key_for(is_master, is_password),
            hex_val(text@).subrange(0, 12),
            encode_utf8(s@),
        ),
        r matches Err(e) ==> (e.spec_code() == decode_failure_code() || e.spec_code()
            == decryption_failure_code() || e.spec_code() == encoding_failure_code()),
{
    proof {
        lemma_codes_distinct();
    }
    let ghost k = key_for(is_master, is_password);
    let encrypted_data = match hex_decode(text) {
        Ok(d) => d,
        Err(_) => {
            proof {
                lemma_no_token_without_valid_hex(text@, k);
            }
            return Err(InternalError::new("[CR_DP-1]", "Failed to decode HEX String into Vec."));
        },
    };
    if encrypted_data.len() < 12 {
        proof {
            lemma_no_short_token(text@, k);
        }
        return Err(InternalError::new("[CR_DP-2]", "Failed to decrypt data."));
    }
    let key = select_key(is_master, is_password);
    let nonce_arr = slice_subrange(encrypted_data.as_slice(), 0, 12);
    let ciphered_data = slice_subrange(encrypted_data.as_slice(), 12, encrypted_data.len());
    proof {
        lemma_token_split(text@, k);
    }
    let plain_bytes = match aead_open(key, nonce_arr, ciphered_data) {
        Ok(b) => b,
        Err(_) => {
            proof {
                assert forall|p: Seq<char>| !is_token_for(text@, k, p) by {
                    if is_token_for(text@, k, p) {
                        assert(ciphered_data@ == sealed(key@, nonce_arr@, encode_utf8(p)));
                    }
                }
            }
            return Err(InternalError::new("[CR_DP-2]", "Failed to decrypt data."));
        },
    };
    let ghost pb = plain_bytes@;
    match bytes_to_string(plain_bytes) {
        Ok(s) => {
            proof {
                assert forall|p: Seq<char>| is_token_for(text@, k, p) implies s@ == p by {
                    assert(ciphered_data@ == sealed(key@, nonce_arr@, encode_utf8(p)));
                    assert(pb == encode_utf8(p));
                    encode_utf8_decode_utf8(s@);
                    encode_utf8_decode_utf8(p);
                }
                assert(hex_val(text@) =~= hex_val(text@).subrange(0, 12) + hex_val(
                    text@,
                ).subrange(12, hex_val(text@).len() as int));
            }
            Ok(s)
        },
        Err(_) => {
            proof {
                assert forall|p: Seq<char>| !is_token_for(text@, k, p) by {
                    if is_token_for(text@, k, p) {
                        assert(ciphered_data@ == sealed(key@, nonce_arr@, encode_utf8(p)));
                        assert(pb == encode_utf8(p));
                        encode_utf8_valid_utf8(p);
                    }
                }
            }
            Err(InternalError::new("[CR_DP-3]", "Failed to convert Vector of Bytes into String."))
        },
    }
}

/// A token is in particular a valid hex string, so nothing that fails hex
/// decoding is a token.
proof fn lemma_no_token_without_valid_hex(tok: Seq<char>, key: Seq<char>)
    requires
        !valid_hex(tok),
    ensures
        forall|p: Seq<char>| !is_token_for(tok, key, p),
{
    assert forall|p: Seq<char>| !is_token_for(tok, key, p) by {
        if is_token_for(tok, key, p) {
            let n = choose|n: Seq<u8>|
                n.len() == 12 && tok == token_with_nonce(key, n, p);
            lemma_hex_round_trip(n + sealed(key, n, encode_utf8(p)));
        }
    }
}

/// A token decodes to at least the 12 nonce bytes.
proof fn lemma_no_short_token(tok: Seq<char>, key: Seq<char>)
    requires
        valid_hex(tok),
        hex_val(tok).len() < 12,
    ensures
        forall|p: Seq<char>| !is_token_for(tok, key, p),
{
    assert forall|p: Seq<char>| !is_token_for(tok, key, p) by {
        if is_token_for(tok, key, p) {
            let n = choose|n: Seq<u8>|
                n.len() == 12 && tok == token_with_nonce(key, n, p);
            lemma_hex_round_trip(n + sealed(key, n, encode_utf8(p)));
        }
    }
}

/// Splitting the decoded bytes of a token after the 12-byte nonce
/// recovers the sealing the token was assembled from.
proof fn lemma_token_split(tok: Seq<char>, key: Seq<char>)
    requires
        valid_hex(tok),
        hex_val(tok).len() >= 12,
    ensures
        forall|p: Seq<char>|
            is_token_for(tok, key, p) ==> hex_val(tok).subrange(12, hex_val(tok).len() as int)
                == sealed(key, hex_val(tok).subrange(0, 12), encode_utf8(p)),
{
    assert forall|p: Seq<char>| is_token_for(tok, key, p) implies hex_val(tok).subrange(
        12,
        hex_val(tok).len() as int,
    ) == sealed(key, hex_val(tok).subrange(0, 12), encode_utf8(p)) by {
        let n = choose|n: Seq<u8>| n.len() == 12 && tok == token_with_nonce(key, n, p);
        let body = sealed(key, n, encode_utf8(p));
        lemma_hex_round_trip(n + body);
        assert(hex_val(tok) == n + body);
        assert(hex_val(tok).subrange(0, 12) =~= n);
        assert(hex_val(tok).subrange(12, hex_val(tok).len() as int) =~= body);
    }
}

/// The three decryption error codes are pairwise distinct.
proof fn lemma_codes_distinct()
    ensures
        decode_failure_code() != decryption_failure_code(),
        decode_failure_code() != encoding_failure_code(),
        decryption_failure_code() != encoding_failure_code(),
{
    reveal_strlit("[CR_DP-1]");
    reveal_strlit("[CR_DP-2]");
    reveal_strlit("[CR_DP-3]");
    assert(decode_failure_code()[7] == '1');
    assert(decryption_failure_code()[7] == '2');
    assert(encoding_failure_code()[7] == '3');
}

} // verus!
