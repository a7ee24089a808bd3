//! The credential record model.
//!
//! An `Entry` holds one credential: a plaintext label, a ciphertext
//! username (generic key class), a ciphertext password (password key
//! class), and two timestamps. The two secret fields are never held in
//! plaintext inside a record; plaintext exists only in caller-supplied
//! input and in the `EntryDisplay` projection produced on demand.

use crate::cryptography::{
    decode_failure_code, decrypt_text, decryption_failure_code, encoding_failure_code,
    encrypt_text, encryption_failure_code, is_token_for, key_for,
};
use crate::helpers::InternalError;
use json::{dec_int, esc, push_escaped, push_i64};
use vstd::prelude::*;

pub mod get;
pub mod json;
pub mod post;
pub mod utils;

verus! {

/// The ghost image of one credential record, as contracts see it.
pub ghost struct EntryView {
    pub id: Seq<char>,
    pub name: Seq<char>,
    pub user_name: Seq<char>,
    pub password: Seq<char>,
    pub created_at: i64,
    pub last_edited: i64,
}

/// One credential record. `user_name` and `password` hold encryption
/// tokens, never plaintext; `id` is the opaque join key, generated once;
/// `created_at` is set once and `last_edited` moves with every mutation.
#[derive(Debug, Clone)]
pub struct Entry {
    id: String,
    name: String,
    user_name: String,
    password: String,
    created_at: i64,
    last_edited: i64,
}

impl View for Entry {
    type V = EntryView;

    closed spec fn view(&self) -> EntryView {
        EntryView {
            id: self.id@,
            name: self.name@,
            user_name: self.user_name@,
            password: self.password@,
            created_at: self.created_at,
            last_edited: self.last_edited,
        }
    }
}

impl PartialEq for Entry {
    fn eq(&self, other: &Self) -> (r: bool) {
        self.id.eq(&other.id) && self.name.eq(&other.name) && self.user_name.eq(&other.user_name)
            && self.password.eq(&other.password) && self.created_at == other.created_at
            && self.last_edited == other.last_edited
    }
}

impl vstd::std_specs::cmp::PartialEqSpecImpl for Entry {
    open spec fn obeys_eq_spec() -> bool {
        true
    }

    open spec fn eq_spec(&self, other: &Self) -> bool {
        self@ == other@
    }
}

/// The read-only decrypted projection of an `Entry`, produced on demand
/// for display and never written back.
#[derive(Debug, Clone)]
pub struct EntryDisplay {
    pub id: String,
    pub name: String,
    pub user_name: String,
    pub password: String,
    pub created_at: i64,
    pub last_edited: i64,
}

/// The ghost images of a record collection, in order.
pub open spec fn views_of(s: Seq<Entry>) -> Seq<EntryView> {
    s.map_values(|e: Entry| e@)
}

/// The canonical JSON object of one record inside the entries document,
/// indented as an element of the top-level array.
pub open spec fn entry_json(e: EntryView) -> Seq<char> {
    "    {\n      \"id\": \""@ + (esc(e.id) + ("\",\n      \"name\": \""@ + (esc(e.name) + (
    "\",\n      \"user_name\": \""@ + (esc(e.user_name) + ("\",\n      \"password\": \""@ + (esc(
        e.password,
    ) + ("\",\n      \"created_at\": "@ + (dec_int(e.created_at as int) + (
    ",\n      \"last_edited\": "@ + (dec_int(e.last_edited as int) + "\n    }"@)))))))))))
}

/// The array elements of the entries document, separated by a comma and
/// a line break.
pub open spec fn entries_items(es: Seq<EntryView>) -> Seq<char>
    decreases es.len(),
{
    if es.len() == 0 {
        Seq::empty()
    } else if es.len() == 1 {
        entry_json(es[0])
    } else {
        entry_json(es[0]) + (",\n"@ + entries_items(es.drop_first()))
    }
}

/// The canonical pretty-printed entries document.
pub open spec fn entries_doc_text(es: Seq<EntryView>) -> Seq<char> {
    if es.len() == 0 {
        "{\n  \"entries\": []\n}"@
    } else {
        "{\n  \"entries\": [\n"@ + (entries_items(es) + "\n  ]\n}"@)
    }
}

/// The canonical pretty-printed master document around a ciphertext
/// token.
pub open spec fn master_doc_text(tok: Seq<char>) -> Seq<char> {
    "{\n  \"master\": \""@ + (esc(tok) + "\"\n}"@)
}

/// Relies on `uuid::Uuid::new_v4` and its display form: a fresh random
/// version-4 UUID rendered as the 36-character hyphenated string.
/// Uniqueness is probabilistic, so only the length is promised.
#[verifier::external_body]
fn fresh_uuid() -> (r: String)
    ensures
        r@.len() == 36,
{
    uuid::Uuid::new_v4().to_string()
}

/// Relies on `chrono::Local::now`: the current wall-clock time as whole
/// seconds since the Unix epoch. The clock is environment state, so
/// nothing is promised about the value.
#[verifier::external_body]
pub(crate) fn now_timestamp() -> i64 {
    chrono::Local::now().timestamp()
}

impl Entry {
    /// Builds a record from already-encrypted fields, as read back from
    /// the persisted entries document.
    pub(crate) fn from_fields(
        id: String,
        name: String,
        user_name: String,
        password: String,
        created_at: i64,
        last_edited: i64,
    ) -> (e: Entry)
        ensures
            e@ == (EntryView {
                id: id@,
                name: name@,
                user_name: user_name@,
                password: password@,
                created_at,
                last_edited,
            }),
    {
        Entry { id, name, user_name, password, created_at, last_edited }
    }

    /// Creates a record: a fresh unique id, the username encrypted under
    /// the generic class, the password under the password class, and both
    /// timestamps stamped to the same current time. A crypto failure is
    /// propagated unchanged.
    pub fn new(name: &str, user_name: &str, password: &str) -> (r: Result<Self, InternalError>)
        ensures
            r matches Ok(e) ==> {
                &&& e@.name == name@
                &&& is_token_for(e@.user_name, key_for(false, false), user_name@)
                &&& is_token_for(e@.password, key_for(false, true), password@)
                &&& e@.created_at == e@.last_edited
                &&& e@.id.len() == 36
            },
            r matches Err(e) ==> e.spec_code() == encryption_failure_code(),
    {
        let id = fresh_uuid();
        let name = name.to_owned();
        let user_name = match encrypt_text(user_name, false, false) {
            Ok(n) => n,
            Err(err) => return Err(err),
        };
        let password = match encrypt_text(password, false, true) {
            Ok(p) => p,
            Err(err) => return Err(err),
        };
        let now = now_timestamp();
        let created_at = now;
        let last_edited = now;
        Ok(Self { id, name, user_name, password, created_at, last_edited })
    }

    pub fn name(&self) -> (r: String)
        ensures
            r@ == self@.name,
    {
        self.name.clone()
    }

    pub fn id(&self) -> (r: String)
        ensures
            r@ == self@.id,
    {
        self.id.clone()
    }

    /// The decrypted projection: both secret fields are decrypted, all or
    /// nothing — any decryption failure is propagated and no partial view
    /// is produced. Whenever the stored fields are well-formed tokens,
    /// the projection holds exactly the plaintexts they were made from.
    pub fn get_details(&self) -> (r: Result<EntryDisplay, InternalError>)
        ensures
            r matches Ok(d) ==> {
                &&& d.id@ == self@.id
                &&& d.name@ == self@.name
                &&& d.created_at == self@.created_at
                &&& d.last_edited == self@.last_edited
                &&& forall|p: Seq<char>|
                    is_token_for(self@.user_name, key_for(false, false), p) ==> d.user_name@ == p
                &&& forall|p: Seq<char>|
                    is_token_for(self@.password, key_for(false, true), p) ==> d.password@ == p
            },
            forall|u: Seq<char>, q: Seq<char>|
                is_token_for(self@.user_name, key_for(false, false), u) && is_token_for(
                    self@.password,
                    key_for(false, true),
                    q,
                ) ==> r is Ok,
            r matches Err(e) ==> (e.spec_code() == decode_failure_code() || e.spec_code()
                == decryption_failure_code() || e.spec_code() == encoding_failure_code()),
    {
        let user_name = match decrypt_text(self.user_name.as_str(), false, false) {
            Ok(u) => u,
            Err(err) => return Err(err),
        };
        let password = match decrypt_text(self.password.as_str(), false, true) {
            Ok(p) => p,
            Err(err) => return Err(err),
        };
        Ok(
            EntryDisplay {
                id: self.id.clone(),
                name: self.name.clone(),
                user_name,
                password,
                created_at: self.created_at,
                last_edited: self.last_edited,
            },
        )
    }

    /// Replaces the label verbatim and re-encrypts both secret fields
    /// unconditionally, then stamps `last_edited`. All new field values
    /// are computed first and committed only after every encryption has
    /// succeeded, so a failure leaves the record unchanged.
    pub fn edit(&mut self, name: &str, user_name: &str, password: &str) -> (r: Result<
        (),
        InternalError,
    >)
        ensures
            r is Ok ==> {
                &&& final(self)@.id == old(self)@.id
                &&& final(self)@.created_at == old(self)@.created_at
                &&& final(self)@.name == name@
                &&& is_token_for(final(self)@.user_name, key_for(false, false), user_name@)
                &&& is_token_for(final(self)@.password, key_for(false, true), password@)
            },
            r matches Err(e) ==> *final(self) == *old(self) && e.spec_code()
                == encryption_failure_code(),
    {
        let user_name = match encrypt_text(user_name, false, false) {
            Ok(u) => u,
            Err(err) => return Err(err),
        };
        let password = match encrypt_text(password, false, true) {
            Ok(p) => p,
            Err(err) => return Err(err),
        };
        self.user_name = user_name;
        self.password = password;
        self.name = name.to_owned();
        self.edited();
        Ok(())
    }

    /// Appends the canonical JSON object of this record to `out`, as it
    /// stands inside the entries document.
    #[verifier::rlimit(100)]
    pub(crate) fn append_json(&self, out: &mut String)
        ensures
            final(out)@ == old(out)@ + entry_json(self@),
    {
        out.append("    {\n      \"id\": \"");
        push_escaped(out, self.id.as_str());
        out.append("\",\n      \"name\": \"");
        push_escaped(out, self.name.as_str());
        out.append("\",\n      \"user_name\": \"");
        push_escaped(out, self.user_name.as_str());
        out.append("\",\n      \"password\": \"");
        push_escaped(out, self.password.as_str());
        out.append("\",\n      \"created_at\": ");
        push_i64(out, self.created_at);
        out.append(",\n      \"last_edited\": ");
        push_i64(out, self.last_edited);
        out.append("\n    }");
        proof {
            assert(out@ =~= old(out)@ + entry_json(self@));
        }
    }

    /// Stamps `last_edited` with the current time.
    fn edited(&mut self)
        ensures
            final(self)@.id == old(self)@.id,
            final(self)@.name == old(self)@.name,
            final(self)@.user_name == old(self)@.user_name,
            final(self)@.password == old(self)@.password,
            final(self)@.created_at == old(self)@.created_at,
    {
        self.last_edited = now_timestamp();
    }
}

} // verus!
