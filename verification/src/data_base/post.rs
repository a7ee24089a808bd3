//! Building the documents that are written to disk.

use super::json::esc;
use super::{
    entries_doc_text, entries_items, entry_json, master_doc_text, views_of, Entry, EntryView,
};
use crate::cryptography::{encrypt_text, encryption_failure_code, is_token_for, key_for};
use crate::helpers::InternalError;
use vstd::prelude::*;

verus! {

/// One more element extends the joined array items with a separator.
#[verifier::rlimit(100)]
proof fn lemma_items_snoc(es: Seq<EntryView>, x: EntryView)
    requires
        es.len() >= 1,
    ensures
        entries_items(es.push(x)) == entries_items(es) + (",\n"@ + entry_json(x)),
    decreases es.len(),
{
    if es.len() == 1 {
        assert(es.push(x).drop_first() =~= seq![x]);
        assert(es.push(x)[0] == es[0]);
        assert(seq![x][0] == x);
        assert(entries_items(seq![x]) == entry_json(x));
        assert(entries_items(es.push(x)) =~= entries_items(es) + (",\n"@ + entry_json(x)));
    } else {
        assert(es.push(x).drop_first() =~= es.drop_first().push(x));
        lemma_items_snoc(es.drop_first(), x);
        assert(entries_items(es.push(x)) =~= entries_items(es) + (",\n"@ + entry_json(x)));
    }
}

/// Renders the full entries document for a collection, in the canonical
/// pretty-printed form that `load_entries_from` reads back.
#[verifier::rlimit(100)]
pub fn entries_document(list: &Vec<Entry>) -> (r: String)
    ensures
        r@ == entries_doc_text(views_of(list@)),
{
    let ghost vs = views_of(list@);
    let mut out = String::new();
    if list.len() == 0 {
        out.append("{\n  \"entries\": []\n}");
        proof {
            assert(out@ =~= entries_doc_text(vs));
        }
        return out;
    }
    out.append("{\n  \"entries\": [\n");
    let ghost head = "{\n  \"entries\": [\n"@;
    list[0].append_json(&mut out);
    proof {
        assert(entries_items(vs.take(1)) == entry_json(vs[0]));
        assert(out@ =~= head + entries_items(vs.take(1)));
    }
    let mut i: usize = 1;
    while i < list.len()
        invariant
            1 <= i <= list@.len(),
            vs == views_of(list@),
            vs.len() == list@.len(),
            out@ == head + entries_items(vs.take(i as int)),
        decreases list@.len() - i,
    {
        out.append(",\n");
        list[i].append_json(&mut out);
        proof {
            lemma_items_snoc(vs.take(i as int), vs[i as int]);
            assert(vs.take(i as int).push(vs[i as int]) =~= vs.take(i as int + 1));
            assert(out@ =~= head + entries_items(vs.take(i as int + 1)));
        }
        i += 1;
    }
    out.append("\n  ]\n}");
    proof {
        assert(vs.take(vs.len() as int) =~= vs);
        assert(out@ =~= entries_doc_text(vs));
    }
    out
}

/// Renders the master document around an already-encrypted token.
#[verifier::rlimit(100)]
pub(crate) fn master_doc_string(token: &str) -> (r: String)
    ensures
        r@ == master_doc_text(token@),
{
    let mut out = String::new();
    out.append("{\n  \"master\": \"");
    crate::data_base::json::push_escaped(&mut out, token);
    out.append("\"\n}");
    proof {
        assert(out@ =~= master_doc_text(token@));
    }
    out
}

/// Encrypts the vault passphrase under the master key class and renders
/// the master document holding the token. Writing this document is the
/// vault-initialization step; it is idempotent under repetition, since
/// the document simply replaces the previous one. The caller persists
/// the returned text, overwrite-or-create.
pub fn master_document(master_password: &str) -> (r: Result<String, InternalError>)
    ensures
        r matches Ok(doc) ==> exists|tok: Seq<char>|
            doc@ == master_doc_text(tok) && #[trigger] is_token_for(
                tok,
                key_for(true, true),
                master_password@,
            ),
        r matches Err(e) ==> e.spec_code() == encryption_failure_code(),
{
    let master_encrypted = match encrypt_text(master_password, true, true) {
        Ok(s) => s,
        Err(err) => return Err(err),
    };
    Ok(master_doc_string(master_encrypted.as_str()))
}

/// Creates a record from the three plaintext fields and appends it to
/// the collection, which keeps its order. The caller persists the
/// returned collection as one document immediately afterwards.
pub fn add_entry(name: &str, user_name: &str, password: &str, current_list: Vec<Entry>) -> (r:
    Result<Vec<Entry>, InternalError>)
    ensures
        r matches Ok(l) ==> {
            &&& l@.len() == current_list@.len() + 1
            &&& forall|i: int| 0 <= i < current_list@.len() ==> l@[i] == current_list@[i]
            &&& l@[current_list@.len() as int]@.name == name@
            &&& is_token_for(
                l@[current_list@.len() as int]@.user_name,
                key_for(false, false),
                user_name@,
            )
            &&& is_token_for(
                l@[current_list@.len() as int]@.password,
                key_for(false, true),
                password@,
            )
        },
        r matches Err(e) ==> e.spec_code() == encryption_failure_code(),
{
    let new_entry = match Entry::new(name, user_name, password) {
        Ok(e) => e,
        Err(err) => return Err(err),
    };
    let mut current_list = current_list;
    current_list.push(new_entry);
    Ok(current_list)
}

} // verus!
