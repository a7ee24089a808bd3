//! Reading the persisted documents back.
//!
//! The readers are strict: they accept exactly the canonical
//! pretty-printed form that the writers in `post` produce, stated by
//! `sp_entries_doc` and `sp_master_doc`, and report anything else as a
//! corrupt document. A missing entries file is the one non-error path —
//! it means "no entries yet" — while a missing master file is the
//! distinguished first-use signal `NoVault`.

use super::json::{
    lemma_chop, lemma_sp_i64_bounds, lemma_sp_i64_of, lemma_sp_str_bounds, lemma_sp_str_of, scan_i64,
    scan_string, sp_i64, sp_lit, sp_str,
};
use super::{entries_doc_text, entries_items, entry_json, master_doc_text, views_of, Entry,
    EntryView};
use crate::data_base::json::{dec_int, esc, expect_lit, is_digit};
use crate::helpers::InternalError;
use vstd::prelude::*;

verus! {

/// The stable code reported when the entries document is present but
/// cannot be read as the expected shape.
pub open spec fn corrupt_entries_code() -> Seq<char> {
    "[DB_G_GE-1]"@
}

/// The stable code reported when the master document is present but
/// cannot be read as the expected shape.
pub open spec fn corrupt_master_code() -> Seq<char> {
    "[DB_G_GM-1]"@
}

/// The stable code that signals a missing master document: the expected
/// first-use condition, not a true failure.
pub open spec fn no_vault_code() -> Seq<char> {
    "[DB_G_GM-3]"@
}

/// Strict reading of one entry object at a position of the entries
/// document.
pub open spec fn sp_entry(s: Seq<char>, i: int) -> Option<(EntryView, int)> {
    match sp_lit(s, i, "    {\n      \"id\": \""@) {
        None => None,
        Some(j1) => match sp_str(s, j1) {
            None => None,
            Some((id, j2)) => match sp_lit(s, j2, ",\n      \"name\": \""@) {
                None => None,
                Some(j3) => match sp_str(s, j3) {
                    None => None,
                    Some((name, j4)) => match sp_lit(s, j4, ",\n      \"user_name\": \""@) {
                        None => None,
                        Some(j5) => match sp_str(s, j5) {
                            None => None,
                            Some((user_name, j6)) => match sp_lit(
                                s,
                                j6,
                                ",\n      \"password\": \""@,
                            ) {
                                None => None,
                                Some(j7) => match sp_str(s, j7) {
                                    None => None,
                                    Some((password, j8)) => match sp_lit(
                                        s,
                                        j8,
                                        ",\n      \"created_at\": "@,
                                    ) {
                                        None => None,
                                        Some(j9) => match sp_i64(s, j9) {
                                            None => None,
                                            Some((created_at, j10)) => match sp_lit(
                                                s,
                                                j10,
                                                ",\n      \"last_edited\": "@,
                                            ) {
                                                None => None,
                                                Some(j11) => match sp_i64(s, j11) {
                                                    None => None,
                                                    Some((last_edited, j12)) => match sp_lit(
                                                        s,
                                                        j12,
                                                        "\n    }"@,
                                                    ) {
                                                        None => None,
                                                        Some(j13) => Some(
                                                            (
                                                                EntryView {
                                                                    id,
                                                                    name,
                                                                    user_name,
                                                                    password,
                                                                    created_at: created_at as i64,
                                                                    last_edited: last_edited as i64,
                                                                },
                                                                j13,
                                                            ),
                                                        ),
                                                    },
                                                },
                                            },
                                        },
                                    },
                                },
                            },
                        },
                    },
                },
            },
        },
    }
}

/// Strict reading of the rest of a nonempty entry array: one entry,
/// then either a separator and more entries or the end of the items.
pub open spec fn sp_entries_tail(s: Seq<char>, i: int, fuel: nat) -> Option<
    (Seq<EntryView>, int),
>
    decreases fuel,
{
    if fuel == 0 {
        None
    } else {
        match sp_entry(s, i) {
            None => None,
            Some((e, j)) => match sp_lit(s, j, ",\n"@) {
                Some(j2) => match sp_entries_tail(s, j2, (fuel - 1) as nat) {
                    None => None,
                    Some((rest, j3)) => Some((seq![e] + rest, j3)),
                },
                None => Some((seq![e], j)),
            },
        }
    }
}

/// Strict reading of a whole entries document.
pub open spec fn sp_entries_doc(s: Seq<char>) -> Option<Seq<EntryView>> {
    match sp_lit(s, 0, "{\n  \"entries\": ["@) {
        None => None,
        Some(j) => match sp_lit(s, j, "]\n}"@) {
            Some(j2) => if j2 == s.len() {
                Some(Seq::empty())
            } else {
                None
            },
            None => match sp_lit(s, j, "\n"@) {
                None => None,
                Some(j3) => match sp_entries_tail(s, j3, s.len() as nat) {
                    None => None,
                    Some((es, j4)) => match sp_lit(s, j4, "\n  ]\n}"@) {
                        Some(j5) => if j5 == s.len() {
                            Some(es)
                        } else {
                            None
                        },
                        None => None,
                    },
                },
            },
        },
    }
}

/// Reading at the canonical rendering of one entry yields exactly that
/// entry and stops right after it.
#[verifier::rlimit(100)]
proof fn lemma_sp_entry_of(s: Seq<char>, i: int, e: EntryView)
    requires
        0 <= i,
        i + entry_json(e).len() <= s.len(),
        s.subrange(i, i + entry_json(e).len()) == entry_json(e),
    ensures
        sp_entry(s, i) == Some((e, i + entry_json(e).len())),
{
    reveal_strlit("    {\n      \"id\": \"");
    reveal_strlit("\",\n      \"name\": \"");
    reveal_strlit(",\n      \"name\": \"");
    reveal_strlit("\",\n      \"user_name\": \"");
    reveal_strlit(",\n      \"user_name\": \"");
    reveal_strlit("\",\n      \"password\": \"");
    reveal_strlit(",\n      \"password\": \"");
    reveal_strlit("\",\n      \"created_at\": ");
    reveal_strlit(",\n      \"created_at\": ");
    reveal_strlit(",\n      \"last_edited\": ");
    reveal_strlit("\n    }");
    let l1 = "    {\n      \"id\": \""@;
    let l2 = "\",\n      \"name\": \""@;
    let m2 = ",\n      \"name\": \""@;
    let l3 = "\",\n      \"user_name\": \""@;
    let m3 = ",\n      \"user_name\": \""@;
    let l4 = "\",\n      \"password\": \""@;
    let m4 = ",\n      \"password\": \""@;
    let l5 = "\",\n      \"created_at\": "@;
    let m5 = ",\n      \"created_at\": "@;
    let l6 = ",\n      \"last_edited\": "@;
    let l7 = "\n    }"@;
    let q = seq!['"'];
    assert(l2 =~= q + m2);
    assert(l3 =~= q + m3);
    assert(l4 =~= q + m4);
    assert(l5 =~= q + m5);
    let t = entry_json(e);
    let dca = dec_int(e.created_at as int);
    let dle = dec_int(e.last_edited as int);
    let r12 = dle + l7;
    let r11 = l6 + r12;
    let r10 = dca + r11;
    let r9 = l5 + r10;
    let r8 = esc(e.password) + r9;
    let r7 = l4 + r8;
    let r6 = esc(e.user_name) + r7;
    let r5 = l3 + r6;
    let r4 = esc(e.name) + r5;
    let r3 = l2 + r4;
    let r2 = esc(e.id) + r3;
    assert(t == l1 + r2);
    // the opening literal
    lemma_chop(s, i, t, l1, r2);
    let j1 = i + l1.len();
    assert(sp_lit(s, i, l1) == Some(j1));
    // the id string and the quote that closes it
    assert(r2 =~= (esc(e.id) + q) + (m2 + r4));
    lemma_chop(s, j1, r2, esc(e.id) + q, m2 + r4);
    lemma_sp_str_of(s, j1, e.id);
    let j2 = j1 + esc(e.id).len() + 1;
    assert(sp_str(s, j1) == Some((e.id, j2)));
    // the name field
    lemma_chop(s, j2, m2 + r4, m2, r4);
    let j3 = j2 + m2.len();
    assert(sp_lit(s, j2, m2) == Some(j3));
    assert(r4 =~= (esc(e.name) + q) + (m3 + r6));
    lemma_chop(s, j3, r4, esc(e.name) + q, m3 + r6);
    lemma_sp_str_of(s, j3, e.name);
    let j4 = j3 + esc(e.name).len() + 1;
    // the user_name field
    lemma_chop(s, j4, m3 + r6, m3, r6);
    let j5 = j4 + m3.len();
    assert(r6 =~= (esc(e.user_name) + q) + (m4 + r8));
    lemma_chop(s, j5, r6, esc(e.user_name) + q, m4 + r8);
    lemma_sp_str_of(s, j5, e.user_name);
    let j6 = j5 + esc(e.user_name).len() + 1;
    // the password field
    lemma_chop(s, j6, m4 + r8, m4, r8);
    let j7 = j6 + m4.len();
    assert(r8 =~= (esc(e.password) + q) + (m5 + r10));
    lemma_chop(s, j7, r8, esc(e.password) + q, m5 + r10);
    lemma_sp_str_of(s, j7, e.password);
    let j8 = j7 + esc(e.password).len() + 1;
    // the created_at field
    lemma_chop(s, j8, m5 + r10, m5, r10);
    let j9 = j8 + m5.len();
    lemma_chop(s, j9, r10, dca, r11);
    let j10 = j9 + dca.len();
    assert(s[j10] == r11[0]) by {
        assert(s.subrange(j10, j10 + r11.len())[0] == s[j10]);
    }
    assert(r11[0] == ',');
    assert(!is_digit(','));
    lemma_sp_i64_of(s, j9, e.created_at as int);
    // the last_edited field
    lemma_chop(s, j10, r11, l6, r12);
    let j11 = j10 + l6.len();
    lemma_chop(s, j11, r12, dle, l7);
    let j12 = j11 + dle.len();
    assert(s[j12] == l7[0]) by {
        assert(s.subrange(j12, j12 + l7.len())[0] == s[j12]);
    }
    assert(l7[0] == '\n');
    assert(!is_digit('\n'));
    lemma_sp_i64_of(s, j11, e.last_edited as int);
    // the closing brace
    let j13 = j12 + l7.len();
    assert(sp_lit(s, j12, l7) == Some(j13));
    assert(j13 == i + t.len());
    assert(sp_entry(s, i) == Some((e, i + entry_json(e).len())));
}

/// A successful entry read always advances and stays inside the text.
proof fn lemma_sp_entry_bounds(s: Seq<char>, i: int)
    requires
        0 <= i,
    ensures
        sp_entry(s, i) matches Some(v) ==> i < v.1 <= s.len(),
{
    if sp_entry(s, i) is Some {
        let j1 = sp_lit(s, i, "    {\n      \"id\": \""@).unwrap();
        lemma_sp_str_bounds(s, j1);
        let j2 = sp_str(s, j1).unwrap().1;
        let j3 = sp_lit(s, j2, ",\n      \"name\": \""@).unwrap();
        lemma_sp_str_bounds(s, j3);
        let j4 = sp_str(s, j3).unwrap().1;
        let j5 = sp_lit(s, j4, ",\n      \"user_name\": \""@).unwrap();
        lemma_sp_str_bounds(s, j5);
        let j6 = sp_str(s, j5).unwrap().1;
        let j7 = sp_lit(s, j6, ",\n      \"password\": \""@).unwrap();
        lemma_sp_str_bounds(s, j7);
        let j8 = sp_str(s, j7).unwrap().1;
        let j9 = sp_lit(s, j8, ",\n      \"created_at\": "@).unwrap();
        lemma_sp_i64_bounds(s, j9);
        let j10 = sp_i64(s, j9).unwrap().1;
        let j11 = sp_lit(s, j10, ",\n      \"last_edited\": "@).unwrap();
        lemma_sp_i64_bounds(s, j11);
    }
}

/// The joined items of a collection are at least as long as the
/// collection itself.
proof fn lemma_items_len(es: Seq<EntryView>)
    ensures
        entries_items(es).len() >= es.len(),
    decreases es.len(),
{
    reveal_strlit("    {\n      \"id\": \"");
    if es.len() > 1 {
        lemma_items_len(es.drop_first());
    }
}

/// Reading at the canonical joined items of a nonempty collection,
/// followed by anything that does not begin like a separator, yields
/// exactly that collection.
proof fn lemma_sp_items_of(s: Seq<char>, i: int, es: Seq<EntryView>, fuel: nat)
    requires
        0 <= i,
        es.len() >= 1,
        fuel >= es.len(),
        i + entries_items(es).len() <= s.len(),
        s.subrange(i, i + entries_items(es).len()) == entries_items(es),
        i + entries_items(es).len() == s.len() || s[i + entries_items(es).len()] != ',',
    ensures
        sp_entries_tail(s, i, fuel) == Some((es, i + entries_items(es).len())),
    decreases es.len(),
{
    reveal_strlit(",\n");
    let sep = ",\n"@;
    let t = entries_items(es);
    if es.len() == 1 {
        assert(t == entry_json(es[0]));
        lemma_sp_entry_of(s, i, es[0]);
        let j = i + t.len();
        assert(sp_lit(s, j, sep) is None) by {
            if sp_lit(s, j, sep) is Some {
                assert(s.subrange(j, j + 2)[0] == s[j]);
            }
        }
        assert(seq![es[0]] =~= es);
    } else {
        let rest = es.drop_first();
        let r2 = sep + entries_items(rest);
        assert(t == entry_json(es[0]) + r2);
        lemma_chop(s, i, t, entry_json(es[0]), r2);
        lemma_sp_entry_of(s, i, es[0]);
        let j = i + entry_json(es[0]).len();
        lemma_chop(s, j, r2, sep, entries_items(rest));
        let j2 = j + 2;
        assert(sp_lit(s, j, sep) == Some(j2));
        lemma_sp_items_of(s, j2, rest, (fuel - 1) as nat);
        assert(seq![es[0]] + rest =~= es);
    }
}

/// Reading the rendered entries document returns exactly the collection
/// it was rendered from: the persistence round trip, stated once for
/// every collection.
pub proof fn lemma_entries_doc_round_trip(es: Seq<EntryView>)
    ensures
        sp_entries_doc(entries_doc_text(es)) == Some(es),
{
    reveal_strlit("{\n  \"entries\": []\n}");
    reveal_strlit("{\n  \"entries\": [\n");
    reveal_strlit("{\n  \"entries\": [");
    reveal_strlit("]\n}");
    reveal_strlit("\n");
    reveal_strlit("\n  ]\n}");
    let s = entries_doc_text(es);
    let open_lit = "{\n  \"entries\": ["@;
    assert(s.subrange(0, s.len() as int) =~= s);
    if es.len() == 0 {
        assert(s =~= open_lit + "]\n}"@);
        lemma_chop(s, 0, s, open_lit, "]\n}"@);
        assert(sp_entries_doc(s) == Some(Seq::<EntryView>::empty()));
    } else {
        let items = entries_items(es);
        let tail = "\n"@ + (items + "\n  ]\n}"@);
        assert(s =~= open_lit + tail);
        lemma_chop(s, 0, s, open_lit, tail);
        let j = open_lit.len() as int;
        assert(sp_lit(s, j, "]\n}"@) is None) by {
            if sp_lit(s, j, "]\n}"@) is Some {
                assert(s.subrange(j, j + 3)[0] == s[j]);
                assert(s.subrange(j, j + tail.len())[0] == s[j]);
            }
        }
        lemma_chop(s, j, tail, "\n"@, items + "\n  ]\n}"@);
        let j3 = j + 1;
        lemma_chop(s, j3, items + "\n  ]\n}"@, items, "\n  ]\n}"@);
        let j4 = j3 + items.len();
        assert(s[j4] == '\n') by {
            assert(s.subrange(j4, j4 + 6)[0] == s[j4]);
        }
        lemma_items_len(es);
        assert(s.len() >= es.len());
        lemma_sp_items_of(s, j3, es, s.len() as nat);
        assert(sp_lit(s, j4, "\n  ]\n}"@) == Some(j4 + 6));
        assert(j4 + 6 == s.len());
        assert(sp_entries_doc(s) == Some(es));
    }
}

/// Reading the rendered master document returns exactly the token it
/// was rendered around.
pub proof fn lemma_master_doc_round_trip(tok: Seq<char>)
    ensures
        sp_master_doc(master_doc_text(tok)) == Some(tok),
{
    reveal_strlit("{\n  \"master\": \"");
    reveal_strlit("\"\n}");
    reveal_strlit("\n}");
    let s = master_doc_text(tok);
    let open_lit = "{\n  \"master\": \""@;
    assert(s.subrange(0, s.len() as int) =~= s);
    assert("\"\n}"@ =~= seq!['"'] + "\n}"@);
    let rest = (esc(tok) + seq!['"']) + "\n}"@;
    assert(s =~= open_lit + rest);
    lemma_chop(s, 0, s, open_lit, rest);
    let j = open_lit.len() as int;
    lemma_chop(s, j, rest, esc(tok) + seq!['"'], "\n}"@);
    lemma_sp_str_of(s, j, tok);
    let j2 = j + esc(tok).len() + 1;
    assert(sp_lit(s, j2, "\n}"@) == Some(j2 + 2));
    assert(j2 + 2 == s.len());
}

/// Strict reading of a whole master document.
pub open spec fn sp_master_doc(s: Seq<char>) -> Option<Seq<char>> {
    match sp_lit(s, 0, "{\n  \"master\": \""@) {
        None => None,
        Some(j) => match sp_str(s, j) {
            None => None,
            Some((tok, j2)) => match sp_lit(s, j2, "\n}"@) {
                Some(j3) => if j3 == s.len() {
                    Some(tok)
                } else {
                    None
                },
                None => None,
            },
        },
    }
}

/// Prefixing a read entry list with already-read entries.
spec fn tail_app(prefix: Seq<EntryView>, rest: Option<(Seq<EntryView>, int)>) -> Option<
    (Seq<EntryView>, int),
> {
    match rest {
        Some((v, j)) => Some((prefix + v, j)),
        None => None,
    }
}

/// Reading one more entry commutes with prefixing.
proof fn lemma_tail_app_cons(prefix: Seq<EntryView>, e: EntryView, rest: Option<
    (Seq<EntryView>, int),
>)
    ensures
        tail_app(prefix, (match rest {
            Some((v, j)) => Some((seq![e] + v, j)),
            None => None,
        })) == tail_app(prefix.push(e), rest),
{
    match rest {
        Some((v, j)) => {
            assert(prefix + (seq![e] + v) =~= prefix.push(e) + v);
        },
        None => {},
    }
}

/// Strictly reads one entry object of the entries document.
fn parse_entry(s: &str, pos: usize) -> (r: Option<(Entry, usize)>)
    ensures
        r matches Some(v) ==> sp_entry(s@, pos as int) == Some((v.0@, v.1 as int)),
        r is None ==> sp_entry(s@, pos as int) is None,
{
    let j1 = match expect_lit(s, pos, "    {\n      \"id\": \"") {
        Some(j) => j,
        None => return None,
    };
    let (id, j2) = match scan_string(s, j1) {
        Some(v) => v,
        None => return None,
    };
    let j3 = match expect_lit(s, j2, ",\n      \"name\": \"") {
        Some(j) => j,
        None => return None,
    };
    let (name, j4) = match scan_string(s, j3) {
        Some(v) => v,
        None => return None,
    };
    let j5 = match expect_lit(s, j4, ",\n      \"user_name\": \"") {
        Some(j) => j,
        None => return None,
    };
    let (user_name, j6) = match scan_string(s, j5) {
        Some(v) => v,
        None => return None,
    };
    let j7 = match expect_lit(s, j6, ",\n      \"password\": \"") {
        Some(j) => j,
        None => return None,
    };
    let (password, j8) = match scan_string(s, j7) {
        Some(v) => v,
        None => return None,
    };
    let j9 = match expect_lit(s, j8, ",\n      \"created_at\": ") {
        Some(j) => j,
        None => return None,
    };
    let (created_at, j10) = match scan_i64(s, j9) {
        Some(v) => v,
        None => return None,
    };
    let j11 = match expect_lit(s, j10, ",\n      \"last_edited\": ") {
        Some(j) => j,
        None => return None,
    };
    let (last_edited, j12) = match scan_i64(s, j11) {
        Some(v) => v,
        None => return None,
    };
    let j13 = match expect_lit(s, j12, "\n    }") {
        Some(j) => j,
        None => return None,
    };
    Some((Entry::from_fields(id, name, user_name, password, created_at, last_edited), j13))
}

/// Strictly reads a whole entries document.
fn parse_entries_text(s: &str) -> (r: Option<Vec<Entry>>)
    ensures
        r matches Some(v) ==> sp_entries_doc(s@) == Some(views_of(v@)),
        r is None ==> sp_entries_doc(s@) is None,
{
    let n = s.unicode_len();
    let j = match expect_lit(s, 0, "{\n  \"entries\": [") {
        Some(j) => j,
        None => return None,
    };
    match expect_lit(s, j, "]\n}") {
        Some(j2) => {
            if j2 == n {
                let empty_list: Vec<Entry> = Vec::new();
                proof {
                    assert(views_of(empty_list@) =~= Seq::<EntryView>::empty());
                }
                return Some(empty_list);
            } else {
                return None;
            }
        },
        None => {},
    }
    let j3 = match expect_lit(s, j, "\n") {
        Some(v) => v,
        None => return None,
    };
    let ghost open_end = j as int;
    proof {
        reveal_strlit("{\n  \"entries\": [");
        reveal_strlit("\n");
    }
    let mut list: Vec<Entry> = Vec::new();
    let mut pos = j3;
    let ghost total = s@.len() as nat;
    let ghost mut f = total;
    loop
        invariant
            n == s@.len(),
            total == s@.len() as nat,
            pos <= n,
            f >= n - pos + 1,
            f <= total,
            sp_lit(s@, 0, "{\n  \"entries\": ["@) == Some(open_end),
            sp_lit(s@, open_end, "]\n}"@) is None,
            sp_lit(s@, open_end, "\n"@) == Some(j3 as int),
            sp_entries_tail(s@, j3 as int, total) == tail_app(
                views_of(list@),
                sp_entries_tail(s@, pos as int, f),
            ),
        decreases f,
    {
        let (e, j) = match parse_entry(s, pos) {
            Some(v) => v,
            None => {
                proof {
                    assert(sp_entries_tail(s@, pos as int, f) is None);
                    assert(sp_entries_doc(s@) is None);
                }
                return None;
            },
        };
        proof {
            lemma_sp_entry_bounds(s@, pos as int);
        }
        let ghost prev_views = views_of(list@);
        list.push(e);
        proof {
            assert(views_of(list@) =~= prev_views.push(e@));
        }
        match expect_lit(s, j, ",\n") {
            Some(j2) => {
                proof {
                    reveal_strlit(",\n");
                    lemma_tail_app_cons(prev_views, e@, sp_entries_tail(s@, j2 as int, (f - 1) as nat));
                }
                pos = j2;
            },
            None => {
                proof {
                    assert(sp_entries_tail(s@, pos as int, f) == Some((seq![e@], j as int)));
                    assert(prev_views + seq![e@] =~= views_of(list@));
                    assert(sp_entries_tail(s@, j3 as int, total) == Some(
                        (views_of(list@), j as int),
                    ));
                }
                let j4 = match expect_lit(s, j, "\n  ]\n}") {
                    Some(v) => v,
                    None => {
                        proof {
                            assert(sp_entries_doc(s@) is None);
                        }
                        return None;
                    },
                };
                if j4 == n {
                    return Some(list);
                } else {
                    proof {
                        assert(sp_entries_doc(s@) is None);
                    }
                    return None;
                }
            },
        }
        proof {
            f = (f - 1) as nat;
        }
    }
}

/// Strictly reads a whole master document.
fn parse_master_text(s: &str) -> (r: Option<String>)
    ensures
        r matches Some(v) ==> sp_master_doc(s@) == Some(v@),
        r is None ==> sp_master_doc(s@) is None,
{
    let n = s.unicode_len();
    let j = match expect_lit(s, 0, "{\n  \"master\": \"") {
        Some(j) => j,
        None => return None,
    };
    let (tok, j2) = match scan_string(s, j) {
        Some(v) => v,
        None => return None,
    };
    let j3 = match expect_lit(s, j2, "\n}") {
        Some(v) => v,
        None => return None,
    };
    if j3 == n {
        Some(tok)
    } else {
        None
    }
}

/// Interprets the entries file: a missing file is the one non-error
/// path and means an empty collection — "no entries yet", not "no
/// vault" — while a present document is read strictly and anything
/// unreadable is reported as a corrupt store.
pub fn load_entries_from(content: Option<&str>) -> (r: Result<Vec<Entry>, InternalError>)
    ensures
        content is None ==> (r matches Ok(v) && v@.len() == 0),
        (match content {
            Some(text) => match sp_entries_doc(text@) {
                Some(es) => r matches Ok(v) && views_of(v@) == es,
                None => r matches Err(e) && e.spec_code() == corrupt_entries_code(),
            },
            None => true,
        }),
        (match content {
            Some(text) => forall|es: Seq<EntryView>|
                text@ == entries_doc_text(es) ==> (r matches Ok(v) && views_of(v@) == es),
            None => true,
        }),
{
    let text = match content {
        Some(text) => text,
        None => return Ok(Vec::new()),
    };
    proof {
        assert forall|es: Seq<EntryView>|
            text@ == entries_doc_text(es) implies sp_entries_doc(text@) == Some(es) by {
            lemma_entries_doc_round_trip(es);
        }
    }
    match parse_entries_text(text) {
        Some(list) => Ok(list),
        None => Err(InternalError::new("[DB_G_GE-1]", "Failed to convert buffer")),
    }
}

/// Interprets the master file: a missing file is the distinguished
/// `NoVault` signal that the bootstrap flow reads as "first use", a
/// present document is read strictly for the stored ciphertext token,
/// and anything unreadable is reported as a corrupt store.
pub fn load_master_from(content: Option<&str>) -> (r: Result<String, InternalError>)
    ensures
        content is None ==> (r matches Err(e) && e.spec_code() == no_vault_code()),
        (match content {
            Some(text) => match sp_master_doc(text@) {
                Some(tok) => r matches Ok(v) && v@ == tok,
                None => r matches Err(e) && e.spec_code() == corrupt_master_code(),
            },
            None => true,
        }),
        (match content {
            Some(text) => forall|tok: Seq<char>|
                text@ == master_doc_text(tok) ==> (r matches Ok(v) && v@ == tok),
            None => true,
        }),
{
    let text = match content {
        Some(text) => text,
        None => return Err(InternalError::new("[DB_G_GM-3]", "Failed to load file")),
    };
    proof {
        assert forall|tok: Seq<char>|
            text@ == master_doc_text(tok) implies sp_master_doc(text@) == Some(tok) by {
            lemma_master_doc_round_trip(tok);
        }
    }
    match parse_master_text(text) {
        Some(tok) => Ok(tok),
        None => Err(InternalError::new("[DB_G_GM-1]", "Failed to convert buffer")),
    }
}

} // verus!
