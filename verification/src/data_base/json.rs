//! The JSON building blocks of the two persisted documents.
//!
//! The repository writes its documents in one canonical pretty-printed
//! form and reads back exactly that form: `esc` states how a string value
//! is escaped, `dec_int` how an integer is written, and the `sp_`
//! functions state, character by character, what the strict reader
//! accepts. Each reader inverts its writer, which is what the round-trip
//! lemmas prove; anything else is reported as a corrupt document.

use crate::cryptography::hex_format::{hex_char_val, hex_digit_char};
use vstd::prelude::*;

verus! {

/// A decimal digit character.
pub open spec fn is_digit(c: char) -> bool {
    48 <= c as u32 && c as u32 <= 57
}

/// The value of a decimal digit character.
pub open spec fn digit_val(c: char) -> int
    recommends
        is_digit(c),
{
    c as u32 - 48
}

/// A lowercase hexadecimal digit character, as written in a canonical
/// `\u00..` escape.
pub open spec fn is_lower_hex(c: char) -> bool {
    (48 <= c as u32 && c as u32 <= 57) || (97 <= c as u32 && c as u32 <= 102)
}

/// The canonical escape of one character inside a JSON string: quote and
/// backslash get a backslash, the five classic control characters get
/// their shorthand, any other control character gets `\u00..` with
/// lowercase hex digits, and everything else stands for itself.
pub open spec fn esc_char(c: char) -> Seq<char> {
    if c == '"' {
        seq!['\\', '"']
    } else if c == '\\' {
        seq!['\\', '\\']
    } else if c as u32 == 8 {
        seq!['\\', 'b']
    } else if c as u32 == 9 {
        seq!['\\', 't']
    } else if c as u32 == 10 {
        seq!['\\', 'n']
    } else if c as u32 == 12 {
        seq!['\\', 'f']
    } else if c as u32 == 13 {
        seq!['\\', 'r']
    } else if (c as u32) < 32 {
        let hi = hex_digit_char((c as u32 / 16) as u8);
        let lo = hex_digit_char((c as u32 % 16) as u8);
        seq!['\\', 'u', '0', '0', hi, lo]
    } else {
        seq![c]
    }
}

/// The canonical escaping of a whole string value.
pub open spec fn esc(s: Seq<char>) -> Seq<char>
    decreases s.len(),
{
    if s.len() == 0 {
        Seq::empty()
    } else {
        esc_char(s[0]) + esc(s.drop_first())
    }
}

/// Escaping distributes over appending one character at the end.
pub proof fn lemma_esc_push(s: Seq<char>, c: char)
    ensures
        esc(s.push(c)) == esc(s) + esc_char(c),
    decreases s.len(),
{
    if s.len() == 0 {
        assert(s.push(c)[0] == c);
        assert(s.push(c).drop_first() =~= Seq::<char>::empty());
        assert(esc(s.push(c)) == esc_char(c) + esc(s.push(c).drop_first()));
        assert(esc(s.push(c)) =~= esc(s) + esc_char(c));
    } else {
        assert(s.push(c).drop_first() =~= s.drop_first().push(c));
        lemma_esc_push(s.drop_first(), c);
        assert(esc(s.push(c)) =~= esc(s) + esc_char(c));
    }
}

/// The decimal digits of a nonnegative number, most significant first.
pub open spec fn dec_digits(n: nat) -> Seq<char>
    decreases n,
{
    if n < 10 {
        seq![hex_digit_char(n as u8)]
    } else {
        dec_digits(n / 10) + seq![hex_digit_char((n % 10) as u8)]
    }
}

/// The canonical decimal rendering of an integer.
pub open spec fn dec_int(n: int) -> Seq<char> {
    if n < 0 {
        seq!['-'] + dec_digits((-n) as nat)
    } else {
        dec_digits(n as nat)
    }
}

/// Relies on `String::push`: appends exactly the one character.
#[verifier::external_body]
pub(crate) fn push_char(out: &mut String, c: char)
    ensures
        final(out)@ == old(out)@ + seq![c],
{
    out.push(c);
}

/// Appends the canonical escaping of `s` to `out`.
pub(crate) fn push_escaped(out: &mut String, s: &str)
    ensures
        final(out)@ == old(out)@ + esc(s@),
{
    let ghost base = out@;
    let n = s.unicode_len();
    let mut i: usize = 0;
    while i < n
        invariant
            n == s@.len(),
            i <= n,
            out@ == base + esc(s@.take(i as int)),
        decreases n - i,
    {
        let c = s.get_char(i);
        let v = c as u32;
        if c == '"' {
            push_char(out, '\\');
            push_char(out, '"');
        } else if c == '\\' {
            push_char(out, '\\');
            push_char(out, '\\');
        } else if v == 8 {
            push_char(out, '\\');
            push_char(out, 'b');
        } else if v == 9 {
            push_char(out, '\\');
            push_char(out, 't');
        } else if v == 10 {
            push_char(out, '\\');
            push_char(out, 'n');
        } else if v == 12 {
            push_char(out, '\\');
            push_char(out, 'f');
        } else if v == 13 {
            push_char(out, '\\');
            push_char(out, 'r');
        } else if v < 32 {
            push_char(out, '\\');
            push_char(out, 'u');
            push_char(out, '0');
            push_char(out, '0');
            push_char(out, hex_digit_exec((v / 16) as u8));
            push_char(out, hex_digit_exec((v % 16) as u8));
        } else {
            push_char(out, c);
        }
        proof {
            lemma_esc_push(s@.take(i as int), c);
            assert(s@.take(i as int + 1) =~= s@.take(i as int).push(c));
            assert(out@ =~= base + esc(s@.take(i as int + 1)));
        }
        i += 1;
    }
    proof {
        assert(s@.take(n as int) =~= s@);
    }
}

/// The lowercase hexadecimal digit character for a value below sixteen.
fn hex_digit_exec(d: u8) -> (c: char)
    requires
        d < 16,
    ensures
        c == hex_digit_char(d),
{
    if d == 0 {
        '0'
    } else if d == 1 {
        '1'
    } else if d == 2 {
        '2'
    } else if d == 3 {
        '3'
    } else if d == 4 {
        '4'
    } else if d == 5 {
        '5'
    } else if d == 6 {
        '6'
    } else if d == 7 {
        '7'
    } else if d == 8 {
        '8'
    } else if d == 9 {
        '9'
    } else if d == 10 {
        'a'
    } else if d == 11 {
        'b'
    } else if d == 12 {
        'c'
    } else if d == 13 {
        'd'
    } else if d == 14 {
        'e'
    } else {
        'f'
    }
}

/// Appends the decimal digits of `n` to `out`.
fn push_digits(out: &mut String, n: u64)
    ensures
        final(out)@ == old(out)@ + dec_digits(n as nat),
    decreases n,
{
    if n < 10 {
        push_char(out, hex_digit_exec(n as u8));
    } else {
        push_digits(out, n / 10);
        push_char(out, hex_digit_exec((n % 10) as u8));
        proof {
            assert(out@ =~= old(out)@ + dec_digits(n as nat));
        }
    }
}

/// The character with the given code, as decoded from a `\u00..` escape.
pub open spec fn char_of(v: u8) -> char {
    v as char
}

/// Strict match of a literal at a position: the text holds exactly the
/// literal there.
pub open spec fn sp_lit(s: Seq<char>, i: int, lit: Seq<char>) -> Option<int> {
    if 0 <= i && i + lit.len() <= s.len() && s.subrange(i, i + lit.len()) == lit {
        Some(i + lit.len())
    } else {
        None
    }
}

/// Prepends one decoded character to the result of reading the rest of a
/// string body.
pub open spec fn sp_str_cons(c: char, rest: Option<(Seq<char>, int)>) -> Option<(Seq<char>, int)> {
    match rest {
        Some((v, j)) => Some((seq![c] + v, j)),
        None => None,
    }
}

/// Strict reading of a JSON string body after the opening quote, up to
/// and including the closing quote. Exactly the canonical escapes of
/// `esc_char` are accepted, so this inverts `esc`.
pub open spec fn sp_str(s: Seq<char>, i: int) -> Option<(Seq<char>, int)>
    decreases s.len() - i,
{
    if i < 0 || i >= s.len() {
        None
    } else if s[i] == '"' {
        Some((Seq::empty(), i + 1))
    } else if s[i] == '\\' {
        if i + 1 >= s.len() {
            None
        } else {
            let e = s[i + 1];
            if e == '"' {
                sp_str_cons('"', sp_str(s, i + 2))
            } else if e == '\\' {
                sp_str_cons('\\', sp_str(s, i + 2))
            } else if e == 'b' {
                sp_str_cons(char_of(8), sp_str(s, i + 2))
            } else if e == 't' {
                sp_str_cons(char_of(9), sp_str(s, i + 2))
            } else if e == 'n' {
                sp_str_cons(char_of(10), sp_str(s, i + 2))
            } else if e == 'f' {
                sp_str_cons(char_of(12), sp_str(s, i + 2))
            } else if e == 'r' {
                sp_str_cons(char_of(13), sp_str(s, i + 2))
            } else if e == 'u' {
                if i + 5 >= s.len() {
                    None
                } else if s[i + 2] == '0' && s[i + 3] == '0' && is_lower_hex(s[i + 4])
                    && is_lower_hex(s[i + 5]) {
                    let v = hex_char_val(s[i + 4]) * 16 + hex_char_val(s[i + 5]);
                    if v < 32 && v != 8 && v != 9 && v != 10 && v != 12 && v != 13 {
                        sp_str_cons(char_of(v as u8), sp_str(s, i + 6))
                    } else {
                        None
                    }
                } else {
                    None
                }
            } else {
                None
            }
        }
    } else if (s[i] as u32) < 32 {
        None
    } else {
        sp_str_cons(s[i], sp_str(s, i + 1))
    }
}

/// Strict greedy reading of a decimal digit run, folding the digits onto
/// `acc` and rejecting any value above `limit`.
pub open spec fn sp_digits(s: Seq<char>, i: int, acc: int, limit: int) -> Option<(int, int)>
    decreases s.len() - i,
{
    if 0 <= i && i < s.len() && is_digit(s[i]) {
        if acc * 10 + digit_val(s[i]) > limit {
            None
        } else {
            sp_digits(s, i + 1, acc * 10 + digit_val(s[i]), limit)
        }
    } else {
        Some((acc, i))
    }
}

/// Strict reading of a canonically written 64-bit integer: an optional
/// minus for a negative value, no leading zeros, within the i64 range.
pub open spec fn sp_i64(s: Seq<char>, i: int) -> Option<(int, int)> {
    if i < 0 || i >= s.len() {
        None
    } else if s[i] == '-' {
        if i + 1 < s.len() && is_digit(s[i + 1]) && s[i + 1] != '0' {
            match sp_digits(s, i + 1, 0, 9223372036854775808) {
                Some((m, j)) => Some((-m, j)),
                None => None,
            }
        } else {
            None
        }
    } else if s[i] == '0' {
        if i + 1 < s.len() && is_digit(s[i + 1]) {
            None
        } else {
            Some((0, i + 1))
        }
    } else if is_digit(s[i]) {
        sp_digits(s, i, 0, 9223372036854775807)
    } else {
        None
    }
}

/// The left fold that `sp_digits` computes over a digit run.
pub open spec fn fold_val(acc: int, ds: Seq<char>) -> int
    decreases ds.len(),
{
    if ds.len() == 0 {
        acc
    } else {
        fold_val(acc * 10 + digit_val(ds[0]), ds.drop_first())
    }
}

/// One element of a known subrange of a text.
proof fn lemma_seq_at(s: Seq<char>, i: int, l: int, t: Seq<char>, k: int)
    requires
        0 <= i,
        0 <= k < l,
        i + l <= s.len(),
        s.subrange(i, i + l) == t,
    ensures
        s[i + k] == t[k],
{
    assert(s.subrange(i, i + l)[k] == s[i + k]);
}

/// A sub-slice of a known subrange of a text.
proof fn lemma_seq_sub(s: Seq<char>, i: int, l: int, t: Seq<char>, a: int, b: int)
    requires
        0 <= i,
        0 <= a <= b <= l,
        i + l <= s.len(),
        s.subrange(i, i + l) == t,
    ensures
        s.subrange(i + a, i + b) == t.subrange(a, b),
{
    assert forall|k: int| 0 <= k < b - a implies s.subrange(i + a, i + b)[k] == t.subrange(
        a,
        b,
    )[k] by {
        assert(s.subrange(i, i + l)[a + k] == s[i + a + k]);
        assert(s.subrange(i + a, i + b)[k] == s[i + a + k]);
    }
    assert(s.subrange(i + a, i + b) =~= t.subrange(a, b));
}

/// Splitting a known stretch of the text in two: both halves are known
/// stretches, at consecutive positions.
pub(crate) proof fn lemma_chop(s: Seq<char>, p: int, rem: Seq<char>, a: Seq<char>, b: Seq<char>)
    requires
        0 <= p,
        p + rem.len() <= s.len(),
        s.subrange(p, p + rem.len()) == rem,
        rem == a + b,
    ensures
        s.subrange(p, p + a.len()) == a,
        s.subrange(p + a.len(), p + a.len() + b.len()) == b,
        p + a.len() + b.len() == p + rem.len(),
{
    lemma_seq_sub(s, p, rem.len() as int, rem, 0, a.len() as int);
    assert(rem.subrange(0, a.len() as int) =~= a);
    lemma_seq_sub(s, p, rem.len() as int, rem, a.len() as int, rem.len() as int);
    assert(rem.subrange(a.len() as int, rem.len() as int) =~= b);
}

/// Folding one more digit at the end multiplies by ten and adds it.
proof fn lemma_fold_snoc(acc: int, ds: Seq<char>, d: char)
    ensures
        fold_val(acc, ds.push(d)) == fold_val(acc, ds) * 10 + digit_val(d),
    decreases ds.len(),
{
    if ds.len() == 0 {
        assert(ds.push(d)[0] == d);
        assert(ds.push(d).drop_first() =~= Seq::<char>::empty());
        assert(fold_val(acc * 10 + digit_val(d), ds.push(d).drop_first()) == acc * 10 + digit_val(
            d,
        ));
    } else {
        assert(ds.push(d)[0] == ds[0]);
        assert(ds.push(d).drop_first() =~= ds.drop_first().push(d));
        lemma_fold_snoc(acc * 10 + digit_val(ds[0]), ds.drop_first(), d);
    }
}

/// The digits of a number fold back to the number, and every prefix of
/// them folds to a value no larger; the digits are digit characters, and
/// the first is nonzero whenever the number is.
proof fn lemma_dec_digits_fold(n: nat)
    ensures
        fold_val(0, dec_digits(n)) == n,
        forall|k: int| 0 <= k <= dec_digits(n).len() ==> fold_val(0, dec_digits(n).take(k)) <= n,
        forall|k: int| 0 <= k < dec_digits(n).len() ==> is_digit(#[trigger] dec_digits(n)[k]),
        n >= 1 ==> dec_digits(n)[0] != '0',
        dec_digits(n)[0] != '-',
    decreases n,
{
    if n < 10 {
        assert(dec_digits(n) =~= seq![hex_digit_char(n as u8)]);
        assert(dec_digits(n).take(0) =~= Seq::<char>::empty());
        assert(dec_digits(n).take(1) =~= dec_digits(n));
        assert(dec_digits(n).drop_first() =~= Seq::<char>::empty());
        assert(digit_val(hex_digit_char(n as u8)) == n);
        assert(fold_val(n as int, dec_digits(n).drop_first()) == n);
        assert(fold_val(0, dec_digits(n)) == n);
    } else {
        lemma_dec_digits_fold(n / 10);
        let a = dec_digits(n / 10);
        let d = hex_digit_char((n % 10) as u8);
        assert(dec_digits(n) =~= a.push(d));
        lemma_fold_snoc(0, a, d);
        assert(fold_val(0, dec_digits(n)) == (n / 10) * 10 + (n % 10));
        assert forall|k: int| 0 <= k <= dec_digits(n).len() implies fold_val(
            0,
            dec_digits(n).take(k),
        ) <= n by {
            if k <= a.len() {
                assert(dec_digits(n).take(k) =~= a.take(k));
            } else {
                assert(dec_digits(n).take(k) =~= dec_digits(n));
            }
        }
        assert forall|k: int| 0 <= k < dec_digits(n).len() implies is_digit(
            #[trigger] dec_digits(n)[k],
        ) by {
            if k < a.len() {
                assert(dec_digits(n)[k] == a[k]);
            }
        }
        assert(dec_digits(n)[0] == a[0]);
    }
}

/// Reading a digit run that renders a number bounded by the limit yields
/// exactly that number and stops right after it.
proof fn lemma_sp_digits_of(s: Seq<char>, i: int, acc: int, limit: int, ds: Seq<char>)
    requires
        0 <= i,
        i + ds.len() <= s.len(),
        s.subrange(i, i + ds.len()) == ds,
        i + ds.len() == s.len() || !is_digit(s[i + ds.len()]),
        forall|k: int| 0 <= k < ds.len() ==> is_digit(#[trigger] ds[k]),
        forall|k: int| 0 <= k <= ds.len() ==> fold_val(acc, #[trigger] ds.take(k)) <= limit,
    ensures
        sp_digits(s, i, acc, limit) == Some((fold_val(acc, ds), i + ds.len())),
    decreases ds.len(),
{
    if ds.len() == 0 {
        assert(ds.take(0) =~= ds);
        if i < s.len() {
            assert(!is_digit(s[i]));
        }
    } else {
        assert(s.subrange(i, i + ds.len())[0] == s[i]);
        assert(s[i] == ds[0]);
        assert(ds.take(1) =~= seq![ds[0]]);
        assert(ds.take(1).drop_first() =~= Seq::<char>::empty());
        assert(fold_val(acc * 10 + digit_val(ds[0]), ds.take(1).drop_first()) == acc * 10
            + digit_val(ds[0]));
        assert(fold_val(acc, ds.take(1)) == acc * 10 + digit_val(ds[0]));
        let acc2 = acc * 10 + digit_val(ds[0]);
        let rest = ds.drop_first();
        lemma_seq_sub(s, i, ds.len() as int, ds, 1, ds.len() as int);
        assert(ds.subrange(1, ds.len() as int) =~= rest);
        assert forall|k: int| 0 <= k <= rest.len() implies fold_val(acc2, #[trigger] rest.take(k))
            <= limit by {
            assert(ds.take(k + 1).drop_first() =~= rest.take(k));
            assert(fold_val(acc, ds.take(k + 1)) == fold_val(acc2, rest.take(k)));
        }
        lemma_sp_digits_of(s, i + 1, acc2, limit, rest);
        assert(fold_val(acc, ds) == fold_val(acc2, rest));
    }
}

/// Reading the canonical rendering of an i64, followed by anything that
/// is not a digit, yields exactly that value.
pub proof fn lemma_sp_i64_of(s: Seq<char>, i: int, n: int)
    requires
        0 <= i,
        -9223372036854775808 <= n <= 9223372036854775807,
        i + dec_int(n).len() <= s.len(),
        s.subrange(i, i + dec_int(n).len()) == dec_int(n),
        i + dec_int(n).len() == s.len() || !is_digit(s[i + dec_int(n).len()]),
    ensures
        sp_i64(s, i) == Some((n, i + dec_int(n).len())),
{
    if n < 0 {
        let m = (-n) as nat;
        lemma_dec_digits_fold(m);
        let ds = dec_digits(m);
        let l = dec_int(n).len() as int;
        lemma_seq_at(s, i, l, dec_int(n), 0);
        assert(s[i] == '-');
        lemma_seq_at(s, i, l, dec_int(n), 1);
        assert(s[i + 1] == ds[0]);
        lemma_seq_sub(s, i, l, dec_int(n), 1, l);
        assert(dec_int(n).subrange(1, l) =~= ds);
        lemma_sp_digits_of(s, i + 1, 0, 9223372036854775808, ds);
    } else if n == 0 {
        assert(dec_int(0) =~= seq![hex_digit_char(0)]);
        lemma_seq_at(s, i, 1, dec_int(n), 0);
        assert(s[i] == '0');
    } else {
        let m = n as nat;
        lemma_dec_digits_fold(m);
        let ds = dec_digits(m);
        assert(s.subrange(i, i + ds.len()) == ds);
        lemma_seq_at(s, i, ds.len() as int, ds, 0);
        assert(s[i] == ds[0]);
        assert(is_digit(s[i]) && s[i] != '0');
        lemma_sp_digits_of(s, i, 0, 9223372036854775807, ds);
    }
}

/// Reading a string body at the canonical escaping of a value, followed
/// by the closing quote, yields exactly that value.
pub proof fn lemma_sp_str_of(s: Seq<char>, i: int, v: Seq<char>)
    requires
        0 <= i,
        i + esc(v).len() + 1 <= s.len(),
        s.subrange(i, i + esc(v).len() + 1) == esc(v) + seq!['"'],
    ensures
        sp_str(s, i) == Some((v, i + esc(v).len() + 1)),
    decreases v.len(),
{
    let t = esc(v) + seq!['"'];
    let l = esc(v).len() as int + 1;
    if v.len() == 0 {
        assert(t =~= seq!['"']);
        lemma_seq_at(s, i, l, t, 0);
        assert(s[i] == '"');
    } else {
        let c = v[0];
        let e = esc_char(c);
        let rest = v.drop_first();
        assert(esc(v) == e + esc(rest));
        assert(t[0] == e[0]);
        lemma_seq_at(s, i, l, t, 0);
        if e.len() >= 2 {
            assert(t[1] == e[1]);
            lemma_seq_at(s, i, l, t, 1);
        }
        let j = i + e.len();
        lemma_seq_sub(s, i, l, t, e.len() as int, l);
        assert(t.subrange(e.len() as int, l) =~= esc(rest) + seq!['"']);
        lemma_sp_str_of(s, j, rest);
        if c == '"' || c == '\\' {
            assert(s[i] == '\\');
            assert(sp_str(s, i) == sp_str_cons(c, sp_str(s, i + 2)));
        } else if 8 <= c as u32 && c as u32 <= 13 && c as u32 != 11 {
            assert(s[i] == '\\');
            assert(char_of((c as u32) as u8) == c) by {
                vstd::utf8::char_u32_cast(c, c as u32);
            }
            assert(sp_str(s, i) == sp_str_cons(c, sp_str(s, i + 2)));
        } else if (c as u32) < 32 {
            assert(t[2] == e[2] && t[3] == e[3] && t[4] == e[4] && t[5] == e[5]);
            lemma_seq_at(s, i, l, t, 2);
            lemma_seq_at(s, i, l, t, 3);
            lemma_seq_at(s, i, l, t, 4);
            lemma_seq_at(s, i, l, t, 5);
            assert(s[i] == '\\' && s[i + 1] == 'u' && s[i + 2] == '0' && s[i + 3] == '0');
            let hi = (c as u32 / 16) as u8;
            let lo = (c as u32 % 16) as u8;
            assert(s[i + 4] == hex_digit_char(hi) && s[i + 5] == hex_digit_char(lo));
            crate::cryptography::hex_format::lemma_hex_digit_char_val(hi);
            crate::cryptography::hex_format::lemma_hex_digit_char_val(lo);
            assert(is_lower_hex(s[i + 4]) && is_lower_hex(s[i + 5]));
            assert(hex_char_val(s[i + 4]) * 16 + hex_char_val(s[i + 5]) == c as u32);
            assert(char_of((c as u32) as u8) == c) by {
                vstd::utf8::char_u32_cast(c, c as u32);
            }
            assert(sp_str(s, i) == sp_str_cons(c, sp_str(s, i + 6)));
        } else {
            assert(s[i] == c);
            assert(sp_str(s, i) == sp_str_cons(c, sp_str(s, i + 1)));
        }
        assert(seq![c] + rest =~= v);
    }
}

/// Prefixing a read string body with already-read characters.
pub open spec fn sp_str_app(prefix: Seq<char>, rest: Option<(Seq<char>, int)>) -> Option<
    (Seq<char>, int),
> {
    match rest {
        Some((v, j)) => Some((prefix + v, j)),
        None => None,
    }
}

/// Reading one more character commutes with prefixing.
proof fn lemma_sp_str_app_cons(prefix: Seq<char>, c: char, rest: Option<(Seq<char>, int)>)
    ensures
        sp_str_app(prefix, sp_str_cons(c, rest)) == sp_str_app(prefix.push(c), rest),
{
    match rest {
        Some((v, j)) => {
            assert(prefix + (seq![c] + v) =~= prefix.push(c) + v);
        },
        None => {},
    }
}

/// True when the character is a decimal digit.
fn is_digit_exec(c: char) -> (r: bool)
    ensures
        r == is_digit(c),
{
    let u = c as u32;
    48 <= u && u <= 57
}

/// True when the character is a lowercase hexadecimal digit.
fn is_lower_hex_exec(c: char) -> (r: bool)
    ensures
        r == is_lower_hex(c),
{
    let u = c as u32;
    (48 <= u && u <= 57) || (97 <= u && u <= 102)
}

/// The value of a lowercase hexadecimal digit.
fn lower_hex_val_exec(c: char) -> (r: u8)
    requires
        is_lower_hex(c),
    ensures
        r as int == hex_char_val(c),
        r <= 15,
{
    let u = c as u32;
    if u <= 57 {
        (u - 48) as u8
    } else {
        (u - 87) as u8
    }
}

/// Strictly matches the literal at the position.
pub(crate) fn expect_lit(s: &str, pos: usize, lit: &str) -> (r: Option<usize>)
    ensures
        r matches Some(j) ==> sp_lit(s@, pos as int, lit@) == Some(j as int),
        r is None ==> sp_lit(s@, pos as int, lit@) is None,
{
    let n = s.unicode_len();
    let m = lit.unicode_len();
    if pos > n || m > n - pos {
        return None;
    }
    let mut k: usize = 0;
    while k < m
        invariant
            n == s@.len(),
            m == lit@.len(),
            pos + m <= n,
            k <= m,
            forall|t: int| 0 <= t < k ==> s@[pos + t] == lit@[t],
        decreases m - k,
    {
        if s.get_char(pos + k) != lit.get_char(k) {
            proof {
                if s@.subrange(pos as int, pos as int + lit@.len()) == lit@ {
                    lemma_seq_at(s@, pos as int, lit@.len() as int, lit@, k as int);
                }
            }
            return None;
        }
        k += 1;
    }
    proof {
        assert(s@.subrange(pos as int, pos as int + lit@.len()) =~= lit@);
    }
    Some(pos + m)
}

/// Strictly reads a JSON string body starting right after the opening
/// quote, returning the decoded value and the position after the closing
/// quote.
pub(crate) fn scan_string(s: &str, pos: usize) -> (r: Option<(String, usize)>)
    ensures
        r matches Some(v) ==> sp_str(s@, pos as int) == Some((v.0@, v.1 as int)),
        r is None ==> sp_str(s@, pos as int) is None,
{
    let n = s.unicode_len();
    let mut acc = String::new();
    let mut i: usize = pos;
    loop
        invariant
            n == s@.len(),
            pos <= i,
            sp_str(s@, pos as int) == sp_str_app(acc@, sp_str(s@, i as int)),
        decreases n - i,
    {
        if i >= n {
            return None;
        }
        let c = s.get_char(i);
        let ghost prev = acc@;
        let ghost at = i as int;
        if c == '"' {
            proof {
                assert(acc@ + Seq::<char>::empty() =~= acc@);
            }
            return Some((acc, i + 1));
        } else if c == '\\' {
            if n - i < 2 {
                return None;
            }
            let e = s.get_char(i + 1);
            if e == '"' {
                push_char(&mut acc, '"');
                i = i + 2;
                proof {
                    lemma_sp_str_app_cons(prev, '"', sp_str(s@, i as int));
                    assert(prev.push('"') =~= acc@);
                }
            } else if e == '\\' {
                push_char(&mut acc, '\\');
                i = i + 2;
                proof {
                    lemma_sp_str_app_cons(prev, '\\', sp_str(s@, i as int));
                    assert(prev.push('\\') =~= acc@);
                }
            } else if e == 'b' {
                push_char(&mut acc, 8u8 as char);
                i = i + 2;
                proof {
                    lemma_sp_str_app_cons(prev, char_of(8), sp_str(s@, i as int));
                    assert(prev.push(char_of(8)) =~= acc@);
                }
            } else if e == 't' {
                push_char(&mut acc, 9u8 as char);
                i = i + 2;
                proof {
                    lemma_sp_str_app_cons(prev, char_of(9), sp_str(s@, i as int));
                    assert(prev.push(char_of(9)) =~= acc@);
                }
            } else if e == 'n' {
                push_char(&mut acc, 10u8 as char);
                i = i + 2;
                proof {
                    lemma_sp_str_app_cons(prev, char_of(10), sp_str(s@, i as int));
                    assert(prev.push(char_of(10)) =~= acc@);
                }
            } else if e == 'f' {
                push_char(&mut acc, 12u8 as char);
                i = i + 2;
                proof {
                    lemma_sp_str_app_cons(prev, char_of(12), sp_str(s@, i as int));
                    assert(prev.push(char_of(12)) =~= acc@);
                }
            } else if e == 'r' {
                push_char(&mut acc, 13u8 as char);
                i = i + 2;
                proof {
                    lemma_sp_str_app_cons(prev, char_of(13), sp_str(s@, i as int));
                    assert(prev.push(char_of(13)) =~= acc@);
                }
            } else if e == 'u' {
                if n - i < 6 {
                    return None;
                }
                let c2 = s.get_char(i + 2);
                let c3 = s.get_char(i + 3);
                let h1 = s.get_char(i + 4);
                let h2 = s.get_char(i + 5);
                if !(c2 == '0' && c3 == '0' && is_lower_hex_exec(h1) && is_lower_hex_exec(h2)) {
                    return None;
                }
                let v: u8 = lower_hex_val_exec(h1) * 16 + lower_hex_val_exec(h2);
                if !(v < 32 && v != 8 && v != 9 && v != 10 && v != 12 && v != 13) {
                    return None;
                }
                push_char(&mut acc, v as char);
                i = i + 6;
                proof {
                    lemma_sp_str_app_cons(prev, char_of(v), sp_str(s@, i as int));
                    assert(prev.push(char_of(v)) =~= acc@);
                }
            } else {
                return None;
            }
        } else {
            let u = c as u32;
            if u < 32 {
                return None;
            }
            push_char(&mut acc, c);
            i = i + 1;
            proof {
                lemma_sp_str_app_cons(prev, c, sp_str(s@, i as int));
                assert(prev.push(c) =~= acc@);
            }
        }
    }
}

/// Strictly reads a digit run onto an accumulator bounded by `limit`.
fn scan_digits(s: &str, pos: usize, limit: u64) -> (r: Option<(u64, usize)>)
    requires
        limit >= 9,
    ensures
        r matches Some(v) ==> v.0 <= limit && sp_digits(s@, pos as int, 0, limit as int) == Some(
            (v.0 as int, v.1 as int),
        ),
        r is None ==> sp_digits(s@, pos as int, 0, limit as int) is None,
{
    let n = s.unicode_len();
    let mut acc: u64 = 0;
    let mut i: usize = pos;
    loop
        invariant
            n == s@.len(),
            limit >= 9,
            pos <= i,
            acc <= limit,
            sp_digits(s@, pos as int, 0, limit as int) == sp_digits(
                s@,
                i as int,
                acc as int,
                limit as int,
            ),
        decreases n - i,
    {
        if i >= n {
            return Some((acc, i));
        }
        let c = s.get_char(i);
        if !is_digit_exec(c) {
            return Some((acc, i));
        }
        let d: u64 = (c as u32 - 48) as u64;
        if acc > (limit - d) / 10 {
            proof {
                assert(acc as int * 10 + d as int > limit as int) by (nonlinear_arith)
                    requires
                        acc as int > (limit as int - d as int) / 10,
                        0 <= d as int <= 9,
                        0 <= acc as int,
                        d as int <= limit as int,
                {}
            }
            return None;
        }
        proof {
            assert(acc as int * 10 + d as int <= limit as int) by (nonlinear_arith)
                requires
                    acc as int <= (limit as int - d as int) / 10,
                    0 <= d as int <= 9,
                    0 <= acc as int,
                    d as int <= limit as int,
            {}
        }
        acc = acc * 10 + d;
        i = i + 1;
    }
}

/// Strictly reads a canonically written i64 at the position.
pub(crate) fn scan_i64(s: &str, pos: usize) -> (r: Option<(i64, usize)>)
    ensures
        r matches Some(v) ==> sp_i64(s@, pos as int) == Some((v.0 as int, v.1 as int)),
        r is None ==> sp_i64(s@, pos as int) is None,
{
    let n = s.unicode_len();
    if pos >= n {
        return None;
    }
    let c0 = s.get_char(pos);
    if c0 == '-' {
        if n - pos < 2 {
            return None;
        }
        let c1 = s.get_char(pos + 1);
        if !is_digit_exec(c1) || c1 == '0' {
            return None;
        }
        match scan_digits(s, pos + 1, 9223372036854775808u64) {
            Some((m, j)) => {
                let val: i64 = if m == 9223372036854775808u64 {
                    i64::MIN
                } else {
                    -(m as i64)
                };
                Some((val, j))
            },
            None => None,
        }
    } else if c0 == '0' {
        if pos + 1 < n && is_digit_exec(s.get_char(pos + 1)) {
            return None;
        }
        Some((0i64, pos + 1))
    } else if is_digit_exec(c0) {
        match scan_digits(s, pos, 9223372036854775807u64) {
            Some((m, j)) => Some((m as i64, j)),
            None => None,
        }
    } else {
        None
    }
}

/// A successful string read always advances and stays inside the text.
pub proof fn lemma_sp_str_bounds(s: Seq<char>, i: int)
    ensures
        sp_str(s, i) matches Some(v) ==> i < v.1 <= s.len(),
    decreases s.len() - i,
{
    if i < 0 || i >= s.len() {
    } else if s[i] == '"' {
    } else if s[i] == '\\' {
        if i + 1 < s.len() {
            lemma_sp_str_bounds(s, i + 2);
            if i + 5 < s.len() {
                lemma_sp_str_bounds(s, i + 6);
            }
        }
    } else {
        lemma_sp_str_bounds(s, i + 1);
    }
}

/// A successful digit read never leaves the text.
pub proof fn lemma_sp_digits_bounds(s: Seq<char>, i: int, acc: int, limit: int)
    requires
        0 <= i <= s.len(),
    ensures
        sp_digits(s, i, acc, limit) matches Some(v) ==> i <= v.1 <= s.len(),
    decreases s.len() - i,
{
    if i < s.len() && is_digit(s[i]) && acc * 10 + digit_val(s[i]) <= limit {
        lemma_sp_digits_bounds(s, i + 1, acc * 10 + digit_val(s[i]), limit);
    }
}

/// A successful integer read always advances and stays inside the text.
pub proof fn lemma_sp_i64_bounds(s: Seq<char>, i: int)
    requires
        0 <= i,
    ensures
        sp_i64(s, i) matches Some(v) ==> i < v.1 <= s.len(),
{
    if i < s.len() {
        if s[i] == '-' {
            if i + 1 < s.len() && is_digit(s[i + 1]) && s[i + 1] != '0' {
                lemma_sp_digits_bounds(s, i + 1, 0, 9223372036854775808);
            }
        } else if s[i] == '0' {
        } else if is_digit(s[i]) {
            lemma_sp_digits_bounds(s, i + 1, digit_val(s[i]), 9223372036854775807);
        }
    }
}

/// Appends the canonical decimal rendering of `n` to `out`.
pub(crate) fn push_i64(out: &mut String, n: i64)
    ensures
        final(out)@ == old(out)@ + dec_int(n as int),
{
    if n >= 0 {
        push_digits(out, n as u64);
    } else {
        push_char(out, '-');
        let mag: u64 = if n == i64::MIN {
            9223372036854775808u64
        } else {
            (-n) as u64
        };
        push_digits(out, mag);
        proof {
            assert(mag as nat == (-(n as int)) as nat);
            assert(out@ =~= old(out)@ + dec_int(n as int));
        }
    }
}

} // verus!
