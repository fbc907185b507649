//! The reader inverts the writer.
//!
//! The central result: parsing the serialized form of a well-formed store
//! yields the store back (round-trip fidelity), for every value variant,
//! nesting included.

use vstd::prelude::*;
use crate::codec::char_of_hex;
use crate::codec::enc_char;
use crate::codec::enc_document;
use crate::codec::enc_elems;
use crate::codec::enc_member;
use crate::codec::enc_members;
use crate::codec::enc_more_elems;
use crate::codec::enc_more_members;
use crate::codec::enc_string;
use crate::codec::enc_value;
use crate::codec::is_ws;
use crate::codec::skip_ws;
use crate::codec::spec_hex4;
use crate::codec::spec_hex4_ok;
use crate::codec::spec_hex_val;
use crate::codec::spec_parse_document;
use crate::codec::spec_parse_elems;
use crate::codec::spec_parse_member;
use crate::codec::spec_parse_members;
use crate::codec::spec_parse_more_elems;
use crate::codec::spec_parse_more_members;
use crate::codec::spec_parse_string;
use crate::codec::spec_parse_value;
use crate::codec::spec_scan_number;
use crate::codec::spec_unescape;
use crate::text::char_of_code;
use crate::value::SpecValue;
use crate::value::is_json_number;
use crate::value::spec_is_digit;
use crate::value::spec_is_number_char;
use crate::value::spec_scan_digits;

verus! {

/// The characters of `t` stand in `s` beginning at `i`.
pub open spec fn starts_with(s: Seq<char>, i: int, t: Seq<char>) -> bool {
    &&& 0 <= i
    &&& i + t.len() <= s.len()
    &&& forall|j: int| 0 <= j < t.len() ==> s[i + j] == t[j]
}

/// A prefix of a concatenation splits into its two parts.
pub proof fn lemma_starts_with_split(s: Seq<char>, i: int, a: Seq<char>, b: Seq<char>)
    requires
        starts_with(s, i, a + b),
    ensures
        starts_with(s, i, a),
        starts_with(s, i + a.len(), b),
{
    assert forall|j: int| 0 <= j < a.len() implies s[i + j] == a[j] by {
        assert(s[i + j] == (a + b)[j]);
    }
    assert forall|j: int| 0 <= j < b.len() implies s[i + a.len() + j] == b[j] by {
        assert(s[i + (a.len() + j)] == (a + b)[a.len() + j]);
    }
}

/// A character below the surrogate range is the character of its own
/// code point.
pub proof fn lemma_char_code_roundtrip(c: char)
    requires
        (c as u32) < 0xD800,
    ensures
        char_of_code((c as u32) as int) == c,
{
}

/// A hexadecimal digit character reads back as its value.
pub proof fn lemma_hex_roundtrip(d: int)
    requires
        0 <= d < 16,
    ensures
        spec_hex_val(char_of_hex(d)) == d,
{
}

/// What a digit scan yields: a maximal run of digits.
pub proof fn lemma_scan_digits_props(s: Seq<char>, i: int)
    requires
        0 <= i <= s.len(),
    ensures
        i <= spec_scan_digits(s, i) <= s.len(),
        forall|j: int| i <= j < spec_scan_digits(s, i) ==> spec_is_digit(#[trigger] s[j]),
        spec_scan_digits(s, i) == s.len() || !spec_is_digit(s[spec_scan_digits(s, i)]),
    decreases s.len() - i,
{
    if i < s.len() && spec_is_digit(s[i]) {
        lemma_scan_digits_props(s, i + 1);
    }
}

/// A valid number lexeme is non-empty, consists of number characters and
/// opens with a minus sign or a digit.
pub proof fn lemma_json_number_chars(t: Seq<char>)
    requires
        is_json_number(t),
    ensures
        t.len() > 0,
        forall|j: int| 0 <= j < t.len() ==> spec_is_number_char(#[trigger] t[j]),
        t[0] == '-' || spec_is_digit(t[0]),
{
    let n = t.len() as int;
    let start: int = if t.len() > 0 && t[0] == '-' {
        1
    } else {
        0
    };
    let a = crate::value::spec_int_part_end(t, start);
    let ad = spec_scan_digits(t, start);
    lemma_scan_digits_props(t, start);
    assert(a == ad && ad > start);
    let b = crate::value::spec_frac_end(t, a);
    let c = crate::value::spec_exp_end(t, b);
    assert(b >= 0 && c == n);
    if b > a {
        assert(t[a] == '.');
        lemma_scan_digits_props(t, a + 1);
        assert(b == spec_scan_digits(t, a + 1));
    } else {
        assert(b == a);
    }
    if c > b {
        assert(t[b] == 'e' || t[b] == 'E');
        let j0: int = if b + 1 < n && (t[b + 1] == '+' || t[b + 1] == '-') {
            b + 2
        } else {
            b + 1
        };
        lemma_scan_digits_props(t, j0);
        assert(c == spec_scan_digits(t, j0));
        assert forall|j: int| 0 <= j < n implies spec_is_number_char(#[trigger] t[j]) by {
            if j == 0 && start == 1 {
            } else if j < a {
                assert(spec_is_digit(t[j]));
            } else if b > a && j == a {
            } else if b > a && j < b {
                assert(spec_is_digit(t[j]));
            } else if j == b {
            } else if j < j0 {
            } else {
                assert(spec_is_digit(t[j]));
            }
        }
    } else {
        assert(c == b);
        assert forall|j: int| 0 <= j < n implies spec_is_number_char(#[trigger] t[j]) by {
            if j == 0 && start == 1 {
            } else if j < a {
                assert(spec_is_digit(t[j]));
            } else if b > a && j == a {
            } else {
                assert(spec_is_digit(t[j]));
            }
        }
    }
    if start == 0 {
        assert(spec_is_digit(t[0]));
    }
}

/// A number scan over a lexeme of number characters, followed by no
/// number character, stops exactly at the lexeme's end.
pub proof fn lemma_scan_number_at(s: Seq<char>, i: int, t: Seq<char>)
    requires
        starts_with(s, i, t),
        forall|j: int| 0 <= j < t.len() ==> spec_is_number_char(#[trigger] t[j]),
        i + t.len() == s.len() || !spec_is_number_char(s[i + t.len()]),
    ensures
        spec_scan_number(s, i) == i + t.len(),
    decreases t.len(),
{
    if t.len() == 0 {
    } else {
        assert(s[i] == t[0]);
        assert(spec_is_number_char(s[i]));
        assert(starts_with(s, i + 1, t.skip(1))) by {
            assert forall|j: int| 0 <= j < t.skip(1).len() implies s[i + 1 + j] == t.skip(1)[j] by {
                assert(t.skip(1)[j] == t[j + 1]);
                assert(s[i + (j + 1)] == t[j + 1]);
            }
        }
        lemma_scan_number_at(s, i + 1, t.skip(1));
    }
}

/// Parsing a string literal written by the writer yields the text back and
/// stops after the closing quote.
pub proof fn lemma_parse_enc_string(s: Seq<char>, i: int, t: Seq<char>)
    requires
        starts_with(s, i, enc_string(t) + seq!['"']),
    ensures
        spec_parse_string(s, i) == Some((t, i + enc_string(t).len() + 1)),
    decreases t.len(),
{
    reveal_with_fuel(enc_string, 2);
    if t.len() == 0 {
        assert(enc_string(t) =~= Seq::<char>::empty());
        assert(s[i + 0] == (enc_string(t) + seq!['"'])[0]);
        assert(s[i] == '"');
        assert(spec_parse_string(s, i) == Some((Seq::<char>::empty(), i + 1)));
        assert(Seq::<char>::empty() =~= t);
    } else {
        let c = t[0];
        let ec = enc_char(c);
        let rest = enc_string(t.skip(1));
        assert(enc_string(t) == ec + rest);
        assert((ec + rest) + seq!['"'] =~= ec + (rest + seq!['"']));
        lemma_starts_with_split(s, i, ec, rest + seq!['"']);
        assert(starts_with(s, i + ec.len(), enc_string(t.skip(1)) + seq!['"']));
        lemma_parse_enc_string(s, i + ec.len(), t.skip(1));
        let tailres = spec_parse_string(s, i + ec.len());
        let end = i + enc_string(t).len() + 1;
        assert(tailres == Some((t.skip(1), end)));
        if c == '"' {
            assert(ec == seq!['\\', '"']);
            assert(s[i + 0] == ec[0] && s[i + 1] == ec[1]);
            assert(s[i] == '\\');
            assert(s[i + 1] == '"');
            assert(spec_unescape(s[i + 1]) == Some('"'));
            assert(spec_parse_string(s, i) == Some((t.skip(1).insert(0, c), end)));
            assert(t.skip(1).insert(0, c) =~= t);
        } else if c == '\\' {
            assert(ec == seq!['\\', '\\']);
            assert(s[i + 0] == ec[0] && s[i + 1] == ec[1]);
            assert(s[i] == '\\');
            assert(s[i + 1] == '\\');
            assert(spec_unescape(s[i + 1]) == Some('\\'));
            assert(spec_parse_string(s, i) == Some((t.skip(1).insert(0, c), end)));
            assert(t.skip(1).insert(0, c) =~= t);
        } else if (c as u32) < 0x20 {
            let code = (c as u32) as int;
            assert(ec == seq!['\\', 'u', '0', '0', char_of_hex(code / 16), char_of_hex(
                code % 16,
            )]);
            assert(s[i + 0] == ec[0]);
            assert(s[i + 1] == ec[1]);
            assert(s[i + 2] == ec[2]);
            assert(s[i + 3] == ec[3]);
            assert(s[i + 4] == ec[4]);
            assert(s[i + 5] == ec[5]);
            assert(s[i] == '\\' && s[i + 1] == 'u');
            lemma_hex_roundtrip(code / 16);
            lemma_hex_roundtrip(code % 16);
            assert(spec_hex_val(s[i + 2]) == 0 && spec_hex_val(s[i + 3]) == 0);
            assert(spec_hex_val(s[i + 4]) == code / 16);
            assert(spec_hex_val(s[i + 5]) == code % 16);
            assert(spec_hex4_ok(s, i + 2));
            assert(spec_hex4(s, i + 2) == code);
            lemma_char_code_roundtrip(c);
            assert(char_of_code(code) == c);
            assert(spec_parse_string(s, i) == Some((t.skip(1).insert(0, c), end)));
            assert(t.skip(1).insert(0, c) =~= t);
        } else {
            assert(ec == seq![c]);
            assert(s[i + 0] == ec[0]);
            assert(s[i] == c);
            assert(c != '"' && c != '\\');
            assert(spec_parse_string(s, i) == Some((t.skip(1).insert(0, c), end)));
            assert(t.skip(1).insert(0, c) =~= t);
        }
    }
}

/// No number character follows position `e`.
pub open spec fn num_ok_after(s: Seq<char>, e: int) -> bool {
    e == s.len() || !spec_is_number_char(s[e])
}

/// The encoding of a well-formed value is non-empty and opens with a
/// character that is no whitespace, closer, comma or colon.
pub proof fn lemma_enc_value_first(v: SpecValue)
    requires
        v.wf(),
    ensures
        enc_value(v).len() > 0,
        !is_ws(enc_value(v)[0]),
        enc_value(v)[0] != ']',
        enc_value(v)[0] != '}',
        enc_value(v)[0] != ',',
        enc_value(v)[0] != ':',
{
    match v {
        SpecValue::Null => {}
        SpecValue::Boolean(_) => {}
        SpecValue::Number(t) => {
            lemma_json_number_chars(t);
            assert(enc_value(v) == t);
            assert(t[0] == '-' || spec_is_digit(t[0]));
        }
        SpecValue::Text(t) => {
            assert(enc_value(v)[0] == '"');
        }
        SpecValue::Array(es) => {
            assert(enc_value(v)[0] == '[');
        }
        SpecValue::Object(ps) => {
            assert(enc_value(v)[0] == '{');
        }
    }
}

/// Parsing the encoding of a well-formed value yields the value back.
#[verifier::rlimit(80)]
pub proof fn lemma_parse_enc_value(s: Seq<char>, i: int, v: SpecValue)
    requires
        v.wf(),
        starts_with(s, i, enc_value(v)),
        num_ok_after(s, i + enc_value(v).len()),
    ensures
        spec_parse_value(s, i) == Some((v, i + enc_value(v).len())),
    decreases v,
{
    let t = enc_value(v);
    let end = i + t.len();
    lemma_enc_value_first(v);
    assert(s[i + 0] == t[0]);
    assert(skip_ws(s, i) == i);
    match v {
        SpecValue::Null => {
            assert(t =~= seq!['n', 'u', 'l', 'l']);
            assert(s[i + 1] == t[1] && s[i + 2] == t[2] && s[i + 3] == t[3]);
            assert(spec_parse_value(s, i) == Some((v, end)));
        }
        SpecValue::Boolean(b) => {
            if b {
                assert(t =~= seq!['t', 'r', 'u', 'e']);
                assert(s[i + 1] == t[1] && s[i + 2] == t[2] && s[i + 3] == t[3]);
            } else {
                assert(t =~= seq!['f', 'a', 'l', 's', 'e']);
                assert(s[i + 1] == t[1] && s[i + 2] == t[2] && s[i + 3] == t[3] && s[i + 4]
                    == t[4]);
            }
            assert(spec_parse_value(s, i) == Some((v, end)));
        }
        SpecValue::Number(tn) => {
            assert(t == tn);
            lemma_json_number_chars(tn);
            assert forall|j: int| 0 <= j < tn.len() implies spec_is_number_char(
                #[trigger] s[i + j],
            ) by {
                assert(s[i + j] == tn[j]);
            }
            lemma_scan_number_at(s, i, tn);
            assert(spec_scan_number(s, i) == end);
            assert(s.subrange(i, end) =~= tn);
            assert(spec_parse_value(s, i) == Some((v, end)));
        }
        SpecValue::Text(tx) => {
            let a = enc_string(tx);
            assert(t == seq!['"'] + a + seq!['"']);
            assert(t =~= seq!['"'] + (a + seq!['"']));
            lemma_starts_with_split(s, i, seq!['"'], a + seq!['"']);
            lemma_parse_enc_string(s, i + 1, tx);
            assert(spec_parse_string(s, i + 1) == Some((tx, end)));
            assert(spec_parse_value(s, i) == Some((v, end)));
        }
        SpecValue::Array(es) => {
            let a = enc_elems(es);
            assert(t == seq!['['] + a + seq![']']);
            assert(t =~= seq!['['] + (a + seq![']']));
            lemma_starts_with_split(s, i, seq!['['], a + seq![']']);
            lemma_parse_enc_elems(s, i + 1, es);
            assert(spec_parse_elems(s, i + 1) == Some((es, end)));
            assert(spec_parse_value(s, i) == Some((v, end)));
        }
        SpecValue::Object(ps) => {
            let a = enc_members(ps);
            assert(t == seq!['{'] + a + seq!['}']);
            assert(t =~= seq!['{'] + (a + seq!['}']));
            lemma_starts_with_split(s, i, seq!['{'], a + seq!['}']);
            lemma_parse_enc_members(s, i + 1, ps);
            assert(spec_parse_members(s, i + 1) == Some((ps, end)));
            assert(spec_parse_value(s, i) == Some((v, end)));
        }
    }
}

/// Parsing the encoded elements of an array, up to the closing bracket,
/// yields the elements back.
#[verifier::rlimit(80)]
pub proof fn lemma_parse_enc_elems(s: Seq<char>, i: int, es: Seq<SpecValue>)
    requires
        SpecValue::wf_seq(es),
        starts_with(s, i, enc_elems(es) + seq![']']),
    ensures
        spec_parse_elems(s, i) == Some((es, i + enc_elems(es).len() + 1)),
    decreases es,
{
    let t = enc_elems(es) + seq![']'];
    let end = i + enc_elems(es).len() + 1;
    if es.len() == 0 {
        assert(enc_elems(es) =~= Seq::<char>::empty());
        assert(s[i + 0] == t[0]);
        assert(s[i] == ']');
        assert(skip_ws(s, i) == i);
        assert(spec_parse_elems(s, i) == Some((Seq::<SpecValue>::empty(), i + 1)));
        assert(Seq::<SpecValue>::empty() =~= es);
    } else {
        let a = enc_value(es[0]);
        let b = enc_more_elems(es.skip(1));
        assert(enc_elems(es) == a + b);
        assert(t =~= a + (b + seq![']']));
        lemma_starts_with_split(s, i, a, b + seq![']']);
        let k0 = i + a.len();
        assert(es[0].wf() && SpecValue::wf_seq(es.skip(1)));
        lemma_enc_value_first(es[0]);
        assert(s[i + 0] == a[0]);
        assert(skip_ws(s, i) == i);
        assert(s[i] != ']');
        if es.skip(1).len() == 0 {
            assert(b =~= Seq::<char>::empty());
            assert(s[k0 + 0] == (b + seq![']'])[0]);
            assert(s[k0] == ']');
        } else {
            assert(b[0] == ',');
            assert(s[k0 + 0] == (b + seq![']'])[0]);
            assert(s[k0] == ',');
        }
        assert(num_ok_after(s, k0));
        lemma_parse_enc_value(s, i, es[0]);
        assert(spec_parse_value(s, i) == Some((es[0], k0)));
        lemma_parse_enc_more_elems(s, k0, es.skip(1));
        assert(spec_parse_more_elems(s, k0) == Some((es.skip(1), end)));
        assert(spec_parse_elems(s, i) == Some((es.skip(1).insert(0, es[0]), end)));
        assert(es.skip(1).insert(0, es[0]) =~= es);
    }
}

/// Parsing the encoded tail of an array yields the remaining elements.
#[verifier::rlimit(80)]
pub proof fn lemma_parse_enc_more_elems(s: Seq<char>, i: int, es: Seq<SpecValue>)
    requires
        SpecValue::wf_seq(es),
        starts_with(s, i, enc_more_elems(es) + seq![']']),
    ensures
        spec_parse_more_elems(s, i) == Some((es, i + enc_more_elems(es).len() + 1)),
    decreases es,
{
    let t = enc_more_elems(es) + seq![']'];
    let end = i + enc_more_elems(es).len() + 1;
    if es.len() == 0 {
        assert(enc_more_elems(es) =~= Seq::<char>::empty());
        assert(s[i + 0] == t[0]);
        assert(s[i] == ']');
        assert(skip_ws(s, i) == i);
        assert(spec_parse_more_elems(s, i) == Some((Seq::<SpecValue>::empty(), i + 1)));
        assert(Seq::<SpecValue>::empty() =~= es);
    } else {
        let a = enc_value(es[0]);
        let b = enc_more_elems(es.skip(1));
        assert(enc_more_elems(es) == seq![','] + a + b);
        assert(t =~= seq![','] + (a + (b + seq![']'])));
        lemma_starts_with_split(s, i, seq![','], a + (b + seq![']']));
        lemma_starts_with_split(s, i + 1, a, b + seq![']']);
        assert(s[i + 0] == t[0]);
        assert(s[i] == ',');
        assert(skip_ws(s, i) == i);
        let k0 = i + 1 + a.len();
        assert(es[0].wf() && SpecValue::wf_seq(es.skip(1)));
        lemma_enc_value_first(es[0]);
        if es.skip(1).len() == 0 {
            assert(b =~= Seq::<char>::empty());
            assert(s[k0 + 0] == (b + seq![']'])[0]);
            assert(s[k0] == ']');
        } else {
            assert(b[0] == ',');
            assert(s[k0 + 0] == (b + seq![']'])[0]);
            assert(s[k0] == ',');
        }
        assert(num_ok_after(s, k0));
        lemma_parse_enc_value(s, i + 1, es[0]);
        assert(spec_parse_value(s, i + 1) == Some((es[0], k0)));
        lemma_parse_enc_more_elems(s, k0, es.skip(1));
        assert(spec_parse_more_elems(s, k0) == Some((es.skip(1), end)));
        assert(spec_parse_more_elems(s, i) == Some((es.skip(1).insert(0, es[0]), end)));
        assert(es.skip(1).insert(0, es[0]) =~= es);
    }
}

/// Parsing an encoded object entry yields the entry back.
#[verifier::rlimit(80)]
pub proof fn lemma_parse_enc_member(s: Seq<char>, i: int, p: (Seq<char>, SpecValue))
    requires
        p.1.wf(),
        starts_with(s, i, enc_member(p)),
        num_ok_after(s, i + enc_member(p).len()),
    ensures
        spec_parse_member(s, i) == Some((p, i + enc_member(p).len())),
    decreases p,
{
    let t = enc_member(p);
    let end = i + t.len();
    let a = enc_string(p.0);
    let ev = enc_value(p.1);
    assert(t == seq!['"'] + a + seq!['"', ':'] + ev);
    assert(t =~= seq!['"'] + ((a + seq!['"']) + (seq![':'] + ev)));
    lemma_starts_with_split(s, i, seq!['"'], (a + seq!['"']) + (seq![':'] + ev));
    lemma_starts_with_split(s, i + 1, a + seq!['"'], seq![':'] + ev);
    let k = i + 1 + a.len() + 1;
    lemma_starts_with_split(s, k, seq![':'], ev);
    assert(s[i + 0] == t[0]);
    assert(s[i] == '"');
    lemma_parse_enc_string(s, i + 1, p.0);
    assert(spec_parse_string(s, i + 1) == Some((p.0, k)));
    assert(s[k + 0] == seq![':'][0]);
    assert(s[k + 0] == ':');
    assert(skip_ws(s, k) == k);
    assert(num_ok_after(s, k + 1 + ev.len()));
    lemma_parse_enc_value(s, k + 1, p.1);
    assert(spec_parse_value(s, k + 1) == Some((p.1, end)));
    assert(spec_parse_member(s, i) == Some(((p.0, p.1), end)));
    assert((p.0, p.1) == p);
}

/// Parsing the encoded entries of an object, up to the closing brace,
/// yields the entries back.
#[verifier::rlimit(80)]
pub proof fn lemma_parse_enc_members(s: Seq<char>, i: int, ps: Seq<(Seq<char>, SpecValue)>)
    requires
        SpecValue::wf_pairs(ps),
        starts_with(s, i, enc_members(ps) + seq!['}']),
    ensures
        spec_parse_members(s, i) == Some((ps, i + enc_members(ps).len() + 1)),
    decreases ps,
{
    let t = enc_members(ps) + seq!['}'];
    let end = i + enc_members(ps).len() + 1;
    if ps.len() == 0 {
        assert(enc_members(ps) =~= Seq::<char>::empty());
        assert(s[i + 0] == t[0]);
        assert(s[i] == '}');
        assert(skip_ws(s, i) == i);
        assert(spec_parse_members(s, i) == Some((Seq::<(Seq<char>, SpecValue)>::empty(), i + 1)));
        assert(Seq::<(Seq<char>, SpecValue)>::empty() =~= ps);
    } else {
        let a = enc_member(ps[0]);
        let b = enc_more_members(ps.skip(1));
        assert(enc_members(ps) == a + b);
        assert(t =~= a + (b + seq!['}']));
        lemma_starts_with_split(s, i, a, b + seq!['}']);
        let k0 = i + a.len();
        assert(ps[0].1.wf() && SpecValue::wf_pairs(ps.skip(1)));
        assert(a[0] == '"');
        assert(s[i + 0] == a[0]);
        assert(skip_ws(s, i) == i);
        assert(s[i] != '}');
        if ps.skip(1).len() == 0 {
            assert(b =~= Seq::<char>::empty());
            assert(s[k0 + 0] == (b + seq!['}'])[0]);
            assert(s[k0] == '}');
        } else {
            assert(b[0] == ',');
            assert(s[k0 + 0] == (b + seq!['}'])[0]);
            assert(s[k0] == ',');
        }
        assert(num_ok_after(s, k0));
        lemma_parse_enc_member(s, i, ps[0]);
        assert(spec_parse_member(s, i) == Some((ps[0], k0)));
        lemma_parse_enc_more_members(s, k0, ps.skip(1));
        assert(spec_parse_more_members(s, k0) == Some((ps.skip(1), end)));
        assert(spec_parse_members(s, i) == Some((ps.skip(1).insert(0, ps[0]), end)));
        assert(ps.skip(1).insert(0, ps[0]) =~= ps);
    }
}

/// Parsing the encoded tail of an object yields the remaining entries.
#[verifier::rlimit(80)]
pub proof fn lemma_parse_enc_more_members(s: Seq<char>, i: int, ps: Seq<(Seq<char>, SpecValue)>)
    requires
        SpecValue::wf_pairs(ps),
        starts_with(s, i, enc_more_members(ps) + seq!['}']),
    ensures
        spec_parse_more_members(s, i) == Some((ps, i + enc_more_members(ps).len() + 1)),
    decreases ps,
{
    let t = enc_more_members(ps) + seq!['}'];
    let end = i + enc_more_members(ps).len() + 1;
    if ps.len() == 0 {
        assert(enc_more_members(ps) =~= Seq::<char>::empty());
        assert(s[i + 0] == t[0]);
        assert(s[i] == '}');
        assert(skip_ws(s, i) == i);
        assert(spec_parse_more_members(s, i) == Some((Seq::<(Seq<char>, SpecValue)>::empty(), i
            + 1)));
        assert(Seq::<(Seq<char>, SpecValue)>::empty() =~= ps);
    } else {
        let a = enc_member(ps[0]);
        let b = enc_more_members(ps.skip(1));
        assert(enc_more_members(ps) == seq![','] + a + b);
        assert(t =~= seq![','] + (a + (b + seq!['}'])));
        lemma_starts_with_split(s, i, seq![','], a + (b + seq!['}']));
        lemma_starts_with_split(s, i + 1, a, b + seq!['}']);
        assert(s[i + 0] == t[0]);
        assert(s[i] == ',');
        assert(skip_ws(s, i) == i);
        assert(skip_ws(s, i + 1) == i + 1) by {
            assert(s[i + 1 + 0] == a[0]);
            assert(s[i + 1] == '"');
        }
        let k0 = i + 1 + a.len();
        assert(ps[0].1.wf() && SpecValue::wf_pairs(ps.skip(1)));
        if ps.skip(1).len() == 0 {
            assert(b =~= Seq::<char>::empty());
            assert(s[k0 + 0] == (b + seq!['}'])[0]);
            assert(s[k0] == '}');
        } else {
            assert(b[0] == ',');
            assert(s[k0 + 0] == (b + seq!['}'])[0]);
            assert(s[k0] == ',');
        }
        assert(num_ok_after(s, k0));
        lemma_parse_enc_member(s, i + 1, ps[0]);
        assert(spec_parse_member(s, i + 1) == Some((ps[0], k0)));
        lemma_parse_enc_more_members(s, k0, ps.skip(1));
        assert(spec_parse_more_members(s, k0) == Some((ps.skip(1), end)));
        assert(spec_parse_more_members(s, i) == Some((ps.skip(1).insert(0, ps[0]), end)));
        assert(ps.skip(1).insert(0, ps[0]) =~= ps);
    }
}

/// Round-trip fidelity: parsing the serialized document of well-formed
/// entries yields exactly those entries.
pub proof fn lemma_parse_enc_document(ps: Seq<(Seq<char>, SpecValue)>)
    requires
        SpecValue::wf_pairs(ps),
    ensures
        spec_parse_document(enc_document(ps)) == Some(ps),
{
    let s = enc_document(ps);
    assert(s == seq!['{'] + enc_members(ps) + seq!['}']);
    assert(s =~= seq!['{'] + (enc_members(ps) + seq!['}']));
    assert(s[0] == '{');
    assert(skip_ws(s, 0) == 0);
    assert(starts_with(s, 1, enc_members(ps) + seq!['}'])) by {
        assert forall|j: int| 0 <= j < (enc_members(ps) + seq!['}']).len() implies s[1 + j] == (
        enc_members(ps) + seq!['}'])[j] by {
            assert(s[1 + j] == (seq!['{'] + (enc_members(ps) + seq!['}']))[1 + j]);
        }
    }
    lemma_parse_enc_members(s, 1, ps);
    assert(spec_parse_members(s, 1) == Some((ps, s.len() as int)));
    assert(skip_ws(s, s.len() as int) == s.len());
}

/// Round-trip fidelity at the store level: decoding the document encoded
/// from a store with unique keys rebuilds that store exactly.
pub proof fn lemma_store_roundtrip(ps: Seq<(Seq<char>, SpecValue)>)
    requires
        SpecValue::wf_pairs(ps),
        crate::kvmap::spec_unique_keys(ps),
    ensures
        spec_parse_document(enc_document(ps)) == Some(ps),
        crate::kvmap::spec_dedup(ps) == ps,
{
    lemma_parse_enc_document(ps);
    crate::kvmap::lemma_dedup_identity(ps);
}

} // verus!
