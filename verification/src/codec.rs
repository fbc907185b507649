//! The JSON codec of the storage.
//!
//! A store is serialized as a JSON object whose values follow the value
//! model recursively.  The writer emits a compact document (no
//! whitespace); the reader accepts arbitrary inter-token whitespace, the
//! standard escapes and `\uXXXX` escapes of scalar code points.  Number
//! lexemes are kept verbatim in both directions.
//!
//! The specification lives in the `enc_*` functions (what the writer
//! emits) and the `spec_parse_*` functions (what the reader accepts); the
//! reader is the inverse of the writer (see [`crate::roundtrip`]).

use vstd::prelude::*;
use vstd::string::StrSliceExecFns;
use crate::error::ErrorCode;
use crate::kvmap::KvMap;
use crate::text::char_of_code;
use crate::text::char_of_digit;
use crate::value::Value;
use crate::value::SpecValue;
use crate::value::is_json_number;
use crate::value::spec_is_digit;
use crate::value::spec_is_number_char;

verus! {

/// The character of a hexadecimal digit, lower case.
pub open spec fn char_of_hex(d: int) -> char {
    if d < 10 {
        char_of_digit(d)
    } else {
        let c: u32 = (d + 87) as u32;
        c as char
    }
}

/// The value of a hexadecimal digit character, or `-1`.
pub open spec fn spec_hex_val(c: char) -> int {
    let n = c as u32;
    if 48 <= n && n <= 57 {
        n - 48
    } else if 97 <= n && n <= 102 {
        n - 87
    } else if 65 <= n && n <= 70 {
        n - 55
    } else {
        -1
    }
}

/// The encoding of one character inside a JSON string literal: quote and
/// backslash are escaped, control characters become `\u00XX`, everything
/// else stands for itself.
pub open spec fn enc_char(c: char) -> Seq<char> {
    if c == '"' {
        seq!['\\', '"']
    } else if c == '\\' {
        seq!['\\', '\\']
    } else if (c as u32) < 0x20 {
        seq!['\\', 'u', '0', '0', char_of_hex((c as u32) as int / 16), char_of_hex(
            (c as u32) as int % 16,
        )]
    } else {
        seq![c]
    }
}

/// The encoding of the contents of a JSON string literal.
pub open spec fn enc_string(t: Seq<char>) -> Seq<char>
    decreases t.len(),
{
    if t.len() == 0 {
        Seq::empty()
    } else {
        enc_char(t[0]) + enc_string(t.skip(1))
    }
}

/// The encoding of a value.
pub open spec fn enc_value(v: SpecValue) -> Seq<char>
    decreases v, 0int,
{
    match v {
        SpecValue::Null => seq!['n', 'u', 'l', 'l'],
        SpecValue::Boolean(b) => if b {
            seq!['t', 'r', 'u', 'e']
        } else {
            seq!['f', 'a', 'l', 's', 'e']
        },
        SpecValue::Number(s) => s,
        SpecValue::Text(s) => seq!['"'] + enc_string(s) + seq!['"'],
        SpecValue::Array(es) => {
            proof {
                assert(decreases_to!(v => v->Array_0));
            }
            seq!['['] + enc_elems(es) + seq![']']
        }
        SpecValue::Object(ps) => {
            proof {
                assert(decreases_to!(v => v->Object_0));
            }
            seq!['{'] + enc_members(ps) + seq!['}']
        }
    }
}

/// The encoding of the elements of an array, comma-separated.
pub open spec fn enc_elems(es: Seq<SpecValue>) -> Seq<char>
    decreases es, 1int,
{
    if es.len() == 0 {
        Seq::empty()
    } else {
        proof {
            assert(decreases_to!(es => es[0]));
            assert(decreases_to!(es => es.skip(1)));
        }
        enc_value(es[0]) + enc_more_elems(es.skip(1))
    }
}

/// The encoding of the elements after the first.
pub open spec fn enc_more_elems(es: Seq<SpecValue>) -> Seq<char>
    decreases es, 1int,
{
    if es.len() == 0 {
        Seq::empty()
    } else {
        proof {
            assert(decreases_to!(es => es[0]));
            assert(decreases_to!(es => es.skip(1)));
        }
        seq![','] + enc_value(es[0]) + enc_more_elems(es.skip(1))
    }
}

/// The encoding of one object entry: quoted key, colon, value.
pub open spec fn enc_member(p: (Seq<char>, SpecValue)) -> Seq<char>
    decreases p, 1int,
{
    proof {
        assert(decreases_to!(p => p.1));
    }
    seq!['"'] + enc_string(p.0) + seq!['"', ':'] + enc_value(p.1)
}

/// The encoding of the entries of an object, comma-separated.
pub open spec fn enc_members(ps: Seq<(Seq<char>, SpecValue)>) -> Seq<char>
    decreases ps, 2int,
{
    if ps.len() == 0 {
        Seq::empty()
    } else {
        proof {
            assert(decreases_to!(ps => ps[0]));
            assert(decreases_to!(ps => ps.skip(1)));
        }
        enc_member(ps[0]) + enc_more_members(ps.skip(1))
    }
}

/// The encoding of the entries after the first.
pub open spec fn enc_more_members(ps: Seq<(Seq<char>, SpecValue)>) -> Seq<char>
    decreases ps, 2int,
{
    if ps.len() == 0 {
        Seq::empty()
    } else {
        proof {
            assert(decreases_to!(ps => ps[0]));
            assert(decreases_to!(ps => ps.skip(1)));
        }
        seq![','] + enc_member(ps[0]) + enc_more_members(ps.skip(1))
    }
}

/// The encoding of a whole store: a JSON object document.
pub open spec fn enc_document(ps: Seq<(Seq<char>, SpecValue)>) -> Seq<char> {
    seq!['{'] + enc_members(ps) + seq!['}']
}

/// JSON inter-token whitespace.
pub open spec fn is_ws(c: char) -> bool {
    c == ' ' || c == '\t' || c == '\n' || c == '\r'
}

/// The first index at or after `i` that does not hold whitespace.
pub open spec fn skip_ws(s: Seq<char>, i: int) -> int
    decreases s.len() - i,
{
    if 0 <= i < s.len() && is_ws(s[i]) {
        skip_ws(s, i + 1)
    } else {
        i
    }
}

/// One past the end of the run of number characters that starts at `i`.
pub open spec fn spec_scan_number(s: Seq<char>, i: int) -> int
    decreases s.len() - i,
{
    if 0 <= i < s.len() && spec_is_number_char(s[i]) {
        spec_scan_number(s, i + 1)
    } else {
        i
    }
}

/// The meaning of a two-character escape, if it is one.
pub open spec fn spec_unescape(c: char) -> Option<char> {
    if c == '"' {
        Some('"')
    } else if c == '\\' {
        Some('\\')
    } else if c == '/' {
        Some('/')
    } else if c == 'b' {
        Some(char_of_code(8))
    } else if c == 'f' {
        Some(char_of_code(12))
    } else if c == 'n' {
        Some('\n')
    } else if c == 'r' {
        Some('\r')
    } else if c == 't' {
        Some('\t')
    } else {
        None
    }
}

/// The code of the four hexadecimal digits at `i`, assuming they are ones.
pub open spec fn spec_hex4(s: Seq<char>, i: int) -> int {
    ((spec_hex_val(s[i]) * 16 + spec_hex_val(s[i + 1])) * 16 + spec_hex_val(s[i + 2])) * 16
        + spec_hex_val(s[i + 3])
}

/// Whether the four characters at `i` are hexadecimal digits.
pub open spec fn spec_hex4_ok(s: Seq<char>, i: int) -> bool {
    &&& i + 4 <= s.len()
    &&& spec_hex_val(s[i]) >= 0
    &&& spec_hex_val(s[i + 1]) >= 0
    &&& spec_hex_val(s[i + 2]) >= 0
    &&& spec_hex_val(s[i + 3]) >= 0
}

/// Parse the contents of a JSON string literal from `i` up to its closing
/// quote; yields the text and the index after the quote.
pub open spec fn spec_parse_string(s: Seq<char>, i: int) -> Option<(Seq<char>, int)>
    decreases s.len() - i,
{
    if !(0 <= i < s.len()) {
        None
    } else {
        let c = s[i];
        if c == '"' {
            Some((Seq::empty(), i + 1))
        } else if c == '\\' {
            if i + 1 >= s.len() {
                None
            } else if s[i + 1] == 'u' {
                if spec_hex4_ok(s, i + 2) {
                    let code = spec_hex4(s, i + 2);
                    if 0xD800 <= code && code < 0xE000 {
                        None
                    } else {
                        match spec_parse_string(s, i + 6) {
                            Some((t, k)) => Some((t.insert(0, char_of_code(code)), k)),
                            None => None,
                        }
                    }
                } else {
                    None
                }
            } else {
                match spec_unescape(s[i + 1]) {
                    Some(c2) => match spec_parse_string(s, i + 2) {
                        Some((t, k)) => Some((t.insert(0, c2), k)),
                        None => None,
                    },
                    None => None,
                }
            }
        } else if (c as u32) < 0x20 {
            None
        } else {
            match spec_parse_string(s, i + 1) {
                Some((t, k)) => Some((t.insert(0, c), k)),
                None => None,
            }
        }
    }
}

/// Parse one value, skipping leading whitespace.
pub open spec fn spec_parse_value(s: Seq<char>, i: int) -> Option<(SpecValue, int)>
    decreases s.len() - i, 0int,
{
    let j = skip_ws(s, i);
    if j < i || j >= s.len() {
        None
    } else {
        let c = s[j];
        if c == 'n' {
            if j + 4 <= s.len() && s[j + 1] == 'u' && s[j + 2] == 'l' && s[j + 3] == 'l' {
                Some((SpecValue::Null, j + 4))
            } else {
                None
            }
        } else if c == 't' {
            if j + 4 <= s.len() && s[j + 1] == 'r' && s[j + 2] == 'u' && s[j + 3] == 'e' {
                Some((SpecValue::Boolean(true), j + 4))
            } else {
                None
            }
        } else if c == 'f' {
            if j + 5 <= s.len() && s[j + 1] == 'a' && s[j + 2] == 'l' && s[j + 3] == 's' && s[j + 4]
                == 'e' {
                Some((SpecValue::Boolean(false), j + 5))
            } else {
                None
            }
        } else if c == '"' {
            match spec_parse_string(s, j + 1) {
                Some((t, k)) => Some((SpecValue::Text(t), k)),
                None => None,
            }
        } else if c == '[' {
            match spec_parse_elems(s, j + 1) {
                Some((es, k)) => Some((SpecValue::Array(es), k)),
                None => None,
            }
        } else if c == '{' {
            match spec_parse_members(s, j + 1) {
                Some((ps, k)) => Some((SpecValue::Object(ps), k)),
                None => None,
            }
        } else if c == '-' || spec_is_digit(c) {
            let e = spec_scan_number(s, j);
            if is_json_number(s.subrange(j, e)) {
                Some((SpecValue::Number(s.subrange(j, e)), e))
            } else {
                None
            }
        } else {
            None
        }
    }
}

/// Parse the elements of an array after its `[`.
pub open spec fn spec_parse_elems(s: Seq<char>, i: int) -> Option<(Seq<SpecValue>, int)>
    decreases s.len() - i, 2int,
{
    let j = skip_ws(s, i);
    if j < i || j >= s.len() {
        None
    } else if s[j] == ']' {
        Some((Seq::empty(), j + 1))
    } else {
        match spec_parse_value(s, j) {
            Some((v, k)) => if k <= j || k > s.len() {
                None
            } else {
                match spec_parse_more_elems(s, k) {
                    Some((es, m)) => Some((es.insert(0, v), m)),
                    None => None,
                }
            },
            None => None,
        }
    }
}

/// Parse `, value` repetitions or the closing `]` of an array.
pub open spec fn spec_parse_more_elems(s: Seq<char>, i: int) -> Option<(Seq<SpecValue>, int)>
    decreases s.len() - i, 2int,
{
    let j = skip_ws(s, i);
    if j < i || j >= s.len() {
        None
    } else if s[j] == ']' {
        Some((Seq::empty(), j + 1))
    } else if s[j] == ',' {
        match spec_parse_value(s, j + 1) {
            Some((v, k)) => if k <= j + 1 || k > s.len() {
                None
            } else {
                match spec_parse_more_elems(s, k) {
                    Some((es, m)) => Some((es.insert(0, v), m)),
                    None => None,
                }
            },
            None => None,
        }
    } else {
        None
    }
}

/// Parse one `"key" : value` entry from its opening quote.
pub open spec fn spec_parse_member(s: Seq<char>, i: int) -> Option<((Seq<char>, SpecValue), int)>
    decreases s.len() - i, 1int,
{
    if !(0 <= i < s.len()) || s[i] != '"' {
        None
    } else {
        match spec_parse_string(s, i + 1) {
            Some((key, k)) => if k <= i + 1 {
                None
            } else {
                let j2 = skip_ws(s, k);
                if j2 < k || j2 >= s.len() {
                    None
                } else if s[j2] == ':' {
                    match spec_parse_value(s, j2 + 1) {
                        Some((v, k2)) => if k2 <= j2 {
                            None
                        } else {
                            Some(((key, v), k2))
                        },
                        None => None,
                    }
                } else {
                    None
                }
            },
            None => None,
        }
    }
}

/// Parse the entries of an object after its `{`.
pub open spec fn spec_parse_members(
    s: Seq<char>,
    i: int,
) -> Option<(Seq<(Seq<char>, SpecValue)>, int)>
    decreases s.len() - i, 2int,
{
    let j = skip_ws(s, i);
    if j < i || j >= s.len() {
        None
    } else if s[j] == '}' {
        Some((Seq::empty(), j + 1))
    } else {
        match spec_parse_member(s, j) {
            Some((p, k)) => if k <= j || k > s.len() {
                None
            } else {
                match spec_parse_more_members(s, k) {
                    Some((ps, m)) => Some((ps.insert(0, p), m)),
                    None => None,
                }
            },
            None => None,
        }
    }
}

/// Parse `, "key" : value` repetitions or the closing `}` of an object.
pub open spec fn spec_parse_more_members(
    s: Seq<char>,
    i: int,
) -> Option<(Seq<(Seq<char>, SpecValue)>, int)>
    decreases s.len() - i, 2int,
{
    let j = skip_ws(s, i);
    if j < i || j >= s.len() {
        None
    } else if s[j] == '}' {
        Some((Seq::empty(), j + 1))
    } else if s[j] == ',' {
        let j2 = skip_ws(s, j + 1);
        if j2 < j + 1 || j2 >= s.len() {
            None
        } else {
            match spec_parse_member(s, j2) {
                Some((p, k)) => if k <= j2 || k > s.len() {
                    None
                } else {
                    match spec_parse_more_members(s, k) {
                        Some((ps, m)) => Some((ps.insert(0, p), m)),
                        None => None,
                    }
                },
                None => None,
            }
        }
    } else {
        None
    }
}

/// Parse a whole store document: a single JSON object, possibly surrounded
/// by whitespace, covering the entire input.
pub open spec fn spec_parse_document(s: Seq<char>) -> Option<Seq<(Seq<char>, SpecValue)>> {
    let j = skip_ws(s, 0);
    if j < 0 || j >= s.len() {
        None
    } else if s[j] == '{' {
        match spec_parse_members(s, j + 1) {
            Some((ps, k)) => if 0 <= k <= s.len() && skip_ws(s, k) == s.len() {
                Some(ps)
            } else {
                None
            },
            None => None,
        }
    } else {
        None
    }
}

/// Appending a character extends the string encoding by that character's
/// encoding.
pub proof fn lemma_enc_string_push(t: Seq<char>, c: char)
    ensures
        enc_string(t.push(c)) == enc_string(t) + enc_char(c),
    decreases t.len(),
{
    if t.len() == 0 {
        reveal_with_fuel(enc_string, 3);
        assert(t.push(c)[0] == c);
        assert(t.push(c).skip(1) =~= Seq::<char>::empty());
        assert(enc_string(t.push(c)) =~= enc_string(t) + enc_char(c));
    } else {
        assert(t.push(c)[0] == t[0]);
        assert(t.push(c).skip(1) =~= t.skip(1).push(c));
        lemma_enc_string_push(t.skip(1), c);
        assert(enc_string(t.push(c)) == enc_char(t[0]) + enc_string(t.skip(1).push(c)));
        assert(enc_string(t) == enc_char(t[0]) + enc_string(t.skip(1)));
        assert(enc_string(t.push(c)) =~= enc_string(t) + enc_char(c));
    }
}

/// Appending an element extends the tail encoding of an array.
pub proof fn lemma_enc_more_elems_push(es: Seq<SpecValue>, x: SpecValue)
    ensures
        enc_more_elems(es.push(x)) == enc_more_elems(es) + seq![','] + enc_value(x),
    decreases es.len(),
{
    if es.len() == 0 {
        reveal_with_fuel(enc_more_elems, 3);
        assert(es.push(x)[0] == x);
        assert(es.push(x).skip(1) =~= Seq::<SpecValue>::empty());
        assert(enc_more_elems(es.push(x)) =~= enc_more_elems(es) + seq![','] + enc_value(x));
    } else {
        assert(es.push(x)[0] == es[0]);
        assert(es.push(x).skip(1) =~= es.skip(1).push(x));
        lemma_enc_more_elems_push(es.skip(1), x);
        assert(enc_more_elems(es.push(x)) == seq![','] + enc_value(es[0]) + enc_more_elems(
            es.skip(1).push(x),
        ));
        assert(enc_more_elems(es) == seq![','] + enc_value(es[0]) + enc_more_elems(es.skip(1)));
        assert(enc_more_elems(es.push(x)) =~= enc_more_elems(es) + seq![','] + enc_value(x));
    }
}

/// Appending an element extends the encoding of an array.
pub proof fn lemma_enc_elems_push(es: Seq<SpecValue>, x: SpecValue)
    ensures
        enc_elems(es.push(x)) == if es.len() == 0 {
            enc_value(x)
        } else {
            enc_elems(es) + seq![','] + enc_value(x)
        },
{
    if es.len() == 0 {
        assert(es.push(x)[0] == x);
        assert(es.push(x).skip(1) =~= Seq::<SpecValue>::empty());
        assert(enc_elems(es.push(x)) =~= enc_value(x));
    } else {
        assert(es.push(x)[0] == es[0]);
        assert(es.push(x).skip(1) =~= es.skip(1).push(x));
        lemma_enc_more_elems_push(es.skip(1), x);
        assert(enc_elems(es.push(x)) =~= enc_elems(es) + seq![','] + enc_value(x));
    }
}

/// Appending an entry extends the tail encoding of an object.
pub proof fn lemma_enc_more_members_push(ps: Seq<(Seq<char>, SpecValue)>, p: (Seq<char>, SpecValue))
    ensures
        enc_more_members(ps.push(p)) == enc_more_members(ps) + seq![','] + enc_member(p),
    decreases ps.len(),
{
    if ps.len() == 0 {
        reveal_with_fuel(enc_more_members, 3);
        assert(ps.push(p)[0] == p);
        assert(ps.push(p).skip(1) =~= Seq::<(Seq<char>, SpecValue)>::empty());
        assert(enc_more_members(ps.push(p)) =~= enc_more_members(ps) + seq![','] + enc_member(p));
    } else {
        assert(ps.push(p)[0] == ps[0]);
        assert(ps.push(p).skip(1) =~= ps.skip(1).push(p));
        lemma_enc_more_members_push(ps.skip(1), p);
        assert(enc_more_members(ps.push(p)) == seq![','] + enc_member(ps[0]) + enc_more_members(
            ps.skip(1).push(p),
        ));
        assert(enc_more_members(ps) == seq![','] + enc_member(ps[0]) + enc_more_members(
            ps.skip(1),
        ));
        assert(enc_more_members(ps.push(p)) =~= enc_more_members(ps) + seq![','] + enc_member(p));
    }
}

/// Appending an entry extends the encoding of an object.
pub proof fn lemma_enc_members_push(ps: Seq<(Seq<char>, SpecValue)>, p: (Seq<char>, SpecValue))
    ensures
        enc_members(ps.push(p)) == if ps.len() == 0 {
            enc_member(p)
        } else {
            enc_members(ps) + seq![','] + enc_member(p)
        },
{
    if ps.len() == 0 {
        assert(ps.push(p)[0] == p);
        assert(ps.push(p).skip(1) =~= Seq::<(Seq<char>, SpecValue)>::empty());
        assert(enc_members(ps.push(p)) =~= enc_member(p));
    } else {
        assert(ps.push(p)[0] == ps[0]);
        assert(ps.push(p).skip(1) =~= ps.skip(1).push(p));
        lemma_enc_more_members_push(ps.skip(1), p);
        assert(enc_members(ps.push(p)) =~= enc_members(ps) + seq![','] + enc_member(p));
    }
}

/// Decide the digit predicate.
fn is_digit_x(c: char) -> (r: bool)
    ensures
        r == spec_is_digit(c),
{
    let n = c as u32;
    48 <= n && n <= 57
}

/// One past the end of the run of decimal digits that starts at `i`.
fn scan_digits_x(s: &Vec<char>, i: usize) -> (r: usize)
    requires
        i <= s@.len(),
    ensures
        r as int == crate::value::spec_scan_digits(s@, i as int),
        i <= r <= s@.len(),
{
    let mut r = i;
    while r < s.len()
        invariant
            i <= r <= s@.len(),
            crate::value::spec_scan_digits(s@, i as int) == crate::value::spec_scan_digits(
                s@,
                r as int,
            ),
        decreases s@.len() - r,
    {
        if !is_digit_x(s[r]) {
            return r;
        }
        r = r + 1;
    }
    r
}

/// Decide the JSON number grammar.
pub fn check_json_number(s: &Vec<char>) -> (r: bool)
    ensures
        r == is_json_number(s@),
{
    let n = s.len();
    let start: usize = if n > 0 && s[0] == '-' {
        1
    } else {
        0
    };
    let a = scan_digits_x(s, start);
    if a == start {
        return false;
    }
    if s[start] == '0' && a > start + 1 {
        return false;
    }
    let b: usize = if a < n && s[a] == '.' {
        let e = scan_digits_x(s, a + 1);
        if e > a + 1 {
            e
        } else {
            return false;
        }
    } else {
        a
    };
    let c: usize = if b < n && (s[b] == 'e' || s[b] == 'E') {
        let j: usize = if b + 1 < n && (s[b + 1] == '+' || s[b + 1] == '-') {
            b + 2
        } else {
            b + 1
        };
        let e = scan_digits_x(s, j);
        if e > j {
            e
        } else {
            return false;
        }
    } else {
        b
    };
    c == n
}

/// The character of a hexadecimal digit, lower case.
fn hex_char(d: u8) -> (c: char)
    requires
        d < 16,
    ensures
        c == char_of_hex(d as int),
{
    if d < 10 {
        (48 + d) as char
    } else {
        (87 + d) as char
    }
}

/// Append the encoding of a JSON string literal, quotes included.
#[verifier::loop_isolation(false)]
fn encode_string_into(t: &str, out: &mut Vec<char>)
    ensures
        final(out)@ == old(out)@ + seq!['"'] + enc_string(t@) + seq!['"'],
{
    out.push('"');
    let n = t.unicode_len();
    let mut i: usize = 0;
    while i < n
        invariant
            n == t@.len(),
            i <= n,
            out@ == old(out)@ + seq!['"'] + enc_string(t@.take(i as int)),
        decreases n - i,
    {
        let c = t.get_char(i);
        let code = c as u32;
        if c == '"' {
            out.push('\\');
            out.push('"');
        } else if c == '\\' {
            out.push('\\');
            out.push('\\');
        } else if code < 0x20 {
            out.push('\\');
            out.push('u');
            out.push('0');
            out.push('0');
            let hi = (code / 16) as u8;
            let lo = (code % 16) as u8;
            out.push(hex_char(hi));
            out.push(hex_char(lo));
        } else {
            out.push(c);
        }
        proof {
            assert(t@.take(i as int).push(t@[i as int]) =~= t@.take(i + 1));
            lemma_enc_string_push(t@.take(i as int), t@[i as int]);
            assert(out@ =~= old(out)@ + seq!['"'] + enc_string(t@.take(i + 1)));
        }
        i = i + 1;
    }
    proof {
        assert(t@.take(n as int) =~= t@);
    }
    out.push('"');
    proof {
        assert(out@ =~= old(out)@ + seq!['"'] + enc_string(t@) + seq!['"']);
    }
}

/// Append the encoding of a value; fails exactly when the value holds an
/// invalid number lexeme.
#[verifier::loop_isolation(false)]
#[verifier::rlimit(60)]
fn encode_value_into(v: &Value, out: &mut Vec<char>) -> (ok: bool)
    ensures
        ok == v.view().wf(),
        ok ==> final(out)@ == old(out)@ + enc_value(v.view()),
    decreases *v,
{
    match v {
        Value::Null => {
            out.push('n');
            out.push('u');
            out.push('l');
            out.push('l');
            proof {
                assert(out@ =~= old(out)@ + enc_value(v.view()));
                assert(v.view().wf());
            }
            true
        }
        Value::Boolean(b) => {
            if *b {
                out.push('t');
                out.push('r');
                out.push('u');
                out.push('e');
            } else {
                out.push('f');
                out.push('a');
                out.push('l');
                out.push('s');
                out.push('e');
            }
            proof {
                assert(out@ =~= old(out)@ + enc_value(v.view()));
                assert(v.view().wf());
            }
            true
        }
        Value::Number(s) => {
            let mut cs = crate::text::str_to_chars(s.as_str());
            if check_json_number(&cs) {
                out.append(&mut cs);
                proof {
                    assert(out@ =~= old(out)@ + enc_value(v.view()));
                    assert(v.view().wf());
                }
                true
            } else {
                proof {
                    assert(!v.view().wf());
                }
                false
            }
        }
        Value::Text(s) => {
            encode_string_into(s.as_str(), out);
            proof {
                assert(out@ =~= old(out)@ + enc_value(v.view()));
                assert(v.view().wf());
            }
            true
        }
        Value::Array(vs) => {
            let ghost es = Value::view_seq(vs@);
            proof {
                crate::value::lemma_view_seq_index(vs@);
            }
            out.push('[');
            let mut i: usize = 0;
            while i < vs.len()
                invariant
                    i <= vs@.len(),
                    out@ == old(out)@ + seq!['['] + enc_elems(es.take(i as int)),
                    forall|j: int| 0 <= j < i ==> #[trigger] es[j].wf(),
                decreases vs@.len() - i,
            {
                proof {
                    assert(decreases_to!(*v => v->Array_0));
                    assert(decreases_to!(*vs => vs@));
                    assert(decreases_to!(vs@ => vs@[i as int]));
                }
                if i > 0 {
                    out.push(',');
                }
                let ok = encode_value_into(&vs[i], out);
                if !ok {
                    proof {
                        crate::value::lemma_wf_seq_index(es);
                        assert(!SpecValue::wf_seq(es));
                        assert(!v.view().wf());
                    }
                    return false;
                }
                proof {
                    assert(es.take(i as int).push(es[i as int]) =~= es.take(i + 1));
                    lemma_enc_elems_push(es.take(i as int), es[i as int]);
                    assert(out@ =~= old(out)@ + seq!['['] + enc_elems(es.take(i + 1)));
                }
                i = i + 1;
            }
            out.push(']');
            proof {
                assert(es.take(vs@.len() as int) =~= es);
                crate::value::lemma_wf_seq_index(es);
                assert(SpecValue::wf_seq(es));
                assert(v.view().wf());
                assert(out@ =~= old(out)@ + enc_value(v.view()));
            }
            true
        }
        Value::Object(ps) => {
            let ghost pp = Value::view_pairs(ps@);
            proof {
                crate::value::lemma_view_pairs_index(ps@);
            }
            out.push('{');
            let mut i: usize = 0;
            while i < ps.len()
                invariant
                    i <= ps@.len(),
                    out@ == old(out)@ + seq!['{'] + enc_members(pp.take(i as int)),
                    forall|j: int| 0 <= j < i ==> #[trigger] pp[j].1.wf(),
                decreases ps@.len() - i,
            {
                proof {
                    assert(decreases_to!(*v => v->Object_0));
                    assert(decreases_to!(*ps => ps@));
                    assert(decreases_to!(ps@ => ps@[i as int]));
                    assert(decreases_to!(ps@[i as int] => ps@[i as int].1));
                }
                if i > 0 {
                    out.push(',');
                }
                encode_string_into(ps[i].0.as_str(), out);
                out.push(':');
                let ok = encode_value_into(&ps[i].1, out);
                if !ok {
                    proof {
                        assert(Value::view_pairs(ps@)[i as int].1 == ps@[i as int].1.view());
                        crate::value::lemma_wf_pairs_index(pp);
                        assert(!SpecValue::wf_pairs(pp));
                        assert(!v.view().wf());
                    }
                    return false;
                }
                proof {
                    assert(pp.take(i as int).push(pp[i as int]) =~= pp.take(i + 1));
                    lemma_enc_members_push(pp.take(i as int), pp[i as int]);
                    assert(out@ =~= old(out)@ + seq!['{'] + enc_members(pp.take(i + 1)));
                }
                i = i + 1;
            }
            out.push('}');
            proof {
                assert(pp.take(ps@.len() as int) =~= pp);
                crate::value::lemma_wf_pairs_index(pp);
                assert(SpecValue::wf_pairs(pp));
                assert(v.view().wf());
                assert(out@ =~= old(out)@ + enc_value(v.view()));
            }
            true
        }
    }
}

/// Serialize a store to its JSON document.
///
/// Succeeds exactly when every number lexeme in the store is valid; a
/// malformed lexeme surfaces as `JsonGeneratorError`.
#[verifier::loop_isolation(false)]
pub fn encode(m: &KvMap) -> (r: Result<String, ErrorCode>)
    ensures
        crate::kvmap::spec_unique_keys(m.pairs()),
        SpecValue::wf_pairs(m.pairs()) ==> r is Ok && r->Ok_0@ == enc_document(m.pairs()),
        !SpecValue::wf_pairs(m.pairs()) ==> r == Err::<String, ErrorCode>(
            ErrorCode::JsonGeneratorError,
        ),
{
    let es = m.entries_ref();
    let ghost pp = m.pairs();
    proof {
        crate::value::lemma_view_pairs_index(es@);
    }
    let mut out: Vec<char> = Vec::new();
    out.push('{');
    let mut i: usize = 0;
    while i < es.len()
        invariant
            i <= es@.len(),
            out@ == seq!['{'] + enc_members(pp.take(i as int)),
            forall|j: int| 0 <= j < i ==> #[trigger] pp[j].1.wf(),
        decreases es@.len() - i,
    {
        if i > 0 {
            out.push(',');
        }
        encode_string_into(es[i].0.as_str(), &mut out);
        out.push(':');
        let ok = encode_value_into(&es[i].1, &mut out);
        if !ok {
            proof {
                assert(Value::view_pairs(es@)[i as int].1 == es@[i as int].1.view());
                crate::value::lemma_wf_pairs_index(pp);
                assert(!SpecValue::wf_pairs(pp));
            }
            return Err(ErrorCode::JsonGeneratorError);
        }
        proof {
            assert(pp.take(i as int).push(pp[i as int]) =~= pp.take(i + 1));
            lemma_enc_members_push(pp.take(i as int), pp[i as int]);
            assert(out@ =~= seq!['{'] + enc_members(pp.take(i + 1)));
        }
        i = i + 1;
    }
    out.push('}');
    proof {
        assert(pp.take(es@.len() as int) =~= pp);
        crate::value::lemma_wf_pairs_index(pp);
        assert(SpecValue::wf_pairs(pp));
        assert(out@ =~= enc_document(pp));
    }
    Ok(crate::text::chars_to_string(&out))
}

/// Whether a character can occur inside a number lexeme.
fn is_number_char_x(c: char) -> (r: bool)
    ensures
        r == spec_is_number_char(c),
{
    is_digit_x(c) || c == '-' || c == '+' || c == '.' || c == 'e' || c == 'E'
}

/// The first index at or after `i` that does not hold whitespace.
fn skip_ws_x(s: &Vec<char>, i: usize) -> (r: usize)
    requires
        i <= s@.len(),
    ensures
        r as int == skip_ws(s@, i as int),
        i <= r <= s@.len(),
{
    let mut r = i;
    while r < s.len()
        invariant
            i <= r <= s@.len(),
            skip_ws(s@, i as int) == skip_ws(s@, r as int),
        decreases s@.len() - r,
    {
        let c = s[r];
        if !(c == ' ' || c == '\t' || c == '\n' || c == '\r') {
            return r;
        }
        r = r + 1;
    }
    r
}

/// One past the end of the run of number characters that starts at `i`.
fn scan_number_x(s: &Vec<char>, i: usize) -> (r: usize)
    requires
        i <= s@.len(),
    ensures
        r as int == spec_scan_number(s@, i as int),
        i <= r <= s@.len(),
{
    let mut r = i;
    while r < s.len()
        invariant
            i <= r <= s@.len(),
            spec_scan_number(s@, i as int) == spec_scan_number(s@, r as int),
        decreases s@.len() - r,
    {
        if !is_number_char_x(s[r]) {
            return r;
        }
        r = r + 1;
    }
    r
}

/// The value of a hexadecimal digit character, or `-1`.
fn hex_val_x(c: char) -> (r: i32)
    ensures
        r as int == spec_hex_val(c),
{
    let n = c as u32;
    if 48 <= n && n <= 57 {
        (n - 48) as i32
    } else if 97 <= n && n <= 102 {
        (n - 87) as i32
    } else if 65 <= n && n <= 70 {
        (n - 55) as i32
    } else {
        -1
    }
}

/// Parse the contents of a JSON string literal from `i` up to its closing
/// quote.
fn parse_string_x(s: &Vec<char>, i: usize) -> (r: Option<(Vec<char>, usize)>)
    requires
        i <= s@.len(),
    ensures
        match r {
            Some((t, k)) => spec_parse_string(s@, i as int) == Some((t@, k as int)) && i < k
                <= s@.len(),
            None => spec_parse_string(s@, i as int) is None,
        },
    decreases s@.len() - i,
{
    if i >= s.len() {
        return None;
    }
    let c = s[i];
    if c == '"' {
        let t: Vec<char> = Vec::new();
        proof {
            assert(t@ =~= Seq::<char>::empty());
        }
        Some((t, i + 1))
    } else if c == '\\' {
        if s.len() - i < 2 {
            return None;
        }
        if s[i + 1] == 'u' {
            if s.len() - i >= 6 {
                let h0 = hex_val_x(s[i + 2]);
                let h1 = hex_val_x(s[i + 3]);
                let h2 = hex_val_x(s[i + 4]);
                let h3 = hex_val_x(s[i + 5]);
                if h0 >= 0 && h1 >= 0 && h2 >= 0 && h3 >= 0 {
                    let code: u32 = ((((h0 as u32) * 16 + (h1 as u32)) * 16 + (h2 as u32)) * 16 + (
                    h3 as u32));
                    if 0xD800 <= code && code < 0xE000 {
                        None
                    } else {
                        proof {
                            assert(crate::text::is_scalar_code(code));
                        }
                        match crate::text::char_from_u32(code) {
                            Some(c2) => {
                                match parse_string_x(s, i + 6) {
                                    Some((t, k)) => {
                                        let mut t = t;
                                        t.insert(0, c2);
                                        proof {
                                            assert(c2 == char_of_code(code as int));
                                        }
                                        Some((t, k))
                                    }
                                    None => None,
                                }
                            }
                            None => {
                                // unreachable: the code point was checked
                                // to be a scalar value
                                proof {
                                    assert(false);
                                }
                                None
                            }
                        }
                    }
                } else {
                    None
                }
            } else {
                None
            }
        } else {
            let e = s[i + 1];
            let c2: char = if e == '"' {
                '"'
            } else if e == '\\' {
                '\\'
            } else if e == '/' {
                '/'
            } else if e == 'b' {
                8u8 as char
            } else if e == 'f' {
                12u8 as char
            } else if e == 'n' {
                '\n'
            } else if e == 'r' {
                '\r'
            } else if e == 't' {
                '\t'
            } else {
                return None;
            };
            proof {
                assert(spec_unescape(s@[i + 1]) == Some(c2));
            }
            match parse_string_x(s, i + 2) {
                Some((t, k)) => {
                    let mut t = t;
                    t.insert(0, c2);
                    Some((t, k))
                }
                None => None,
            }
        }
    } else if (c as u32) < 0x20 {
        None
    } else {
        match parse_string_x(s, i + 1) {
            Some((t, k)) => {
                let mut t = t;
                t.insert(0, c);
                Some((t, k))
            }
            None => None,
        }
    }
}

/// Parse one value, skipping leading whitespace.
#[verifier::rlimit(60)]
fn parse_value_x(s: &Vec<char>, i: usize) -> (r: Option<(Value, usize)>)
    requires
        i <= s@.len(),
    ensures
        match r {
            Some((v, k)) => spec_parse_value(s@, i as int) == Some((v.view(), k as int)) && i < k
                <= s@.len(),
            None => spec_parse_value(s@, i as int) is None,
        },
    decreases s@.len() - i, 0int,
{
    let j = skip_ws_x(s, i);
    if j >= s.len() {
        return None;
    }
    let c = s[j];
    if c == 'n' {
        if s.len() - j >= 4 && s[j + 1] == 'u' && s[j + 2] == 'l' && s[j + 3] == 'l' {
            Some((Value::Null, j + 4))
        } else {
            None
        }
    } else if c == 't' {
        if s.len() - j >= 4 && s[j + 1] == 'r' && s[j + 2] == 'u' && s[j + 3] == 'e' {
            Some((Value::Boolean(true), j + 4))
        } else {
            None
        }
    } else if c == 'f' {
        if s.len() - j >= 5 && s[j + 1] == 'a' && s[j + 2] == 'l' && s[j + 3] == 's' && s[j + 4]
            == 'e' {
            Some((Value::Boolean(false), j + 5))
        } else {
            None
        }
    } else if c == '"' {
        match parse_string_x(s, j + 1) {
            Some((t, k)) => Some((Value::Text(crate::text::chars_to_string(&t)), k)),
            None => None,
        }
    } else if c == '[' {
        match parse_elems_x(s, j + 1) {
            Some((es, k)) => Some((Value::Array(es), k)),
            None => None,
        }
    } else if c == '{' {
        match parse_members_x(s, j + 1) {
            Some((ps, k)) => Some((Value::Object(ps), k)),
            None => None,
        }
    } else if c == '-' || is_digit_x(c) {
        let e = scan_number_x(s, j);
        let mut lex: Vec<char> = Vec::new();
        let mut q = j;
        while q < e
            invariant
                j <= q <= e <= s@.len(),
                lex@ == s@.subrange(j as int, q as int),
            decreases e - q,
        {
            lex.push(s[q]);
            proof {
                assert(lex@ =~= s@.subrange(j as int, q + 1));
            }
            q = q + 1;
        }
        if check_json_number(&lex) {
            Some((Value::Number(crate::text::chars_to_string(&lex)), e))
        } else {
            None
        }
    } else {
        None
    }
}

/// Parse the elements of an array after its `[`.
fn parse_elems_x(s: &Vec<char>, i: usize) -> (r: Option<(Vec<Value>, usize)>)
    requires
        i <= s@.len(),
    ensures
        match r {
            Some((es, k)) => spec_parse_elems(s@, i as int) == Some(
                (Value::view_seq(es@), k as int),
            ) && i < k <= s@.len(),
            None => spec_parse_elems(s@, i as int) is None,
        },
    decreases s@.len() - i, 2int,
{
    let j = skip_ws_x(s, i);
    if j >= s.len() {
        return None;
    }
    if s[j] == ']' {
        let es: Vec<Value> = Vec::new();
        proof {
            assert(Value::view_seq(es@) =~= Seq::<SpecValue>::empty());
        }
        return Some((es, j + 1));
    }
    match parse_value_x(s, j) {
        Some((v, k)) => {
            if k <= j {
                return None;
            }
            match parse_more_elems_x(s, k) {
                Some((es, m)) => {
                    let mut es = es;
                    let ghost es0 = es@;
                    es.insert(0, v);
                    proof {
                        assert(es@ =~= es0.insert(0, v));
                        lemma_view_seq_insert0(es0, v);
                    }
                    Some((es, m))
                }
                None => None,
            }
        }
        None => None,
    }
}

/// Parse `, value` repetitions or the closing `]` of an array.
fn parse_more_elems_x(s: &Vec<char>, i: usize) -> (r: Option<(Vec<Value>, usize)>)
    requires
        i <= s@.len(),
    ensures
        match r {
            Some((es, k)) => spec_parse_more_elems(s@, i as int) == Some(
                (Value::view_seq(es@), k as int),
            ) && i < k <= s@.len(),
            None => spec_parse_more_elems(s@, i as int) is None,
        },
    decreases s@.len() - i, 2int,
{
    let j = skip_ws_x(s, i);
    if j >= s.len() {
        return None;
    }
    if s[j] == ']' {
        let es: Vec<Value> = Vec::new();
        proof {
            assert(Value::view_seq(es@) =~= Seq::<SpecValue>::empty());
        }
        return Some((es, j + 1));
    }
    if s[j] == ',' {
        match parse_value_x(s, j + 1) {
            Some((v, k)) => {
                if k <= j + 1 {
                    return None;
                }
                match parse_more_elems_x(s, k) {
                    Some((es, m)) => {
                        let mut es = es;
                        let ghost es0 = es@;
                        es.insert(0, v);
                        proof {
                            assert(es@ =~= es0.insert(0, v));
                            lemma_view_seq_insert0(es0, v);
                        }
                        Some((es, m))
                    }
                    None => None,
                }
            }
            None => None,
        }
    } else {
        None
    }
}

/// Parse one `"key" : value` entry from its opening quote.
fn parse_member_x(s: &Vec<char>, i: usize) -> (r: Option<((String, Value), usize)>)
    requires
        i <= s@.len(),
    ensures
        match r {
            Some((p, k)) => spec_parse_member(s@, i as int) == Some(
                ((p.0@, p.1.view()), k as int),
            ) && i < k <= s@.len(),
            None => spec_parse_member(s@, i as int) is None,
        },
    decreases s@.len() - i, 1int,
{
    if i >= s.len() || s[i] != '"' {
        return None;
    }
    match parse_string_x(s, i + 1) {
        Some((key, k)) => {
            let j2 = skip_ws_x(s, k);
            if j2 >= s.len() {
                return None;
            }
            if s[j2] == ':' {
                match parse_value_x(s, j2 + 1) {
                    Some((v, k2)) => Some(((crate::text::chars_to_string(&key), v), k2)),
                    None => None,
                }
            } else {
                None
            }
        }
        None => None,
    }
}

/// Parse the entries of an object after its `{`.
fn parse_members_x(s: &Vec<char>, i: usize) -> (r: Option<(Vec<(String, Value)>, usize)>)
    requires
        i <= s@.len(),
    ensures
        match r {
            Some((ps, k)) => spec_parse_members(s@, i as int) == Some(
                (Value::view_pairs(ps@), k as int),
            ) && i < k <= s@.len(),
            None => spec_parse_members(s@, i as int) is None,
        },
    decreases s@.len() - i, 2int,
{
    let j = skip_ws_x(s, i);
    if j >= s.len() {
        return None;
    }
    if s[j] == '}' {
        let ps: Vec<(String, Value)> = Vec::new();
        proof {
            assert(Value::view_pairs(ps@) =~= Seq::<(Seq<char>, SpecValue)>::empty());
        }
        return Some((ps, j + 1));
    }
    match parse_member_x(s, j) {
        Some((p, k)) => {
            if k <= j {
                return None;
            }
            match parse_more_members_x(s, k) {
                Some((ps, m)) => {
                    let mut ps = ps;
                    let ghost ps0 = ps@;
                    ps.insert(0, p);
                    proof {
                        assert(ps@ =~= ps0.insert(0, p));
                        lemma_view_pairs_insert0(ps0, p);
                    }
                    Some((ps, m))
                }
                None => None,
            }
        }
        None => None,
    }
}

/// Parse `, "key" : value` repetitions or the closing `}` of an object.
fn parse_more_members_x(s: &Vec<char>, i: usize) -> (r: Option<(Vec<(String, Value)>, usize)>)
    requires
        i <= s@.len(),
    ensures
        match r {
            Some((ps, k)) => spec_parse_more_members(s@, i as int) == Some(
                (Value::view_pairs(ps@), k as int),
            ) && i < k <= s@.len(),
            None => spec_parse_more_members(s@, i as int) is None,
        },
    decreases s@.len() - i, 2int,
{
    let j = skip_ws_x(s, i);
    if j >= s.len() {
        return None;
    }
    if s[j] == '}' {
        let ps: Vec<(String, Value)> = Vec::new();
        proof {
            assert(Value::view_pairs(ps@) =~= Seq::<(Seq<char>, SpecValue)>::empty());
        }
        return Some((ps, j + 1));
    }
    if s[j] == ',' {
        let j2 = skip_ws_x(s, j + 1);
        if j2 >= s.len() {
            return None;
        }
        match parse_member_x(s, j2) {
            Some((p, k)) => {
                if k <= j2 {
                    return None;
                }
                match parse_more_members_x(s, k) {
                    Some((ps, m)) => {
                        let mut ps = ps;
                        let ghost ps0 = ps@;
                        ps.insert(0, p);
                        proof {
                            assert(ps@ =~= ps0.insert(0, p));
                            lemma_view_pairs_insert0(ps0, p);
                        }
                        Some((ps, m))
                    }
                    None => None,
                }
            }
            None => None,
        }
    } else {
        None
    }
}

/// Prepending an element prepends its model.
proof fn lemma_view_seq_insert0(es: Seq<Value>, v: Value)
    ensures
        Value::view_seq(es.insert(0, v)) == Value::view_seq(es).insert(0, v.view()),
{
    let w = es.insert(0, v);
    assert(w.len() == es.len() + 1);
    assert(w[0] == v);
    assert(w.skip(1) =~= es);
}

/// Prepending an entry prepends its model.
proof fn lemma_view_pairs_insert0(ps: Seq<(String, Value)>, p: (String, Value))
    ensures
        Value::view_pairs(ps.insert(0, p)) == Value::view_pairs(ps).insert(0, (p.0@, p.1.view())),
{
    let w = ps.insert(0, p);
    assert(w.len() == ps.len() + 1);
    assert(w[0] == p);
    assert(w.skip(1) =~= ps);
}

/// Deserialize a store from the text of its JSON document.
///
/// Fails with `JsonParserError` when the text is not a single well-formed
/// JSON object document.
pub fn decode(text: &str) -> (r: Result<KvMap, ErrorCode>)
    ensures
        match spec_parse_document(text@) {
            Some(ps) => r is Ok && r->Ok_0.pairs() == crate::kvmap::spec_dedup(ps),
            None => r == Err::<KvMap, ErrorCode>(ErrorCode::JsonParserError),
        },
{
    let s = crate::text::str_to_chars(text);
    let j = skip_ws_x(&s, 0);
    if j >= s.len() {
        return Err(ErrorCode::JsonParserError);
    }
    if s[j] != '{' {
        return Err(ErrorCode::JsonParserError);
    }
    match parse_members_x(&s, j + 1) {
        Some((ps, k)) => {
            let j2 = skip_ws_x(&s, k);
            if j2 == s.len() {
                Ok(KvMap::from_entries(&ps))
            } else {
                Err(ErrorCode::JsonParserError)
            }
        }
        None => Err(ErrorCode::JsonParserError),
    }
}

} // verus!
