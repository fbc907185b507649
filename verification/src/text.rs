//! Character-level text utilities.
//!
//! The codec and the engine work on sequences of characters.  This module
//! supplies the few bridges needed between `String`/`&str` and `Vec<char>`,
//! together with decimal rendering for file names.

use vstd::prelude::*;
use vstd::string::StrSliceExecFns;

verus! {

/// Character-wise string equality.
pub fn str_eq(a: &str, b: &str) -> (r: bool)
    ensures
        r == (a@ == b@),
{
    let n = a.unicode_len();
    if n != b.unicode_len() {
        proof {
            if a@ == b@ {
                assert(a@.len() == b@.len());
            }
        }
        return false;
    }
    let mut i: usize = 0;
    while i < n
        invariant
            n == a@.len(),
            n == b@.len(),
            i <= n,
            forall|j: int| 0 <= j < i ==> a@[j] == b@[j],
        decreases n - i,
    {
        if a.get_char(i) != b.get_char(i) {
            return false;
        }
        i = i + 1;
    }
    proof {
        assert(a@ =~= b@);
    }
    true
}

/// The characters of a string slice, as a vector.
pub fn str_to_chars(s: &str) -> (v: Vec<char>)
    ensures
        v@ == s@,
{
    let n = s.unicode_len();
    let mut v: Vec<char> = Vec::new();
    let mut i: usize = 0;
    while i < n
        invariant
            n == s@.len(),
            i <= n,
            v@ == s@.subrange(0, i as int),
        decreases n - i,
    {
        v.push(s.get_char(i));
        proof {
            assert(v@ =~= s@.subrange(0, i + 1));
        }
        i = i + 1;
    }
    proof {
        assert(s@.subrange(0, n as int) =~= s@);
    }
    v
}

/// Relies on `String: FromIterator<char>` of std: collecting characters
/// builds the string of exactly those characters, in order.
#[verifier::external_body]
pub fn chars_to_string(v: &Vec<char>) -> (r: String)
    ensures
        r@ == v@,
{
    v.iter().collect()
}

/// Whether a code point is a Unicode scalar value, that is, a valid `char`.
pub open spec fn is_scalar_code(n: u32) -> bool {
    n < 0xD800 || (0xE000 <= n && n <= 0x10FFFF)
}

/// The character with code point `n`.
pub open spec fn char_of_code(n: int) -> char {
    let c: u32 = n as u32;
    c as char
}

/// Relies on `char::from_u32` of std: it returns the character with the
/// given code point, and `None` exactly for surrogates and codes above
/// the Unicode maximum.
#[verifier::external_body]
pub fn char_from_u32(n: u32) -> (r: Option<char>)
    ensures
        r is Some <==> is_scalar_code(n),
        r matches Some(c) ==> c == char_of_code(n as int) && c as u32 == n,
{
    char::from_u32(n)
}

/// The character of a decimal digit.
pub open spec fn char_of_digit(d: int) -> char {
    let c: u32 = (d + 48) as u32;
    c as char
}

/// The decimal numeral of a non-negative integer.
pub open spec fn spec_decimal(n: int) -> Seq<char>
    decreases n,
{
    if n < 0 {
        Seq::empty()
    } else if n < 10 {
        seq![char_of_digit(n)]
    } else {
        spec_decimal(n / 10).push(char_of_digit(n % 10))
    }
}

/// Append the decimal numeral of `n` to `out`.
pub fn push_decimal(out: &mut Vec<char>, n: usize)
    ensures
        final(out)@ == old(out)@ + spec_decimal(n as int),
    decreases n,
{
    if n < 10 {
        let d: u8 = (n as u8) + 48;
        out.push(d as char);
        proof {
            assert(d as char == char_of_digit(n as int));
            assert(out@ =~= old(out)@ + spec_decimal(n as int));
        }
    } else {
        push_decimal(out, n / 10);
        let d: u8 = ((n % 10) as u8) + 48;
        out.push(d as char);
        proof {
            assert(d as char == char_of_digit(n as int % 10));
            assert(out@ =~= old(out)@ + spec_decimal(n as int));
        }
    }
}

} // verus!
