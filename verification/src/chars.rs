//! Character classification used by the scanner.
//!
//! Number literals recognize only the ASCII decimal digits, which have an
//! exact specification here. Identifier characters use the Unicode-aware
//! classifiers of `char`; the verifier does not read the Unicode tables, so
//! those two classifications are named, opaque predicates established by
//! trusted wrappers.

use vstd::prelude::*;

verus! {

use vstd::string::StrSliceExecFns;

/// The character buffer of a source text: each Unicode scalar value is one
/// logical unit, so multi-byte characters count as one character for all
/// span and offset purposes.
pub(crate) fn string_to_chars(s: &str) -> (v: Vec<char>)
    ensures
        v@ == s@,
{
    let n: usize = s.unicode_len();
    let mut v: Vec<char> = Vec::new();
    let mut i: usize = 0;
    while i < n
        invariant
            i <= n,
            n == s@.len(),
            v@ == s@.subrange(0, i as int),
        decreases n - i,
    {
        v.push(s.get_char(i));
        i = i + 1;
        proof {
            assert(v@ =~= s@.subrange(0, i as int));
        }
    }
    proof {
        assert(v@ =~= s@);
    }
    v
}

/// Whether `c` is an ASCII decimal digit, `'0'` through `'9'`.
pub open spec fn spec_is_digit(c: char) -> bool {
    48 <= c as u32 <= 57
}

/// ASCII decimal digit test; the only digit family number literals accept.
pub(crate) fn is_digit(c: char) -> (r: bool)
    ensures
        r == spec_is_digit(c),
{
    let u = c as u32;
    48 <= u && u <= 57
}

/// Whether `c` has the Unicode `Alphabetic` property; the class of characters
/// that may start an identifier.
pub uninterp spec fn alpha_char(c: char) -> bool;

/// Whether `c` is Unicode-alphanumeric; the class of characters that may
/// continue an identifier.
pub uninterp spec fn alnum_char(c: char) -> bool;

/// Relies on char::is_alphabetic: whether `c` has the Unicode `Alphabetic`
/// property, a function of the character alone.
#[verifier::external_body]
pub(crate) fn is_alpha(c: char) -> (r: bool)
    ensures
        r == alpha_char(c),
{
    c.is_alphabetic()
}

/// Relies on char::is_alphanumeric: whether `c` is Unicode-alphabetic or
/// Unicode-numeric, a function of the character alone.
#[verifier::external_body]
pub(crate) fn is_alnum(c: char) -> (r: bool)
    ensures
        r == alnum_char(c),
{
    c.is_alphanumeric()
}

/// Relies on `String as FromIterator<char>`: collecting the characters of
/// `buf[i..j]` yields the string holding exactly those characters in order.
#[verifier::external_body]
pub(crate) fn chars_to_string(buf: &Vec<char>, i: usize, j: usize) -> (r: String)
    requires
        i <= j,
        j <= buf@.len(),
    ensures
        r@ == buf@.subrange(i as int, j as int),
{
    buf[i..j].iter().collect()
}

} // verus!
