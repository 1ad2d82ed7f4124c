//! Character classification and string-building helpers shared by the lexers,
//! the printer and the decoder.
//!
//! Everything here is stated over `Seq<char>` views, so that the rest of the
//! crate can reason about the text it produces and consumes.

use vstd::prelude::*;
use vstd::string::StrSliceExecFns;

verus! {

/// The symbol characters that may appear in identifiers, besides ASCII
/// alphanumerics.
pub open spec fn is_ident_special_char(c: char) -> bool {
    c == '~' || c == '`' || c == '!' || c == '@' || c == '#' || c == '$' || c == '%' || c == '^'
        || c == '&' || c == '*' || c == '-' || c == '_' || c == '+' || c == '[' || c == ']'
        || c == '|' || c == ':' || c == ';' || c == '\'' || c == '"' || c == ',' || c == '<'
        || c == '>' || c == '/' || c == '?'
}

pub open spec fn is_ascii_alphanumeric_char(c: char) -> bool {
    ('a' <= c && c <= 'z') || ('A' <= c && c <= 'Z') || ('0' <= c && c <= '9')
}

pub open spec fn is_ascii_alphabetic_char(c: char) -> bool {
    ('a' <= c && c <= 'z') || ('A' <= c && c <= 'Z')
}

/// The Unicode `White_Space` characters, the set that `char::is_whitespace`
/// recognizes.
pub open spec fn is_whitespace_char(c: char) -> bool {
    c == '\t' || c == '\n' || c == '\u{b}' || c == '\u{c}' || c == '\r' || c == ' '
        || c == '\u{85}' || c == '\u{a0}' || c == '\u{1680}' || ('\u{2000}' <= c && c
        <= '\u{200a}') || c == '\u{2028}' || c == '\u{2029}' || c == '\u{202f}' || c == '\u{205f}'
        || c == '\u{3000}'
}

/// A character that may be part of an identifier in the term language.
pub open spec fn spec_ident_char(c: char) -> bool {
    is_ascii_alphanumeric_char(c) || is_ident_special_char(c)
}

pub fn exec_is_ascii_alphanumeric(c: char) -> (r: bool)
    ensures
        r == is_ascii_alphanumeric_char(c),
{
    ('a' <= c && c <= 'z') || ('A' <= c && c <= 'Z') || ('0' <= c && c <= '9')
}

pub fn exec_is_ascii_alphabetic(c: char) -> (r: bool)
    ensures
        r == is_ascii_alphabetic_char(c),
{
    ('a' <= c && c <= 'z') || ('A' <= c && c <= 'Z')
}

pub fn exec_is_whitespace(c: char) -> (r: bool)
    ensures
        r == is_whitespace_char(c),
{
    c == '\t' || c == '\n' || c == '\u{b}' || c == '\u{c}' || c == '\r' || c == ' '
        || c == '\u{85}' || c == '\u{a0}' || c == '\u{1680}' || ('\u{2000}' <= c && c
        <= '\u{200a}') || c == '\u{2028}' || c == '\u{2029}' || c == '\u{202f}' || c == '\u{205f}'
        || c == '\u{3000}'
}

/// The characters of a string slice, as a vector.
pub fn chars_of(s: &str) -> (r: Vec<char>)
    ensures
        r@ == s@,
{
    let n = s.unicode_len();
    let mut r: Vec<char> = Vec::new();
    let mut i: usize = 0;
    while i < n
        invariant
            n == s@.len(),
            i <= n,
            r@ == s@.take(i as int),
        decreases n - i,
    {
        let c = s.get_char(i);
        r.push(c);
        i = i + 1;
        proof {
            assert(r@ =~= s@.take(i as int));
        }
    }
    proof {
        assert(s@.take(n as int) =~= s@);
    }
    r
}

/// A `String` holding exactly the given characters.
///
/// Relies on `String::push`: appending one `char` to the end of a `String`.
pub assume_specification [ String::push ](s: &mut String, ch: char)
    ensures
        final(s)@ == old(s)@.push(ch),
;

/// The characters of `v` between `start` and `end`, as a `String`.
pub fn string_of_range(v: &Vec<char>, start: usize, end: usize) -> (r: String)
    requires
        start <= end <= v@.len(),
    ensures
        r@ == v@.subrange(start as int, end as int),
{
    let mut r = String::new();
    let mut i: usize = start;
    while i < end
        invariant
            start <= i <= end <= v@.len(),
            r@ == v@.subrange(start as int, i as int),
        decreases end - i,
    {
        r.push(v[i]);
        i = i + 1;
        proof {
            assert(r@ =~= v@.subrange(start as int, i as int));
        }
    }
    r
}

/// True exactly when the given range of `v` holds the characters of `lit`.
pub fn range_matches(v: &Vec<char>, start: usize, end: usize, lit: &str) -> (r: bool)
    requires
        start <= end <= v@.len(),
    ensures
        r == (v@.subrange(start as int, end as int) == lit@),
{
    let n = lit.unicode_len();
    if n != end - start {
        proof {
            assert(v@.subrange(start as int, end as int).len() == end - start);
        }
        return false;
    }
    let mut i: usize = 0;
    while i < n
        invariant
            n == lit@.len(),
            n == end - start,
            start <= end <= v@.len(),
            i <= n,
            forall|j: int| 0 <= j < i ==> v@.subrange(start as int, end as int)[j] == lit@[j],
        decreases n - i,
    {
        if v[start + i] != lit.get_char(i) {
            proof {
                assert(v@.subrange(start as int, end as int)[i as int] == v@[start + i]);
            }
            return false;
        }
        i = i + 1;
    }
    proof {
        assert(v@.subrange(start as int, end as int) =~= lit@);
    }
    true
}

/// The decimal digit for `d`.
pub open spec fn spec_digit(d: nat) -> char {
    if d == 0 {
        '0'
    } else if d == 1 {
        '1'
    } else if d == 2 {
        '2'
    } else if d == 3 {
        '3'
    } else if d == 4 {
        '4'
    } else if d == 5 {
        '5'
    } else if d == 6 {
        '6'
    } else if d == 7 {
        '7'
    } else if d == 8 {
        '8'
    } else {
        '9'
    }
}

/// The decimal rendering of `n`, most significant digit first, no leading
/// zeros (except for `n == 0` itself).
pub open spec fn spec_decimal(n: nat) -> Seq<char>
    decreases n,
{
    if n < 10 {
        seq![spec_digit(n)]
    } else {
        spec_decimal(n / 10) + seq![spec_digit(n % 10)]
    }
}

fn exec_digit(d: usize) -> (r: char)
    requires
        d < 10,
    ensures
        r == spec_digit(d as nat),
{
    (48 + d as u8) as char
}

/// The decimal rendering of `n` as a `String`.
pub fn decimal_string(n: usize) -> (r: String)
    ensures
        r@ == spec_decimal(n as nat),
    decreases n,
{
    if n < 10 {
        let mut r = String::new();
        r.push(exec_digit(n));
        proof {
            assert(r@ =~= spec_decimal(n as nat));
        }
        r
    } else {
        let mut r = decimal_string(n / 10);
        r.push(exec_digit(n % 10));
        proof {
            assert(r@ =~= spec_decimal(n as nat));
        }
        r
    }
}

} // verus!
