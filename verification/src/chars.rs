//! Character classes and case mapping.
//!
//! ASCII characters are classified here, by comparison. For every other
//! character the standard library's Unicode tables decide; what they answer
//! is given a name and is not interpreted any further.

use vstd::prelude::*;
use vstd::string::*;

verus! {

/// What `char::is_whitespace` answers for `c`. Not interpreted: the contracts
/// of this crate rest on it only for characters beyond ASCII.
pub uninterp spec fn unicode_white_space(c: char) -> bool;

/// What `char::is_uppercase` answers for `c`. Not interpreted: the contracts
/// of this crate rest on it only for characters beyond ASCII.
pub uninterp spec fn unicode_uppercase(c: char) -> bool;

/// The characters that `char::to_uppercase` yields for `c`, in order. Not
/// interpreted: the contracts of this crate rest on it only for characters
/// beyond ASCII.
pub uninterp spec fn unicode_upper_mapping(c: char) -> Seq<char>;

/// One of the 128 ASCII characters.
pub open spec fn is_ascii(c: char) -> bool {
    c <= '\u{7f}'
}

/// `A` to `Z`.
pub open spec fn is_ascii_upper(c: char) -> bool {
    'A' <= c && c <= 'Z'
}

/// `a` to `z`.
pub open spec fn is_ascii_lower(c: char) -> bool {
    'a' <= c && c <= 'z'
}

/// `A` to `Z` or `a` to `z`.
pub open spec fn is_ascii_letter(c: char) -> bool {
    is_ascii_upper(c) || is_ascii_lower(c)
}

/// Whitespace: space, tab, line feed, vertical tab, form feed and carriage
/// return among the ASCII characters, the Unicode property beyond them.
pub open spec fn is_space(c: char) -> bool {
    if is_ascii(c) {
        c == ' ' || ('\t' <= c && c <= '\r')
    } else {
        unicode_white_space(c)
    }
}

/// An uppercase letter: `A` to `Z` among the ASCII characters, the Unicode
/// property beyond them.
pub open spec fn is_upper(c: char) -> bool {
    if is_ascii(c) {
        is_ascii_upper(c)
    } else {
        unicode_uppercase(c)
    }
}

/// The uppercase form of an ASCII character: `a` to `z` move to `A` to `Z`,
/// every other character stays.
pub open spec fn ascii_upper(c: char) -> char {
    if is_ascii_lower(c) {
        ((c as int) - 32) as char
    } else {
        c
    }
}

/// The uppercase form of a character, which may be more than one character
/// long outside ASCII.
pub open spec fn upper_of(c: char) -> Seq<char> {
    if is_ascii(c) {
        seq![ascii_upper(c)]
    } else {
        unicode_upper_mapping(c)
    }
}

/// The uppercase form of a text: that of each character, in order.
pub open spec fn uppercased(s: Seq<char>) -> Seq<char>
    decreases s.len(),
{
    if s.len() == 0 {
        Seq::empty()
    } else {
        uppercased(s.drop_last()) + upper_of(s.last())
    }
}

/// Trusted, of `String::push`: the string afterwards is the string before
/// with `ch` appended at its end.
pub assume_specification[ String::push ](s: &mut String, ch: char)
    ensures
        final(s)@ == old(s)@.push(ch),
;

/// Trusted: calls `char::is_whitespace`. Nothing is claimed of the answer
/// but that it depends on the character alone, so that it can bear the name
/// `unicode_white_space`.
#[verifier::external_body]
fn std_is_whitespace(c: char) -> (r: bool)
    ensures
        r == unicode_white_space(c),
{
    c.is_whitespace()
}

/// Trusted: calls `char::is_uppercase`. Nothing is claimed of the answer but
/// that it depends on the character alone, so that it can bear the name
/// `unicode_uppercase`.
#[verifier::external_body]
fn std_is_uppercase(c: char) -> (r: bool)
    ensures
        r == unicode_uppercase(c),
{
    c.is_uppercase()
}

/// Trusted: calls `char::to_uppercase` and collects what it yields, in
/// order. Nothing is claimed of these characters but that they depend on the
/// character alone, so that they can bear the name `unicode_upper_mapping`.
#[verifier::external_body]
fn std_to_uppercase(c: char) -> (r: String)
    ensures
        r@ == unicode_upper_mapping(c),
{
    c.to_uppercase().collect()
}

/// Whether `c` is one of the 128 ASCII characters.
pub fn char_is_ascii(c: char) -> (r: bool)
    ensures
        r == is_ascii(c),
{
    c <= '\u{7f}'
}

/// Whether `c` is whitespace.
pub fn char_is_space(c: char) -> (r: bool)
    ensures
        r == is_space(c),
{
    if char_is_ascii(c) {
        c == ' ' || ('\t' <= c && c <= '\r')
    } else {
        std_is_whitespace(c)
    }
}

/// Whether `c` is an uppercase letter.
pub fn char_is_upper(c: char) -> (r: bool)
    ensures
        r == is_upper(c),
{
    if char_is_ascii(c) {
        'A' <= c && c <= 'Z'
    } else {
        std_is_uppercase(c)
    }
}

/// Appends the uppercase form of `c` to `out`.
pub fn push_upper(out: &mut String, c: char)
    ensures
        final(out)@ == old(out)@ + upper_of(c),
{
    if char_is_ascii(c) {
        if 'a' <= c && c <= 'z' {
            let lower: u8 = c as u8;
            let upper: u8 = lower - 32;
            out.push(upper as char);
        } else {
            out.push(c);
        }
    } else {
        let mapped = std_to_uppercase(c);
        out.append(mapped.as_str());
    }
}

/// The uppercase form of `s`, appended to `out`.
pub fn append_uppercased(out: &mut String, s: &str)
    ensures
        final(out)@ == old(out)@ + uppercased(s@),
{
    broadcast use vstd::string::group_string_axioms;
    for c in it: s.chars()
        invariant
            it.seq() == s@,
            out@ == old(out)@ + uppercased(s@.take(it.index())),
    {
        proof {
            let i = it.index();
            assert(s@.take(i + 1).drop_last() == s@.take(i));
        }
        push_upper(out, c);
    }
    assert(s@.take(s@.len() as int) == s@);
}

} // verus!
