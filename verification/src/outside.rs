//! The functions of the standard library and of `glob` that are called and not
//! proved. What each is taken to do stands in its contract.

use vstd::prelude::*;

verus! {

// ---------------------------------------------------------------------------
// lower case
// ---------------------------------------------------------------------------
/// The lower case of a text, as `str::to_lowercase` gives it.
pub uninterp spec fn lowercase(s: Seq<char>) -> Seq<char>;

/// Whether every character of a text is ASCII.
pub open spec fn is_ascii_text(s: Seq<char>) -> bool {
    forall|i: int| 0 <= i < s.len() ==> s[i] <= '\u{7f}'
}

/// An ASCII capital letter as a small one; any other character as it is.
pub open spec fn small(c: char) -> char {
    if 'A' <= c <= 'Z' {
        (c as u8 + 32) as char
    } else {
        c
    }
}

/// A text with its ASCII capital letters as small ones.
pub open spec fn ascii_lowercase(s: Seq<char>) -> Seq<char> {
    s.map_values(|c: char| small(c))
}

/// Calls `str::to_lowercase`. The result depends on the text alone. Of a text
/// that is all ASCII it is the text with `A` to `Z` as `a` to `z`; of other
/// texts nothing more is claimed.
#[verifier::external_body]
pub(crate) fn to_lowercase(s: &str) -> (r: String)
    ensures
        r@ == lowercase(s@),
        is_ascii_text(s@) ==> r@ == ascii_lowercase(s@),
{
    s.to_lowercase()
}

// ---------------------------------------------------------------------------
// text from bytes
// ---------------------------------------------------------------------------
/// The text that bytes hold, as `String::from_utf8_lossy` gives it.
pub uninterp spec fn lossy_text(bytes: Seq<u8>) -> Seq<char>;

/// Calls `String::from_utf8_lossy`. The result depends on the bytes alone. Of
/// bytes that are valid UTF-8 it is the text they encode; where some are not,
/// nothing more is claimed.
#[verifier::external_body]
pub(crate) fn from_utf8_lossy(bytes: &Vec<u8>) -> (r: String)
    ensures
        r@ == lossy_text(bytes@),
        vstd::utf8::valid_utf8(bytes@) ==> r@ == vstd::utf8::decode_utf8(bytes@),
{
    String::from_utf8_lossy(bytes.as_slice()).into_owned()
}

// ---------------------------------------------------------------------------
// quoted text
// ---------------------------------------------------------------------------
/// A text in quotes with its odd characters escaped, as the `Debug` format of
/// `str` gives it.
pub uninterp spec fn quoted(s: Seq<char>) -> Seq<char>;

/// Formats a text with the `Debug` format of `str`. The result depends on the
/// text alone.
#[verifier::external_body]
pub(crate) fn debug_text(s: &str) -> (r: String)
    ensures
        r@ == quoted(s@),
{
    format!("{:?}", s)
}

// ---------------------------------------------------------------------------
// glob patterns
// ---------------------------------------------------------------------------
/// A character as a pattern that matches it alone: the four characters with a
/// meaning in patterns are put in brackets.
pub open spec fn escaped_char(c: char) -> Seq<char> {
    if c == '?' || c == '*' || c == '[' || c == ']' {
        seq!['[', c, ']']
    } else {
        seq![c]
    }
}

/// A text as a pattern that matches it alone.
pub open spec fn escaped(s: Seq<char>) -> Seq<char>
    decreases s.len(),
{
    if s.len() == 0 {
        Seq::empty()
    } else {
        escaped(s.drop_last()) + escaped_char(s.last())
    }
}

/// Calls `glob::Pattern::escape`, which puts each of `?`, `*`, `[` and `]` in
/// brackets and keeps every other character.
#[verifier::external_body]
pub(crate) fn escape_pattern(s: &str) -> (r: String)
    ensures
        r@ == escaped(s@),
{
    glob::Pattern::escape(s)
}

} // verus!
