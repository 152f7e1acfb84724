//! Calls into std's Unicode text routines, which vstd leaves unspecified.
use vstd::prelude::*;

verus! {

/// What `str::to_lowercase` returns for a string with these characters
/// (Unicode lower-case mapping, context-sensitive for final sigma).
pub uninterp spec fn lower(s: Seq<char>) -> Seq<char>;

/// What `str::to_uppercase` returns for a string with these characters
/// (Unicode upper-case mapping, which may change the length).
pub uninterp spec fn upper(s: Seq<char>) -> Seq<char>;

/// Calls `str::to_lowercase`; its result is named by `lower`.
#[verifier::external_body]
pub(crate) fn to_lowercase(s: &str) -> (r: String)
    ensures
        r@ == lower(s@),
{
    s.to_lowercase()
}

/// Calls `str::to_uppercase`; its result is named by `upper`.
#[verifier::external_body]
pub(crate) fn to_uppercase(s: &str) -> (r: String)
    ensures
        r@ == upper(s@),
{
    s.to_uppercase()
}

/// Collects characters into a `String` (`FromIterator<&char> for String`):
/// the string holds exactly these characters, in order.
#[verifier::external_body]
pub(crate) fn string_from_chars(v: &Vec<char>) -> (r: String)
    ensures
        r@ == v@,
{
    v.iter().collect()
}


/// What `char::is_alphanumeric` returns: the character is alphabetic or
/// numeric in the Unicode tables that std carries.
pub uninterp spec fn alnum(c: char) -> bool;

/// Calls `char::is_alphanumeric`; its result is named by `alnum`.
#[verifier::external_body]
pub(crate) fn is_alphanumeric(c: char) -> (r: bool)
    ensures
        r == alnum(c),
{
    c.is_alphanumeric()
}

} // verus!
