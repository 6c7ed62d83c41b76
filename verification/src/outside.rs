//! The few places where the library leans on outside code: identifier
//! validation and string-literal decoding through syn, and two character
//! conversions of std. Each is a trusted wrapper whose contract states what
//! the callee's source shows.

use vstd::prelude::*;

verus! {

/// Whether the characters spell exactly one lexically valid, non-keyword
/// identifier of the host grammar (surrounding whitespace permitted).
pub uninterp spec fn is_ident(s: Seq<char>) -> bool;

/// The decoded contents of a single string-literal spelling (quotes stripped,
/// escape sequences resolved), or nothing when the characters are not one
/// string literal.
pub uninterp spec fn lit_str_value(s: Seq<char>) -> Option<Seq<char>>;

/// Relies on syn::parse_str::<syn::Ident>, which accepts exactly the strings
/// that lex to one non-keyword identifier; the result depends on the
/// characters alone.
#[verifier::external_body]
pub fn check_ident(s: &String) -> (r: bool)
    ensures
        r == is_ident(s@),
{
    syn::parse_str::<syn::Ident>(s.as_str()).is_ok()
}

/// Relies on syn::parse_str::<syn::LitStr> and syn::LitStr::value, which
/// decode one string literal's spelling to its contents; the result depends
/// on the characters alone.
#[verifier::external_body]
pub fn decode_str_lit(s: &String) -> (r: Option<String>)
    ensures
        r.deep_view() == lit_str_value(s@),
{
    match syn::parse_str::<syn::LitStr>(s.as_str()) {
        Ok(l) => Some(l.value()),
        Err(_) => None,
    }
}

/// Relies on String's FromIterator over char (via Iterator::collect): the
/// collected string holds exactly the characters of `v`, in order.
#[verifier::external_body]
pub fn string_from_chars(v: &Vec<char>) -> (r: String)
    ensures
        r@ == v@,
{
    v.iter().collect()
}

/// Relies on str::chars: the characters of the string, in order.
#[verifier::external_body]
pub fn chars_of_str(s: &str) -> (r: Vec<char>)
    ensures
        r@ == s@,
{
    s.chars().collect()
}

} // verus!
