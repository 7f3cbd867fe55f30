use vstd::prelude::*;
use vstd::string::StringExecFns;

verus! {

/// Relies on `str::chars` collecting into a `Vec`: the characters of the
/// string, in order.
#[verifier::external_body]
pub fn str_chars(s: &str) -> (r: Vec<char>)
    ensures
        r@ == s@,
{
    s.chars().collect()
}

/// Relies on `String: FromIterator<char>`: the collected string holds exactly
/// the characters of the vector, in order.
#[verifier::external_body]
pub fn string_from_chars(v: &Vec<char>) -> (r: String)
    ensures
        r@ == v@,
{
    v.iter().collect()
}

/// The characters a well-formed UTF-16 unit sequence decodes to.
pub uninterp spec fn utf16_chars(units: Seq<u16>) -> Seq<char>;

/// Whether a UTF-16 unit sequence is well formed (no unpaired surrogates).
pub uninterp spec fn utf16_ok(units: Seq<u16>) -> bool;

/// The UTF-16 code units of a string.
pub uninterp spec fn utf16_units(s: Seq<char>) -> Seq<u16>;

/// Relies on `String::from_utf8`: succeeds exactly on valid UTF-8, and the
/// returned string's UTF-8 encoding is the input.
#[verifier::external_body]
pub fn utf8_to_string(bytes: &Vec<u8>) -> (r: Option<String>)
    ensures
        r is Some <==> vstd::utf8::valid_utf8(bytes@),
        match r {
            Some(s) => vstd::utf8::encode_utf8(s@) == bytes@,
            None => true,
        },
{
    match String::from_utf8(bytes.clone()) {
        Ok(s) => Some(s),
        Err(_) => None,
    }
}

/// Relies on `String::from_utf16`: succeeds exactly on well-formed UTF-16,
/// decoding the units to the string's characters.
#[verifier::external_body]
pub fn utf16_to_string(units: &Vec<u16>) -> (r: Option<String>)
    ensures
        r is Some <==> utf16_ok(units@),
        match r {
            Some(s) => s@ == utf16_chars(units@),
            None => true,
        },
{
    match String::from_utf16(units.as_slice()) {
        Ok(s) => Some(s),
        Err(_) => None,
    }
}

/// Relies on `str::encode_utf16`: the UTF-16 code units of the string.
/// The encoding is well formed, and decoding it yields the string back.
#[verifier::external_body]
pub fn string_to_utf16(s: &str) -> (r: Vec<u16>)
    ensures
        r@ == utf16_units(s@),
        utf16_ok(r@),
        utf16_chars(r@) == s@,
{
    s.encode_utf16().collect()
}

/// String-slice equality, stated over the character views.
pub fn str_eq(a: &str, b: &str) -> (r: bool)
    ensures
        r == (a@ == b@),
{
    let sa: String = String::from_str(a);
    let sb: String = String::from_str(b);
    sa == sb
}

} // verus!
