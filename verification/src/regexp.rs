//! `Regexp` objects: a literal pattern held as text.
use vstd::prelude::*;
use crate::error::Error;
use crate::value::{RObject, RValue};

verus! {

/// A regular expression: its pattern, kept as written.
pub struct Regexp {
    pub pattern: String,
}

/// Calls std's `String::from_utf8`. As std documents, it succeeds exactly
/// when the bytes are well-formed UTF-8, and then holds the text they
/// encode; on failure it answers the `Debug` text of std's error, of which
/// nothing is stated.
#[verifier::external_body]
fn utf8_string(bytes: Vec<u8>) -> (r: Result<String, String>)
    ensures
        r is Ok <==> vstd::utf8::valid_utf8(bytes@),
        r matches Ok(s) ==> s@ == vstd::utf8::decode_utf8(bytes@),
{
    match String::from_utf8(bytes) {
        Ok(s) => Ok(s),
        Err(e) => Err(format!("{:?}", e)),
    }
}

/// The message prefix of a pattern that is not UTF-8.
pub open spec fn invalid_pattern_prefix() -> Seq<char> {
    "Invalid regexp expression: "@
}

/// `Regexp.new(pattern)`: a regular expression holding the text of a string
/// pattern. A pattern that is not a string, or whose bytes are not UTF-8,
/// is refused with a `RuntimeError`.
pub fn mrb_regexp_new(pattern: &RObject) -> (r: Result<Regexp, Error>)
    ensures
        !(pattern.value is String) ==> (r matches Err(Error::RuntimeError(m)) && m@
            == "Regexp.new requires a string pattern"@),
        pattern.value is String && vstd::utf8::valid_utf8(pattern.value->String_0@) ==> (r matches Ok(re)
            && re.pattern@ == vstd::utf8::decode_utf8(pattern.value->String_0@)),
        pattern.value is String && !vstd::utf8::valid_utf8(pattern.value->String_0@) ==> (r matches Err(
            Error::RuntimeError(m),
        ) && m@.len() >= invalid_pattern_prefix().len() && m@.subrange(0, invalid_pattern_prefix().len() as int)
            == invalid_pattern_prefix()),
{
    match &pattern.value {
        RValue::String(bytes) => match utf8_string(bytes.clone()) {
            Ok(text) => Ok(Regexp { pattern: text }),
            Err(detail) => {
                let m = String::from_str("Invalid regexp expression: ").concat(detail.as_str());
                proof {
                    reveal_strlit("Invalid regexp expression: ");
                    assert(m@.subrange(0, invalid_pattern_prefix().len() as int) =~= invalid_pattern_prefix());
                }
                Err(Error::RuntimeError(m))
            },
        },
        _ => Err(Error::RuntimeError(String::from_str("Regexp.new requires a string pattern"))),
    }
}

} // verus!
