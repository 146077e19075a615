//! Random identifiers.
use crate::text;
use vstd::prelude::*;

verus! {

/// Whether the text is made of hexadecimal digits, of either case.
pub open spec fn all_hex(s: Seq<char>) -> bool {
    forall|i: int| 0 <= i < s.len() ==> text::ascii_hexdigit(#[trigger] s[i])
}

/// The hyphenated notation of a UUID: five groups of hexadecimal digits.
pub open spec fn hyphenated(s: Seq<char>) -> bool {
    &&& s.len() == 36
    &&& forall|i: int|
        0 <= i < 36 ==> if i == 8 || i == 13 || i == 18 || i == 23 {
            #[trigger] s[i] == '-'
        } else {
            text::ascii_hexdigit(s[i])
        }
}

/// The notations of a UUID: digits alone, hyphenated, hyphenated in braces, and
/// hyphenated behind `urn:uuid:` in any case.
pub open spec fn uuid_text(s: Seq<char>) -> bool {
    ||| s.len() == 32 && all_hex(s)
    ||| hyphenated(s)
    ||| s.len() == 38 && s[0] == '{' && s[37] == '}' && hyphenated(s.subrange(1, 37))
    ||| s.len() == 45 && text::ascii_lower(s.take(9)) == "urn:uuid:"@ && hyphenated(s.skip(9))
}

/// `Uuid::parse_str` of the `uuid` crate: accepts exactly the notations of a UUID.
#[verifier::external_body]
pub(crate) fn is_uuid(s: &str) -> (r: bool)
    ensures
        r == uuid_text(s@),
{
    uuid::Uuid::parse_str(s).is_ok()
}

/// `Uuid::new_v4` of the `uuid` crate in its hyphenated notation. Which
/// identifier it is depends on chance.
#[verifier::external_body]
pub(crate) fn random_uuid() -> (r: String)
    ensures
        hyphenated(r@),
{
    uuid::Uuid::new_v4().to_string()
}

/// `Uuid::new_v4` of the `uuid` crate in its `simple` notation: an identifier of
/// 32 hexadecimal digits. Which one it is depends on chance.
#[verifier::external_body]
pub(crate) fn random_simple() -> (r: String)
    ensures
        r@.len() == 32,
        all_hex(r@),
{
    uuid::Uuid::new_v4().simple().to_string()
}

} // verus!
