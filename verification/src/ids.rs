//! UUID text: what `uuid::Uuid::parse_str` accepts, and fresh random ids.
use vstd::prelude::*;

use crate::text::{all_hexdigits, is_ascii_hexdigit};

verus! {

/// A hyphen position of the hyphenated form `xxxxxxxx-xxxx-xxxx-xxxx-xxxxxxxxxxxx`.
pub open spec fn is_hyphen_position(i: int) -> bool {
    i == 8 || i == 13 || i == 18 || i == 23
}

/// The hyphenated form: 36 characters, hyphens at 8, 13, 18 and 23, hex digits elsewhere.
pub open spec fn is_hyphenated_uuid(s: Seq<char>) -> bool {
    &&& s.len() == 36
    &&& forall|i: int|
        0 <= i < 36 ==> if is_hyphen_position(i) {
            #[trigger] s[i] == '-'
        } else {
            is_ascii_hexdigit(s[i])
        }
}

/// The simple form: 32 hex digits.
pub open spec fn is_simple_uuid(s: Seq<char>) -> bool {
    s.len() == 32 && all_hexdigits(s)
}

/// ASCII letters lowered, everything else kept.
pub open spec fn ascii_lower(c: char) -> char {
    if 65 <= (c as u32) <= 90 {
        ((c as u32) + 32) as char
    } else {
        c
    }
}

/// The text forms `uuid::Uuid::parse_str` accepts: simple, hyphenated, braced
/// hyphenated, and hyphenated behind a case-insensitive `urn:uuid:`.
pub open spec fn uuid_text(s: Seq<char>) -> bool {
    ||| is_simple_uuid(s)
    ||| is_hyphenated_uuid(s)
    ||| (s.len() == 38 && s[0] == '{' && s[37] == '}' && is_hyphenated_uuid(s.subrange(1, 37)))
    ||| (s.len() == 45 && s.take(9).map_values(|c: char| ascii_lower(c)) == "urn:uuid:"@
        && is_hyphenated_uuid(s.skip(9)))
}

/// `uuid::Uuid::parse_str(s).is_ok()`: claims success exactly on the forms above
/// (the parser's grammar over the input's bytes; any non-ASCII byte fails it).
#[verifier::external_body]
pub fn uuid_parses(s: &str) -> (r: bool)
    ensures
        r == uuid_text(s@),
{
    uuid::Uuid::parse_str(s).is_ok()
}

/// A lowercase hex digit: `0-9` or `a-f`.
pub open spec fn is_lower_hexdigit(c: char) -> bool {
    ('0' <= c && c <= '9') || ('a' <= c && c <= 'f')
}

/// The text of a random (version 4, RFC 4122 variant) UUID: the hyphenated form
/// in lowercase, with the version digit `4` at 14 and one of `8`, `9`, `a`, `b`
/// at 19.
pub open spec fn is_v4_uuid_text(s: Seq<char>) -> bool {
    &&& is_hyphenated_uuid(s)
    &&& forall|i: int| 0 <= i < 36 && !is_hyphen_position(i) ==> is_lower_hexdigit(#[trigger] s[i])
    &&& s[14] == '4'
    &&& (s[19] == '8' || s[19] == '9' || s[19] == 'a' || s[19] == 'b')
}

/// `uuid::Uuid::new_v4().to_string()`: `new_v4` masks random bits so that the
/// version nibble is 4 and the variant bits are `10`, and `Display` writes the
/// lowercase hyphenated form. Claims that shape only, since the rest is random.
#[verifier::external_body]
pub fn new_uuid_v4_string() -> (r: String)
    ensures
        is_v4_uuid_text(r@),
{
    uuid::Uuid::new_v4().to_string()
}

} // verus!
