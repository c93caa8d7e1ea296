//! HTTP header names and values.

use vstd::prelude::*;

use crate::text::{ascii_lower, chars_of, utf8};

verus! {

/// The most bytes that a header name may have.
pub const MAX_HEADER_NAME_LEN: usize = 65535;

/// Whether `c` may stand in a header name.
pub open spec fn is_token_char(c: char) -> bool {
    ||| 'a' <= c && c <= 'z'
    ||| 'A' <= c && c <= 'Z'
    ||| '0' <= c && c <= '9'
    ||| c == '!' || c == '#' || c == '$' || c == '%' || c == '&' || c == '\'' || c == '*'
    ||| c == '+' || c == '-' || c == '.' || c == '^' || c == '_' || c == '`' || c == '|'
    ||| c == '~'
}

/// Whether `name` is a header name.
pub open spec fn is_header_name(name: Seq<char>) -> bool {
    &&& 1 <= name.len() <= MAX_HEADER_NAME_LEN
    &&& forall|i: int| 0 <= i < name.len() ==> is_token_char(#[trigger] name[i])
}

/// `http::HeaderName::from_bytes` accepts a name of 1 to 65535 token characters
/// and normalizes it to lowercase; it refuses every other name.
#[verifier::external_body]
pub(crate) fn parse_header_name(name: &str) -> (parsed: Option<String>)
    ensures
        match parsed {
            Some(lower) => is_header_name(name@) && lower@ == ascii_lower(name@),
            None => !is_header_name(name@),
        },
{
    http::HeaderName::from_bytes(name.as_bytes()).ok().map(|parsed| parsed.as_str().to_owned())
}

/// Whether `c` may stand in a value that is promoted to a header: a tab, or any
/// character that is no control character.
pub open spec fn is_value_char(c: char) -> bool {
    c == '\t' || (c >= ' ' && c != '\x7f')
}

/// Whether `value` is safe to promote to a header value.
pub open spec fn is_safe_value(value: Seq<char>) -> bool {
    forall|i: int| 0 <= i < value.len() ==> is_value_char(#[trigger] value[i])
}

/// Whether `value` is safe to promote to a header value.
pub fn is_safe_promoted_value(value: &str) -> (safe: bool)
    ensures
        safe == is_safe_value(value@),
{
    let chars = chars_of(value);
    let mut i: usize = 0;
    while i < chars.len()
        invariant
            chars@ == value@,
            i <= chars.len(),
            forall|j: int| 0 <= j < i ==> is_value_char(#[trigger] value@[j]),
        decreases chars.len() - i,
    {
        let c = chars[i];
        if !(c == '\t' || (c >= ' ' && c != '\x7f')) {
            assert(!is_value_char(value@[i as int]));
            return false;
        }
        i = i + 1;
    }
    true
}

/// `http::HeaderValue::from_str` accepts a text without control characters other
/// than tabs, and holds its UTF-8 bytes; it refuses every other text.
#[verifier::external_body]
pub(crate) fn parse_header_value(value: &str) -> (parsed: Option<Vec<u8>>)
    ensures
        match parsed {
            Some(bytes) => is_safe_value(value@) && bytes@ == utf8(value@),
            None => !is_safe_value(value@),
        },
{
    http::HeaderValue::from_str(value).ok().map(|parsed| parsed.as_bytes().to_vec())
}

/// Whether `bytes` are visible ASCII characters, spaces and tabs.
pub open spec fn is_visible(bytes: Seq<u8>) -> bool {
    forall|i: int|
        0 <= i < bytes.len() ==> ((32 <= #[trigger] bytes[i] && bytes[i] < 127) || bytes[i] == 9)
}

/// The text of visible ASCII bytes.
pub open spec fn visible_text(bytes: Seq<u8>) -> Seq<char> {
    Seq::new(bytes.len(), |i: int| bytes[i] as char)
}

/// `http::HeaderValue::to_str` gives the text of a value of visible ASCII
/// characters, spaces and tabs, and no text of any other value. A value that
/// `http::HeaderValue::from_bytes` refuses has no text either.
#[verifier::external_body]
pub(crate) fn header_value_text(bytes: &[u8]) -> (text: Option<String>)
    ensures
        match text {
            Some(text) => is_visible(bytes@) && text@ == visible_text(bytes@),
            None => !is_visible(bytes@),
        },
{
    let value = http::HeaderValue::from_bytes(bytes).ok();
    value.and_then(|value| value.to_str().ok().map(|text| text.to_owned()))
}

/// Whether `name`, in lowercase, names a header that holds for one hop alone.
pub open spec fn hop_by_hop(name: Seq<char>) -> bool {
    ||| name == "connection"@
    ||| name == "keep-alive"@
    ||| name == "proxy-authenticate"@
    ||| name == "proxy-authorization"@
    ||| name == "te"@
    ||| name == "trailer"@
    ||| name == "transfer-encoding"@
    ||| name == "upgrade"@
}

} // verus!
