//! What the HTTP library accepts on the wire: methods, header names,
//! header values and status codes.
use std::str::FromStr;
use vstd::prelude::*;

verus! {

/// An ASCII letter or digit.
pub open spec fn is_alphanumeric(c: char) -> bool {
    ('a' <= c && c <= 'z') || ('A' <= c && c <= 'Z') || ('0' <= c && c <= '9')
}

/// A character that may stand in an HTTP method.
pub open spec fn is_method_char(c: char) -> bool {
    is_alphanumeric(c) || c == '!' || c == '*' || c == '+' || c == '-' || c == '.' || c == '^'
        || c == '_' || c == '`' || c == '|' || c == '~'
}

/// A character that may stand in a header name; letters of either case.
pub open spec fn is_header_name_char(c: char) -> bool {
    is_alphanumeric(c) || c == '!' || c == '"' || c == '#' || c == '$' || c == '%' || c == '&'
        || c == '\'' || c == '*' || c == '+' || c == '-' || c == '.' || c == '^' || c == '_'
        || c == '`' || c == '|' || c == '~'
}

/// The methods hyper accepts: one or more method characters.
pub open spec fn method_accepted(s: Seq<char>) -> bool {
    s.len() > 0 && forall|i: int| 0 <= i < s.len() ==> is_method_char(#[trigger] s[i])
}

/// The header names hyper accepts: from 1 to 65535 header-name characters.
pub open spec fn header_name_accepted(s: Seq<char>) -> bool {
    0 < s.len() <= 65535 && forall|i: int| 0 <= i < s.len() ==> is_header_name_char(#[trigger] s[i])
}

/// A header value may hold visible characters, spaces and tabs, but no
/// other control character.
pub open spec fn header_value_accepted(s: Seq<char>) -> bool {
    forall|i: int|
        0 <= i < s.len() ==> ((s[i] as u32 >= 32 && s[i] as u32 != 127) || s[i] == '\t')
}

/// The status codes that hyper represents: three decimal digits.
pub open spec fn status_in_range(code: u16) -> bool {
    100 <= code < 1000
}

/// Relies on hyper::Method::from_str (http 0.2 `Method::from_bytes`): an
/// empty method is refused; any other is accepted when each byte is in the
/// method character table, which holds only single-byte characters.
#[verifier::external_body]
pub(crate) fn method_is_valid(m: &str) -> (r: bool)
    ensures
        r == method_accepted(m@),
{
    hyper::Method::from_str(m).is_ok()
}

/// Relies on hyper::header::HeaderName::from_str (http 0.2 `parse_hdr`): a
/// name of 1 to 65535 bytes is accepted when each byte is in the header
/// character table, which holds only single-byte characters.
#[verifier::external_body]
pub(crate) fn header_name_is_valid(n: &str) -> (r: bool)
    ensures
        r == header_name_accepted(n@),
{
    hyper::header::HeaderName::from_str(n).is_ok()
}

/// Relies on hyper::header::HeaderValue::from_str: it refuses a value with a
/// byte below 32 other than a tab, or the byte 127. Every byte of a
/// multi-byte character is 128 or more, so only single-byte characters count.
#[verifier::external_body]
pub(crate) fn header_value_is_valid(v: &str) -> (r: bool)
    ensures
        r == header_value_accepted(v@),
{
    hyper::header::HeaderValue::from_str(v).is_ok()
}

/// Relies on hyper::StatusCode::from_u16 and StatusCode::as_u16: a code from
/// 100 to 999 is kept as it is, any other is refused.
#[verifier::external_body]
pub(crate) fn status_from_code(code: u16) -> (r: Option<u16>)
    ensures
        r == (if status_in_range(code) {
            Some(code)
        } else {
            None
        }),
{
    hyper::StatusCode::from_u16(code).ok().map(|s| s.as_u16())
}

/// Relies on hyper::StatusCode's `Default`, which is `200 OK`.
#[verifier::external_body]
pub(crate) fn default_status() -> (r: u16)
    ensures
        r == 200,
{
    hyper::StatusCode::default().as_u16()
}

} // verus!
