//! What the `http` crate accepts as a request's method, URI, header name and
//! header value.
use vstd::prelude::*;
use vstd::string::*;
use vstd::utf8::*;

verus! {

/// The error of the `http` crate for a request that cannot be assembled.
#[verifier::external_type_specification]
#[verifier::external_body]
pub struct ExHttpError(http::Error);

/// True when `b` may stand in a method's name: a token character of RFC 7230
/// other than `#`, `$`, `%`, `&` and `'`.
pub open spec fn method_byte(b: u8) -> bool {
    ||| 48 <= b <= 57
    ||| 65 <= b <= 90
    ||| 97 <= b <= 122
    ||| b == 33
    ||| b == 42
    ||| b == 43
    ||| b == 45
    ||| b == 46
    ||| b == 94
    ||| b == 95
    ||| b == 96
    ||| b == 124
    ||| b == 126
}

/// True when the `http` crate accepts `method` as a request's method: it is
/// not empty and each of its bytes may stand in a method's name.
pub open spec fn method_accepted(method: Seq<char>) -> bool {
    let bytes = encode_utf8(method);
    &&& bytes.len() > 0
    &&& forall|i: int| 0 <= i < bytes.len() ==> method_byte(#[trigger] bytes[i])
}

/// True when `http::Uri` parses `uri`.
pub uninterp spec fn uri_accepted(uri: Seq<char>) -> bool;

/// True when `b` may stand in a header name: a token character of RFC 7230
/// (the `http` crate's table of header characters).
pub open spec fn header_name_byte(b: u8) -> bool {
    ||| 48 <= b <= 57
    ||| 65 <= b <= 90
    ||| 97 <= b <= 122
    ||| 33 <= b <= 39
    ||| b == 42
    ||| b == 43
    ||| b == 45
    ||| b == 46
    ||| b == 94
    ||| b == 95
    ||| b == 96
    ||| b == 124
    ||| b == 126
}

/// The ASCII lower case of the byte `b`.
pub open spec fn ascii_lower(b: u8) -> u8 {
    if 65 <= b <= 90 {
        (b + 32) as u8
    } else {
        b
    }
}

/// The name under which `http::HeaderName::from_bytes` stores the header
/// `name`: where the name is 1 to 65535 bytes long and each byte may stand in
/// a header name, its ASCII lower case; otherwise `None`.
pub open spec fn header_name_canonical(name: Seq<char>) -> Option<Seq<char>> {
    let bytes = encode_utf8(name);
    if 1 <= bytes.len() <= 65535 && forall|i: int| 0 <= i < bytes.len() ==> header_name_byte(#[trigger] bytes[i]) {
        Some(Seq::new(bytes.len(), |i: int| ascii_lower(bytes[i]) as char))
    } else {
        None
    }
}

/// True when `b` may stand in a header value: a visible character, a space, a
/// tab, or any byte from 128 on.
pub open spec fn header_value_byte(b: u8) -> bool {
    b >= 32 && b != 127 || b == 9
}

/// True when `http::HeaderValue::from_str` accepts `value`.
pub open spec fn header_value_accepted(value: Seq<char>) -> bool {
    let bytes = encode_utf8(value);
    forall|i: int| 0 <= i < bytes.len() ==> header_value_byte(#[trigger] bytes[i])
}

/// Calls `http::Method::from_bytes` on the bytes of `method`. Claimed: it
/// succeeds exactly when the bytes are not empty and each is a method byte
/// (the crate's table of method characters).
#[verifier::external_body]
pub(crate) fn check_method(method: &str) -> (res: Result<(), http::Error>)
    ensures
        res is Ok <==> method_accepted(method@),
{
    match http::Method::from_bytes(method.as_bytes()) {
        Ok(_) => Ok(()),
        Err(e) => Err(http::Error::from(e)),
    }
}

/// Calls `http::Uri::from_str` on `uri`. Claimed: it succeeds exactly when
/// `uri_accepted` holds of `uri`, a predicate of `uri` alone.
#[verifier::external_body]
pub(crate) fn check_uri(uri: &str) -> (res: Result<(), http::Error>)
    ensures
        res is Ok <==> uri_accepted(uri@),
{
    match <http::Uri as std::str::FromStr>::from_str(uri) {
        Ok(_) => Ok(()),
        Err(e) => Err(http::Error::from(e)),
    }
}

/// Calls `http::HeaderName::from_bytes` on the bytes of `name` and returns the
/// text of the name it builds. Claimed: it accepts the name exactly when it is
/// 1 to 65535 bytes long and each byte is in the crate's table of header
/// characters, and the text is then the name in ASCII lower case (standard
/// headers included, whose stored names are lower case).
#[verifier::external_body]
pub(crate) fn canonical_header_name(name: &str) -> (res: Option<String>)
    ensures
        res.deep_view() == header_name_canonical(name@),
{
    match http::header::HeaderName::from_bytes(name.as_bytes()) {
        Ok(n) => Some(n.as_str().to_string()),
        Err(_) => None,
    }
}

/// Calls `http::HeaderValue::from_str` on `value`. Claimed: it succeeds exactly
/// when each byte of `value` may stand in a header value.
#[verifier::external_body]
pub(crate) fn header_value_is_valid(value: &str) -> (res: bool)
    ensures
        res == header_value_accepted(value@),
{
    http::HeaderValue::from_str(value).is_ok()
}

} // verus!
