//! Conversions between the raw payloads that the cloud exchanges with the
//! runtime and the built-in event and response types.
use vstd::prelude::*;
use vstd::string::*;
use vstd::utf8::*;

verus! {

/// Calls `String::from_utf8`. Claimed, as its documentation says: it succeeds
/// exactly when `bytes` are valid UTF-8, and the string then holds the
/// characters that the bytes encode.
#[verifier::external_body]
pub(crate) fn string_from_utf8(bytes: Vec<u8>) -> (res: Option<String>)
    ensures
        res is Some <==> valid_utf8(bytes@),
        res matches Some(s) ==> s@ == decode_utf8(bytes@),
{
    match String::from_utf8(bytes) {
        Ok(s) => Some(s),
        Err(_) => None,
    }
}

/// Reads a payload as text: `None` where the payload is not valid UTF-8.
pub fn string_from_payload(payload: Vec<u8>) -> (res: Option<String>)
    ensures
        res is Some <==> valid_utf8(payload@),
        res matches Some(s) ==> s@ == decode_utf8(payload@) && encode_utf8(s@) == payload@,
{
    proof {
        if valid_utf8(payload@) {
            decode_utf8_encode_utf8(payload@);
        }
    }
    string_from_utf8(payload)
}

/// Reads a payload as raw bytes: the payload itself.
pub fn bytes_from_payload(payload: Vec<u8>) -> (res: Vec<u8>)
    ensures
        res@ == payload@,
{
    payload
}

/// Writes a text response as its UTF-8 bytes.
pub fn string_into_bytes(response: String) -> (res: Vec<u8>)
    ensures
        res@ == encode_utf8(response@),
{
    response.as_str().as_bytes_vec()
}

/// Writes a raw response: the bytes themselves.
pub fn bytes_into_bytes(response: Vec<u8>) -> (res: Vec<u8>)
    ensures
        res@ == response@,
{
    response
}

/// Writes the unit response: no bytes.
pub fn unit_into_bytes() -> (res: Vec<u8>)
    ensures
        res@.len() == 0,
{
    Vec::new()
}

} // verus!
