//! Base64, in the standard alphabet with padding, as the `base64` crate reads
//! and writes it.
use vstd::prelude::*;
use vstd::string::*;

verus! {

/// The error of the `base64` crate for text that is not base64.
#[verifier::external_type_specification]
#[verifier::external_body]
pub struct ExDecodeError(base64::DecodeError);

/// The character of the standard base64 alphabet for the 6-bit value `v`.
pub open spec fn base64_char(v: int) -> char {
    if v < 26 {
        (65 + v) as char
    } else if v < 52 {
        (97 + v - 26) as char
    } else if v < 62 {
        (48 + v - 52) as char
    } else if v == 62 {
        '+'
    } else {
        '/'
    }
}

/// The standard base64 encoding of `bytes` (RFC 4648, section 4): each group
/// of three bytes becomes four characters; a last group of one or two bytes is
/// padded with `=`.
pub open spec fn base64_encoding(bytes: Seq<u8>) -> Seq<char>
    decreases bytes.len(),
{
    if bytes.len() == 0 {
        seq![]
    } else {
        let b0 = bytes[0] as int;
        let b1 = if bytes.len() > 1 { bytes[1] as int } else { 0 };
        let b2 = if bytes.len() > 2 { bytes[2] as int } else { 0 };
        let c0 = base64_char(b0 / 4);
        let c1 = base64_char((b0 % 4) * 16 + b1 / 16);
        let c2 = if bytes.len() > 1 { base64_char((b1 % 16) * 4 + b2 / 64) } else { '=' };
        let c3 = if bytes.len() > 2 { base64_char(b2 % 64) } else { '=' };
        if bytes.len() <= 3 {
            seq![c0, c1, c2, c3]
        } else {
            seq![c0, c1, c2, c3] + base64_encoding(bytes.skip(3))
        }
    }
}

/// The length of the standard base64 encoding of `n` bytes.
pub open spec fn base64_encoded_len(n: int) -> int {
    if n % 3 == 0 {
        n / 3 * 4
    } else {
        n / 3 * 4 + 4
    }
}

/// The bytes that `base64::decode` reads from `text`, or `None` where it
/// refuses the text.
pub uninterp spec fn base64_decoding(text: Seq<char>) -> Option<Seq<u8>>;

/// Calls `base64::encode`. Claimed: the result is the standard base64
/// encoding of `bytes`, with padding. The crate panics where the length of the
/// encoding does not fit in a `usize`; `requires` leaves that out.
#[verifier::external_body]
pub(crate) fn base64_encode(bytes: &[u8]) -> (res: String)
    requires
        base64_encoded_len(bytes@.len() as int) <= usize::MAX,
    ensures
        res@ == base64_encoding(bytes@),
{
    base64::encode(bytes)
}

/// Calls `base64::decode` on the bytes of `text`. Claimed: the result is
/// `base64_decoding(text)`, a function of `text` alone, and where `text` is the
/// standard encoding of some bytes, the decoding gives those bytes back; which
/// error comes back on refused text is left unsaid. The crate panics where the length of the
/// text plus three does not fit in a `usize`; `requires` leaves that out.
#[verifier::external_body]
pub(crate) fn base64_decode(text: &str) -> (res: Result<Vec<u8>, base64::DecodeError>)
    requires
        text.spec_bytes().len() + 3 <= usize::MAX,
    ensures
        match res {
            Ok(v) => base64_decoding(text@) == Some(v@) && forall|b: Seq<u8>|
                #[trigger] base64_encoding(b) == text@ ==> v@ == b,
            Err(_) => base64_decoding(text@) is None && forall|b: Seq<u8>|
                #[trigger] base64_encoding(b) != text@,
        },
{
    base64::decode(text)
}

} // verus!
