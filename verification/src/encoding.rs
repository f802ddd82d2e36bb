//! Base64 and UTF-8.
use base64::Engine;
use vstd::prelude::*;
use vstd::utf8::{decode_utf8, encode_utf8, valid_utf8};

verus! {

/// The bytes that a text writes in the standard base64 alphabet with padding,
/// or what is wrong with it.
pub uninterp spec fn base64_standard(text: Seq<char>) -> Result<Seq<u8>, Seq<char>>;

/// The bytes that a text writes in the URL-safe base64 alphabet with padding,
/// or what is wrong with it.
pub uninterp spec fn base64_url_safe(text: Seq<char>) -> Result<Seq<u8>, Seq<char>>;

/// What is wrong with bytes that are no UTF-8.
pub uninterp spec fn utf8_problem(bytes: Seq<u8>) -> Seq<char>;

pub open spec fn bytes_result(r: Result<Vec<u8>, String>) -> Result<Seq<u8>, Seq<char>> {
    match r {
        Ok(b) => Ok(b@),
        Err(m) => Err(m@),
    }
}

/// The result of reading bytes.
pub open spec fn read_bytes(bytes: Seq<u8>) -> Result<Seq<u8>, Seq<char>> {
    Ok(bytes)
}

/// `base64::Engine::decode` of `general_purpose::STANDARD`; an error is given
/// by its `Display` text.
#[verifier::external_body]
pub(crate) fn decode_standard(text: &str) -> (r: Result<Vec<u8>, String>)
    ensures
        bytes_result(r) == base64_standard(text@),
{
    match base64::engine::general_purpose::STANDARD.decode(text) {
        Ok(bytes) => Ok(bytes),
        Err(e) => Err(e.to_string()),
    }
}

/// `base64::Engine::decode` of `general_purpose::URL_SAFE`; an error is given
/// by its `Display` text.
#[verifier::external_body]
pub(crate) fn decode_url_safe(text: &str) -> (r: Result<Vec<u8>, String>)
    ensures
        bytes_result(r) == base64_url_safe(text@),
{
    match base64::engine::general_purpose::URL_SAFE.decode(text) {
        Ok(bytes) => Ok(bytes),
        Err(e) => Err(e.to_string()),
    }
}

/// `base64::Engine::encode` of `general_purpose::URL_SAFE`: decoding the text
/// with the same engine gives the bytes back, and the text holds no `+` and
/// no `/`, which the URL-safe alphabet does not have. A text that
/// `general_purpose::STANDARD` decodes to these bytes is to the URL-safe engine
/// either no base64, or the same bytes: the alphabets differ in two characters
/// only.
#[verifier::external_body]
pub(crate) fn encode_url_safe(text: &str) -> (r: String)
    ensures
        base64_url_safe(r@) == read_bytes(encode_utf8(text@)),
        forall|i: int| 0 <= i < r@.len() ==> #[trigger] r@[i] != '+' && r@[i] != '/',
        forall|s: Seq<char>| #[trigger]
            base64_standard(s) == read_bytes(encode_utf8(text@)) ==> base64_url_safe(s) is Err
                || base64_url_safe(s) == base64_url_safe(r@),
{
    base64::engine::general_purpose::URL_SAFE.encode(text)
}

/// `String::from_utf8`: the text that the bytes encode, where they are valid
/// UTF-8; an error is given by its `Display` text.
#[verifier::external_body]
pub(crate) fn text_from_utf8(bytes: Vec<u8>) -> (r: Result<String, String>)
    ensures
        match r {
            Ok(s) => valid_utf8(bytes@) && s@ == decode_utf8(bytes@),
            Err(m) => !valid_utf8(bytes@) && m@ == utf8_problem(bytes@),
        },
{
    match String::from_utf8(bytes) {
        Ok(s) => Ok(s),
        Err(e) => Err(e.to_string()),
    }
}

/// Whether a text is base64 in the standard or in the URL-safe alphabet.
pub open spec fn is_base64(text: Seq<char>) -> bool {
    base64_standard(text) is Ok || base64_url_safe(text) is Ok
}

/// Whether a string is base64-decodable (standard or URL-safe alphabet).
pub fn is_base64_string(text: &str) -> (r: bool)
    ensures
        r == is_base64(text@),
{
    decode_standard(text).is_ok() || decode_url_safe(text).is_ok()
}

} // verus!
