//! The legacy single-byte text encoding (windows-1252) of labels, resource
//! names and strings, and the lossy UTF-8 reading of talk-table entries.
//!
//! The conversions themselves are done by `encoding_rs` and by the standard
//! library. What they return is named here, so that the rest of the library
//! can say exactly which bytes it hands to them and what it does with the result.

use crate::files::MAX_TEXT_LEN;
use vstd::prelude::*;

verus! {

/// The text that `encoding_rs::Encoding::decode` of `WINDOWS_1252` returns for `bytes`.
pub uninterp spec fn windows_1252_decoded(bytes: Seq<u8>) -> Seq<char>;

/// The text that `encoding_rs::Encoding::decode_without_bom_handling` of
/// `WINDOWS_1252` returns for `bytes`.
pub uninterp spec fn windows_1252_decoded_without_bom(bytes: Seq<u8>) -> Seq<char>;

/// The bytes that `encoding_rs::Encoding::encode` of `WINDOWS_1252` returns for `text`.
pub uninterp spec fn windows_1252_encoded(text: Seq<char>) -> Seq<u8>;

/// The text that `String::from_utf8_lossy` returns for `bytes`.
pub uninterp spec fn utf8_lossy_decoded(bytes: Seq<u8>) -> Seq<char>;

/// Whether every byte of `bytes` is an ASCII character.
pub open spec fn is_ascii_bytes(bytes: Seq<u8>) -> bool {
    forall|i: int| 0 <= i < bytes.len() ==> bytes[i] < 0x80
}

/// Whether every character of `text` is an ASCII character.
pub open spec fn is_ascii_text(text: Seq<char>) -> bool {
    forall|i: int| 0 <= i < text.len() ==> (text[i] as u32) < 0x80
}

/// The ASCII characters that the ASCII bytes `bytes` stand for.
pub open spec fn ascii_text(bytes: Seq<u8>) -> Seq<char> {
    Seq::new(bytes.len(), |i: int| bytes[i] as char)
}

/// The bytes that stand for the ASCII characters `text`.
pub open spec fn ascii_bytes(text: Seq<char>) -> Seq<u8> {
    Seq::new(text.len(), |i: int| text[i] as u8)
}

/// Calls `encoding_rs::Encoding::decode` on `WINDOWS_1252` and keeps the text.
///
/// Trusted: the text is a function of the bytes alone, and ASCII bytes decode
/// to the ASCII characters they stand for (the call hands ASCII-only input
/// back unchanged). Longer input is left out because the callee's size
/// calculation may overflow on it.
#[verifier::external_body]
pub(crate) fn decode_windows_1252(bytes: &[u8]) -> (text: String)
    requires
        bytes@.len() <= MAX_TEXT_LEN,
    ensures
        text@ == windows_1252_decoded(bytes@),
        is_ascii_bytes(bytes@) ==> text@ == ascii_text(bytes@),
{
    encoding_rs::WINDOWS_1252.decode(bytes).0.into_owned()
}

/// Calls `encoding_rs::Encoding::decode_without_bom_handling` on `WINDOWS_1252`
/// and keeps the text.
///
/// Trusted: the text is a function of the bytes alone, and ASCII bytes decode
/// to the ASCII characters they stand for.
#[verifier::external_body]
pub(crate) fn decode_windows_1252_without_bom(bytes: &[u8]) -> (text: String)
    requires
        bytes@.len() <= MAX_TEXT_LEN,
    ensures
        text@ == windows_1252_decoded_without_bom(bytes@),
        is_ascii_bytes(bytes@) ==> text@ == ascii_text(bytes@),
{
    encoding_rs::WINDOWS_1252.decode_without_bom_handling(bytes).0.into_owned()
}

/// Calls `encoding_rs::Encoding::encode` on `WINDOWS_1252` and keeps the bytes.
///
/// Trusted: the bytes are a function of the text alone, and ASCII text encodes
/// to the bytes that stand for its characters (the call hands ASCII-only input
/// back unchanged). Longer input is left out because the callee's size
/// calculation may overflow on it.
#[verifier::external_body]
pub(crate) fn encode_windows_1252(text: &str) -> (bytes: Vec<u8>)
    requires
        vstd::utf8::encode_utf8(text@).len() <= MAX_TEXT_LEN,
    ensures
        bytes@ == windows_1252_encoded(text@),
        is_ascii_text(text@) ==> bytes@ == ascii_bytes(text@),
{
    encoding_rs::WINDOWS_1252.encode(text).0.into_owned()
}

/// Calls `String::from_utf8_lossy` and keeps the text.
///
/// Trusted: the text is a function of the bytes alone, and valid UTF-8
/// decodes to the text it encodes.
#[verifier::external_body]
pub(crate) fn decode_utf8_lossy(bytes: &[u8]) -> (text: String)
    ensures
        text@ == utf8_lossy_decoded(bytes@),
        vstd::utf8::valid_utf8(bytes@) ==> text@ == vstd::utf8::decode_utf8(bytes@),
{
    String::from_utf8_lossy(bytes).into_owned()
}

/// Calls `std::str::from_utf8` and tells whether it accepted the bytes.
///
/// Trusted: the call accepts exactly the valid UTF-8 sequences.
#[verifier::external_body]
pub(crate) fn is_valid_utf8(bytes: &[u8]) -> (valid: bool)
    ensures
        valid == vstd::utf8::valid_utf8(bytes@),
{
    std::str::from_utf8(bytes).is_ok()
}

/// Calls `String::push`.
///
/// Trusted: the call appends the character to the text.
#[verifier::external_body]
pub(crate) fn push_char(text: &mut String, c: char)
    ensures
        final(text)@ == old(text)@.push(c),
{
    text.push(c)
}

/// Calls `str::chars` and collects the characters.
///
/// Trusted: the call yields the characters of the text in their order.
#[verifier::external_body]
pub(crate) fn chars_of(text: &str) -> (chars: Vec<char>)
    ensures
        chars@ == text@,
{
    text.chars().collect()
}

/// Whether the text `a` is the text `b`.
pub fn is_text(a: &str, b: &str) -> (r: bool)
    ensures
        r == (a@ == b@),
{
    let x = a.to_owned();
    let y = b.to_owned();
    x == y
}

/// Whether two characters are equal when ASCII letters are compared without case.
pub open spec fn char_eq_ignore_ascii_case(a: char, b: char) -> bool {
    ascii_lowercase(a) == ascii_lowercase(b)
}

/// The lower-case form of an ASCII capital letter; any other character itself.
pub open spec fn ascii_lowercase(c: char) -> char {
    if 'A' <= c <= 'Z' {
        ((c as u32) + 32) as char
    } else {
        c
    }
}

/// Whether two texts are equal when ASCII letters are compared without case.
pub open spec fn text_eq_ignore_ascii_case(a: Seq<char>, b: Seq<char>) -> bool {
    &&& a.len() == b.len()
    &&& forall|i: int| 0 <= i < a.len() ==> char_eq_ignore_ascii_case(a[i], b[i])
}

/// Calls `str::eq_ignore_ascii_case`.
///
/// Trusted: the call compares the two texts character by character, taking
/// an ASCII letter and its other case for equal.
#[verifier::external_body]
pub(crate) fn eq_ignore_ascii_case(a: &str, b: &str) -> (equal: bool)
    ensures
        equal == text_eq_ignore_ascii_case(a@, b@),
{
    a.eq_ignore_ascii_case(b)
}

} // verus!
