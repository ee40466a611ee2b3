//! The calls into other crates and into the standard library that this library
//! makes without a proof of what they do.
//!
//! Each stands behind one item that says what is claimed of it. Where a result
//! takes pages to describe, it gets a name, and the claim is that the same
//! arguments give the same result.

use vstd::prelude::*;
use vstd::utf8::{decode_utf8, valid_utf8};

use crate::text::texts;

verus! {

/// `String::push`: appends one character at the end.
pub assume_specification[ String::push ](text: &mut String, c: char)
    ensures
        final(text)@ == old(text)@.push(c),
;

/// What `String::from_utf8_lossy` makes of bytes.
pub uninterp spec fn utf8_lossy(bytes: Seq<u8>) -> Seq<char>;

/// `String::from_utf8_lossy`: the text of the bytes, where what is no UTF-8 is
/// replaced. Bytes that are UTF-8 are decoded as they stand.
#[verifier::external_body]
pub(crate) fn lossy_text(bytes: &[u8]) -> (text: String)
    ensures
        text@ == utf8_lossy(bytes@),
        valid_utf8(bytes@) ==> text@ == decode_utf8(bytes@),
{
    String::from_utf8_lossy(bytes).to_string()
}

/// What the standard engine of `base64` makes of bytes.
pub uninterp spec fn base64_standard(bytes: Seq<u8>) -> Seq<char>;

/// `base64::engine::general_purpose::STANDARD.encode`: the bytes in the standard
/// alphabet, padded. It panics where the text would not fit in memory, which the
/// limit on the length leaves out.
#[verifier::external_body]
pub(crate) fn encode_base64(bytes: &[u8]) -> (text: String)
    requires
        bytes@.len() <= usize::MAX / 4,
    ensures
        text@ == base64_standard(bytes@),
{
    base64::Engine::encode(&base64::engine::general_purpose::STANDARD, bytes)
}

/// What `serde_json` writes for a list of texts.
pub uninterp spec fn json_of_texts(list: Seq<Seq<char>>) -> Seq<char>;

/// `serde_json::to_string`, of a list of texts: the list as JSON, in order. It fails
/// only where a value refuses to be written or the writing does, and neither a text
/// nor the memory that is written to ever does.
#[verifier::external_body]
pub(crate) fn write_texts(list: &Vec<String>) -> (text: String)
    ensures
        text@ == json_of_texts(texts(list@)),
{
    match serde_json::to_string(list) {
        Ok(text) => text,
        Err(err) => err.to_string(),
    }
}

/// Whether a character is upper case, as `char::is_uppercase` tells.
pub uninterp spec fn is_upper(c: char) -> bool;

/// `char::is_uppercase`: whether the character has the Unicode property of upper
/// case.
pub assume_specification[ char::is_uppercase ](c: char) -> (upper: bool)
    ensures
        upper == is_upper(c),
;

/// What `char::to_lowercase` makes of a character.
pub uninterp spec fn char_lower(c: char) -> Seq<char>;

/// `char::to_lowercase`: the lower case of a character, which may take more than
/// one.
#[verifier::external_body]
pub(crate) fn lower_char(c: char) -> (text: String)
    ensures
        text@ == char_lower(c),
{
    c.to_lowercase().to_string()
}

/// What `str::to_lowercase` makes of a text.
pub uninterp spec fn lowercase(text: Seq<char>) -> Seq<char>;

/// `str::to_lowercase`: the text in lower case, by the rules of Unicode.
pub assume_specification[ str::to_lowercase ](text: &str) -> (lower: String)
    ensures
        lower@ == lowercase(text@),
;

/// What `reqwest::StatusCode` shows itself as, by its number.
pub uninterp spec fn status_display(code: u16) -> Seq<char>;

/// `reqwest::StatusCode::from_u16` and the text of what it gives: the number and
/// the words that stand for it. The numbers from 100 to 999 are the ones it takes.
#[verifier::external_body]
pub(crate) fn show_status(code: u16) -> (text: String)
    requires
        100 <= code <= 999,
    ensures
        text@ == status_display(code),
{
    match reqwest::StatusCode::from_u16(code) {
        Ok(status) => status.to_string(),
        Err(err) => err.to_string(),
    }
}

} // verus!
