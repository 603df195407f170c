//! The word on the control channel. One connection carries one word: its
//! payload is the word's UTF-8 bytes, and the receiver cuts the white
//! space around it.

use crate::text::{trim_word, trimmed};
use vstd::prelude::*;
use vstd::string::*;
use vstd::utf8::{decode_utf8, encode_utf8, encode_utf8_decode_utf8, encode_utf8_valid_utf8, valid_utf8};

verus! {

/// The text that a payload is read as. For bytes that are valid UTF-8 it
/// is the text they encode; bytes that are not are read leniently.
pub uninterp spec fn lossy_text(bytes: Seq<u8>) -> Seq<char>;

/// Reads bytes as text.
///
/// Trusted: stands for `String::from_utf8_lossy`, whose result depends on
/// the bytes alone, and is the text they encode where they are valid
/// UTF-8.
#[verifier::external_body]
fn decode_lossy(bytes: &[u8]) -> (text: String)
    ensures
        text@ == lossy_text(bytes@),
        valid_utf8(bytes@) ==> text@ == decode_utf8(bytes@),
{
    String::from_utf8_lossy(bytes).into_owned()
}

/// The word that a text carries: the text without the white space around
/// it, or nothing where only white space is there.
pub open spec fn word_of(text: Seq<char>) -> Option<Seq<char>> {
    if trimmed(text).len() == 0 {
        None
    } else {
        Some(trimmed(text))
    }
}

/// The word in a text that was received or given on the command line;
/// `None` where the text is blank, and nothing is to be looked up.
pub fn received_word(text: &str) -> (word: Option<String>)
    ensures
        match word {
            Some(w) => word_of(text@) == Some(w@),
            None => word_of(text@) is None,
        },
{
    let word = trim_word(text);
    if word.as_str().is_empty() {
        None
    } else {
        Some(word)
    }
}

/// The word in the payload of one connection.
pub fn word_from_payload(payload: &[u8]) -> (word: Option<String>)
    ensures
        match word {
            Some(w) => word_of(lossy_text(payload@)) == Some(w@),
            None => word_of(lossy_text(payload@)) is None,
        },
        valid_utf8(payload@) ==> lossy_text(payload@) == decode_utf8(payload@),
{
    let text = decode_lossy(payload);
    received_word(text.as_str())
}

/// The payload that carries a word: its UTF-8 bytes, with nothing before
/// or after them.
pub fn payload_of(word: &str) -> (payload: &[u8])
    ensures
        payload@ == encode_utf8(word@),
{
    word.as_bytes()
}

/// The word that the trigger sends: what it was given, or `hello` where
/// that is blank.
pub fn trigger_word(given: &str) -> (word: String)
    ensures
        word@ == if word_of(given@) is None {
            "hello"@
        } else {
            given@
        },
{
    match received_word(given) {
        None => "hello".to_owned(),
        Some(_) => given.to_owned(),
    }
}

/// What is sent is what arrives: the payload of a word is valid UTF-8, and
/// read back it carries the same word as the text that was sent.
pub proof fn lemma_payload_carries_word(text: Seq<char>)
    ensures
        valid_utf8(encode_utf8(text)),
        word_of(decode_utf8(encode_utf8(text))) == word_of(text),
{
    encode_utf8_valid_utf8(text);
    encode_utf8_decode_utf8(text);
}

} // verus!
