//! Lookup URLs: a template in which a placeholder is replaced by the
//! percent-encoded word.

use crate::text::{chars_of, string_of, upper_hex, upper_hex_digit};
use vstd::prelude::*;
use vstd::string::*;
use vstd::utf8::{encode_utf8, is_ascii_chars, is_ascii_chars_encode_utf8};

verus! {

/// Bytes that are written as they are: ASCII letters and digits, and the
/// four marks `-`, `_`, `.` and `~`.
pub open spec fn is_unreserved(b: u8) -> bool {
    ||| 0x41 <= b <= 0x5A
    ||| 0x61 <= b <= 0x7A
    ||| 0x30 <= b <= 0x39
    ||| b == 0x2D
    ||| b == 0x5F
    ||| b == 0x2E
    ||| b == 0x7E
}

/// One byte in percent-encoded form: itself, or `%` and two upper-case
/// hexadecimal digits.
pub open spec fn encode_byte(b: u8) -> Seq<char> {
    if is_unreserved(b) {
        seq![b as char]
    } else {
        seq!['%', upper_hex(b / 16), upper_hex(b % 16)]
    }
}

/// A byte string in percent-encoded form.
pub open spec fn percent_encode_bytes(bytes: Seq<u8>) -> Seq<char>
    decreases bytes.len(),
{
    if bytes.len() == 0 {
        Seq::empty()
    } else {
        encode_byte(bytes[0]) + percent_encode_bytes(bytes.skip(1))
    }
}

/// A word in percent-encoded form: the encoding of its UTF-8 bytes.
pub open spec fn percent_encoded(word: Seq<char>) -> Seq<char> {
    percent_encode_bytes(encode_utf8(word))
}

/// Characters that are written as they are: ASCII letters and digits, and
/// the four marks `-`, `_`, `.` and `~`.
pub open spec fn is_unreserved_char(c: char) -> bool {
    '\0' <= c <= '\u{7f}' && is_unreserved(c as u8)
}

/// Bytes that are all unreserved are encoded as themselves.
pub proof fn lemma_unreserved_bytes_unchanged(bytes: Seq<u8>)
    requires
        forall|i: int| 0 <= i < bytes.len() ==> is_unreserved(#[trigger] bytes[i]),
    ensures
        percent_encode_bytes(bytes).len() == bytes.len(),
        forall|i: int|
            0 <= i < bytes.len() ==> #[trigger] percent_encode_bytes(bytes)[i] == bytes[i] as char,
    decreases bytes.len(),
{
    if bytes.len() > 0 {
        lemma_unreserved_bytes_unchanged(bytes.skip(1));
        assert forall|i: int| 0 <= i < bytes.len() implies #[trigger] percent_encode_bytes(
            bytes,
        )[i] == bytes[i] as char by {
            if i > 0 {
                assert(percent_encode_bytes(bytes)[i] == percent_encode_bytes(bytes.skip(1))[i - 1]);
                assert(bytes.skip(1)[i - 1] == bytes[i]);
            }
        }
    }
}

/// A word made of unreserved characters alone is its own encoding.
pub proof fn lemma_unreserved_word_unchanged(word: Seq<char>)
    requires
        forall|i: int| 0 <= i < word.len() ==> is_unreserved_char(#[trigger] word[i]),
    ensures
        percent_encoded(word) == word,
{
    assert forall|i: int| 0 <= i < word.len() implies '\0' <= #[trigger] word[i] <= '\u{7f}' by {
        assert(is_unreserved_char(word[i]));
    }
    assert(is_ascii_chars(word));
    is_ascii_chars_encode_utf8(word);
    let bytes = encode_utf8(word);
    assert forall|i: int| 0 <= i < bytes.len() implies is_unreserved(#[trigger] bytes[i]) by {
        assert(bytes[i] == word[i] as u8);
    }
    lemma_unreserved_bytes_unchanged(bytes);
    assert forall|i: int| 0 <= i < word.len() implies #[trigger] percent_encoded(word)[i]
        == word[i] by {
        assert(bytes[i] == word[i] as u8);
        assert(percent_encode_bytes(bytes)[i] == bytes[i] as char);
    }
    assert(percent_encoded(word) =~= word);
}

/// `pattern` stands in `s` at index `i`.
pub open spec fn matches_at(s: Seq<char>, i: int, pattern: Seq<char>) -> bool {
    0 <= i && i + pattern.len() <= s.len() && s.subrange(i, i + pattern.len()) == pattern
}

/// `pattern` stands somewhere in `s`.
pub open spec fn contains_seq(s: Seq<char>, pattern: Seq<char>) -> bool {
    exists|i: int| matches_at(s, i, pattern)
}

/// `s` with every occurrence of `pattern` replaced by `with`, the
/// occurrences taken from left to right without overlap. An empty pattern
/// replaces nothing.
pub open spec fn replace_all(s: Seq<char>, pattern: Seq<char>, with: Seq<char>) -> Seq<char>
    decreases s.len(),
{
    if pattern.len() == 0 || s.len() < pattern.len() {
        s
    } else if s.subrange(0, pattern.len() as int) == pattern {
        with + replace_all(s.skip(pattern.len() as int), pattern, with)
    } else {
        seq![s[0]] + replace_all(s.skip(1), pattern, with)
    }
}

/// The placeholder `{word}`.
pub open spec fn word_placeholder() -> Seq<char> {
    seq!['{', 'w', 'o', 'r', 'd', '}']
}

/// The placeholder `%s`.
pub open spec fn printf_placeholder() -> Seq<char> {
    seq!['%', 's']
}

/// The URL for a word: where the template holds `{word}`, every `{word}`
/// is replaced by the encoded word; else, where it holds `%s`, every `%s`
/// is; else the encoded word is appended.
pub open spec fn lookup_url(template: Seq<char>, word: Seq<char>) -> Seq<char> {
    let encoded = percent_encoded(word);
    if contains_seq(template, word_placeholder()) {
        replace_all(template, word_placeholder(), encoded)
    } else if contains_seq(template, printf_placeholder()) {
        replace_all(template, printf_placeholder(), encoded)
    } else {
        template + encoded
    }
}

fn is_unreserved_byte(b: u8) -> (r: bool)
    ensures
        r == is_unreserved(b),
{
    (0x41 <= b && b <= 0x5A) || (0x61 <= b && b <= 0x7A) || (0x30 <= b && b <= 0x39) || b == 0x2D
        || b == 0x5F || b == 0x2E || b == 0x7E
}

/// The percent-encoded form of a byte string, as characters.
fn percent_encode_slice(bytes: &[u8]) -> (out: Vec<char>)
    ensures
        out@ == percent_encode_bytes(bytes@),
{
    let mut out: Vec<char> = Vec::new();
    let mut i: usize = 0;
    assert(bytes@.skip(0) =~= bytes@);
    assert(out@ + percent_encode_bytes(bytes@) =~= percent_encode_bytes(bytes@));
    while i < bytes.len()
        invariant
            i <= bytes@.len(),
            out@ + percent_encode_bytes(bytes@.skip(i as int)) == percent_encode_bytes(bytes@),
        decreases bytes.len() - i,
    {
        let b = bytes[i];
        let ghost before = out@;
        let ghost rest = percent_encode_bytes(bytes@.skip(i + 1));
        assert(bytes@.skip(i as int).skip(1) =~= bytes@.skip(i + 1));
        if is_unreserved_byte(b) {
            out.push(b as char);
        } else {
            out.push('%');
            out.push(upper_hex_digit(b / 16));
            out.push(upper_hex_digit(b % 16));
        }
        assert(out@ =~= before + encode_byte(b));
        assert((before + encode_byte(b)) + rest =~= before + (encode_byte(b) + rest));
        i += 1;
    }
    assert(out@ + Seq::<char>::empty() =~= out@);
    out
}

/// Percent-encodes a word, byte by byte over its UTF-8 form.
pub fn percent_encode(value: &str) -> (encoded: String)
    ensures
        encoded@ == percent_encoded(value@),
{
    let out = percent_encode_slice(value.as_bytes());
    string_of(out.as_slice())
}

/// Whether `pattern` stands in `s` at index `i`.
fn starts_with_at(s: &[char], i: usize, pattern: &[char]) -> (r: bool)
    ensures
        r == matches_at(s@, i as int, pattern@),
{
    if i > s.len() || pattern.len() > s.len() - i {
        return false;
    }
    let mut k: usize = 0;
    while k < pattern.len()
        invariant
            k <= pattern@.len(),
            i + pattern@.len() <= s@.len() <= usize::MAX,
            forall|j: int| 0 <= j < k ==> s@[i + j] == pattern@[j],
        decreases pattern.len() - k,
    {
        if s[i + k] != pattern[k] {
            assert(s@.subrange(i as int, i + pattern@.len())[k as int] != pattern@[k as int]);
            return false;
        }
        k += 1;
    }
    assert(s@.subrange(i as int, i + pattern@.len()) =~= pattern@);
    true
}

/// Replaces every occurrence of a pattern, from left to right and without
/// overlap, and says whether there was one. An empty pattern stands
/// everywhere and replaces nothing.
pub fn replace_pattern(s: &[char], pattern: &[char], with: &[char]) -> (r: (Vec<char>, bool))
    ensures
        r.0@ == replace_all(s@, pattern@, with@),
        r.1 == contains_seq(s@, pattern@),
{
    let mut out: Vec<char> = Vec::new();
    let mut found = false;
    let mut i: usize = 0;
    if pattern.len() == 0 {
        while i < s.len()
            invariant
                i <= s@.len(),
                out@ == s@.take(i as int),
            decreases s.len() - i,
        {
            out.push(s[i]);
            i += 1;
            assert(out@ =~= s@.take(i as int));
        }
        assert(s@.take(i as int) =~= s@);
        assert(s@.subrange(0, 0) =~= pattern@);
        assert(matches_at(s@, 0, pattern@));
        return (out, true);
    }
    assert(s@.skip(0) =~= s@);
    assert(out@ + replace_all(s@, pattern@, with@) =~= replace_all(s@, pattern@, with@));
    while i < s.len()
        invariant
            i <= s@.len(),
            pattern@.len() > 0,
            out@ + replace_all(s@.skip(i as int), pattern@, with@) == replace_all(
                s@,
                pattern@,
                with@,
            ),
            found ==> contains_seq(s@, pattern@),
            !found ==> forall|j: int| 0 <= j < i ==> !matches_at(s@, j, pattern@),
        decreases s.len() - i,
    {
        let ghost before = out@;
        let ghost here = s@.skip(i as int);
        if starts_with_at(s, i, pattern) {
            found = true;
            let ghost rest = replace_all(s@.skip(i + pattern@.len()), pattern@, with@);
            assert(here.subrange(0, pattern@.len() as int) =~= s@.subrange(
                i as int,
                i + pattern@.len(),
            ));
            assert(here.skip(pattern@.len() as int) =~= s@.skip(i + pattern@.len()));
            let mut k: usize = 0;
            while k < with.len()
                invariant
                    k <= with@.len(),
                    out@ == before + with@.take(k as int),
                decreases with.len() - k,
            {
                out.push(with[k]);
                k += 1;
                assert(out@ =~= before + with@.take(k as int));
            }
            assert(with@.take(k as int) =~= with@);
            assert((before + with@) + rest =~= before + (with@ + rest));
            i += pattern.len();
        } else {
            let ghost rest = replace_all(s@.skip(i + 1), pattern@, with@);
            assert(here.skip(1) =~= s@.skip(i + 1));
            proof {
                if here.len() >= pattern@.len() {
                    assert(here.subrange(0, pattern@.len() as int) =~= s@.subrange(
                        i as int,
                        i + pattern@.len(),
                    ));
                } else {
                    assert(rest == s@.skip(i + 1));
                    assert(here =~= seq![s@[i as int]] + rest);
                }
            }
            out.push(s[i]);
            assert(out@ =~= before + seq![s@[i as int]]);
            assert((before + seq![s@[i as int]]) + rest =~= before + (seq![s@[i as int]] + rest));
            i += 1;
        }
    }
    assert(out@ + Seq::<char>::empty() =~= out@);
    (out, found)
}

/// Builds the URL that looks `word` up with the given template.
pub fn build_lookup_url(template: &str, word: &str) -> (url: String)
    ensures
        url@ == lookup_url(template@, word@),
{
    let chars = chars_of(template);
    let encoded = percent_encode_slice(word.as_bytes());
    let braces: Vec<char> = vec!['{', 'w', 'o', 'r', 'd', '}'];
    assert(braces@ =~= word_placeholder());
    let (replaced, found) = replace_pattern(chars.as_slice(), braces.as_slice(), encoded.as_slice());
    if found {
        return string_of(replaced.as_slice());
    }
    let printf: Vec<char> = vec!['%', 's'];
    assert(printf@ =~= printf_placeholder());
    let (replaced, found) = replace_pattern(chars.as_slice(), printf.as_slice(), encoded.as_slice());
    if found {
        return string_of(replaced.as_slice());
    }
    let mut url = string_of(chars.as_slice());
    let tail = string_of(encoded.as_slice());
    url.append(tail.as_str());
    url
}

} // verus!
