//! A codec for the sources file: one flat JSON object whose keys are source
//! names and whose values are URL templates.

use crate::sources::{all_kept, keep_entry, sources_view, Entry, Sources};
use crate::text::{
    chars_of, hex_digit_value, hex_value, is_control, is_control_char, is_whitespace,
    is_whitespace_char, push_char, trim_start, upper_hex, upper_hex_digit,
};
use vstd::prelude::*;
use vstd::string::*;

verus! {

/// Why a text is not a sources object.
#[derive(Debug, PartialEq, Eq)]
pub enum JsonError {
    /// Another character was required here; `found` is `None` at the end of
    /// the input.
    Expected { expected: char, found: Option<char> },
    /// The input ended inside a string.
    UnterminatedString,
    /// The input ended right after a backslash.
    IncompleteEscape,
    /// The input ended inside the four digits of a `\u` escape.
    IncompleteUnicodeEscape,
    /// A `\u` escape holds a character that is no hexadecimal digit.
    InvalidUnicodeDigits,
    /// A `\u` escape names a surrogate, which is no character.
    InvalidUnicodeScalar,
    /// A backslash is followed by a character that starts no escape.
    UnsupportedEscape,
    /// Something other than white space follows the closing brace.
    TrailingContent,
}

// ---------------------------------------------------------------------
// The grammar, as functions from the remaining input to a value and the
// input that is left.
// ---------------------------------------------------------------------

/// The input starts with `c`.
pub open spec fn head_is(s: Seq<char>, c: char) -> bool {
    s.len() > 0 && s[0] == c
}

/// The first character of the input, if any.
pub open spec fn head(s: Seq<char>) -> Option<char> {
    if s.len() > 0 {
        Some(s[0])
    } else {
        None
    }
}

/// The input without its first character; the empty input stays empty.
pub open spec fn advance(s: Seq<char>) -> Seq<char> {
    if s.len() > 0 {
        s.skip(1)
    } else {
        s
    }
}

/// The error for an input that does not start with `c`.
pub open spec fn expected(c: char, s: Seq<char>) -> JsonError {
    JsonError::Expected { expected: c, found: head(s) }
}

/// One hexadecimal digit at the start of the input.
pub open spec fn hex_at(s: Seq<char>) -> Result<u32, JsonError> {
    if s.len() == 0 {
        Err(JsonError::IncompleteUnicodeEscape)
    } else {
        match hex_value(s[0]) {
            None => Err(JsonError::InvalidUnicodeDigits),
            Some(d) => Ok(d),
        }
    }
}

/// A code point that is a character: at most U+10FFFF and no surrogate.
pub open spec fn is_scalar_value(v: u32) -> bool {
    v <= 0x10FFFF && !(0xD800 <= v <= 0xDFFF)
}

/// The four digits after `\u`, read left to right, and the character they
/// name.
pub open spec fn unicode_escape(s: Seq<char>) -> Result<(char, Seq<char>), JsonError> {
    match hex_at(s) {
        Err(e) => Err(e),
        Ok(d0) => match hex_at(s.skip(1)) {
            Err(e) => Err(e),
            Ok(d1) => match hex_at(s.skip(2)) {
                Err(e) => Err(e),
                Ok(d2) => match hex_at(s.skip(3)) {
                    Err(e) => Err(e),
                    Ok(d3) => {
                        let v = (d0 * 4096 + d1 * 256 + d2 * 16 + d3) as u32;
                        if is_scalar_value(v) {
                            Ok((v as char, s.skip(4)))
                        } else {
                            Err(JsonError::InvalidUnicodeScalar)
                        }
                    },
                },
            },
        },
    }
}

/// What follows a backslash inside a string.
pub open spec fn escape_sequence(s: Seq<char>) -> Result<(char, Seq<char>), JsonError> {
    if s.len() == 0 {
        Err(JsonError::IncompleteEscape)
    } else if s[0] == '"' {
        Ok(('"', s.skip(1)))
    } else if s[0] == '\\' {
        Ok(('\\', s.skip(1)))
    } else if s[0] == '/' {
        Ok(('/', s.skip(1)))
    } else if s[0] == 'b' {
        Ok(('\u{08}', s.skip(1)))
    } else if s[0] == 'f' {
        Ok(('\u{0c}', s.skip(1)))
    } else if s[0] == 'n' {
        Ok(('\n', s.skip(1)))
    } else if s[0] == 'r' {
        Ok(('\r', s.skip(1)))
    } else if s[0] == 't' {
        Ok(('\t', s.skip(1)))
    } else if s[0] == 'u' {
        unicode_escape(s.skip(1))
    } else {
        Err(JsonError::UnsupportedEscape)
    }
}

/// The rest of a string after its opening quote; `acc` holds the characters
/// read so far.
pub open spec fn string_body(s: Seq<char>, acc: Seq<char>) -> Result<
    (Seq<char>, Seq<char>),
    JsonError,
>
    decreases s.len(),
{
    if s.len() == 0 {
        Err(JsonError::UnterminatedString)
    } else if s[0] == '"' {
        Ok((acc, s.skip(1)))
    } else if s[0] == '\\' {
        match escape_sequence(s.skip(1)) {
            Err(e) => Err(e),
            Ok((c, rest)) => string_body(rest, acc.push(c)),
        }
    } else {
        string_body(s.skip(1), acc.push(s[0]))
    }
}

/// A string that is never closed fails: a body without a quote and without
/// a backslash runs into the end of the input.
pub proof fn lemma_unclosed_string_fails(s: Seq<char>, acc: Seq<char>)
    requires
        forall|i: int| 0 <= i < s.len() ==> #[trigger] s[i] != '"' && s[i] != '\\',
    ensures
        string_body(s, acc) == Err::<(Seq<char>, Seq<char>), JsonError>(
            JsonError::UnterminatedString,
        ),
    decreases s.len(),
{
    if s.len() > 0 {
        assert(s[0] != '"' && s[0] != '\\');
        assert forall|i: int| 0 <= i < s.skip(1).len() implies #[trigger] s.skip(1)[i] != '"'
            && s.skip(1)[i] != '\\' by {
            assert(s.skip(1)[i] == s[i + 1]);
        }
        lemma_unclosed_string_fails(s.skip(1), acc.push(s[0]));
    }
}

/// A string: an opening quote and its body.
pub open spec fn string_token(s: Seq<char>) -> Result<(Seq<char>, Seq<char>), JsonError> {
    if head_is(s, '"') {
        string_body(s.skip(1), Seq::empty())
    } else {
        Err(expected('"', s))
    }
}

/// The entries of an object from its first key on: `"key" : "value"` pairs
/// with a comma between them, then the closing brace. `acc` holds the
/// entries kept so far.
pub open spec fn members(s: Seq<char>, acc: Seq<Entry>) -> Result<(Seq<Entry>, Seq<char>), JsonError>
    decreases s.len(),
    via members_decreases
{
    match string_token(s) {
        Err(e) => Err(e),
        Ok((key, after_key)) => {
            let at_colon = trim_start(after_key);
            if !head_is(at_colon, ':') {
                Err(expected(':', at_colon))
            } else {
                match string_token(trim_start(at_colon.skip(1))) {
                    Err(e) => Err(e),
                    Ok((value, after_value)) => {
                        let kept = if keep_entry(key, value) {
                            acc.push((key, value))
                        } else {
                            acc
                        };
                        let at_sep = trim_start(after_value);
                        if head_is(at_sep, ',') {
                            members(trim_start(at_sep.skip(1)), kept)
                        } else if head_is(at_sep, '}') {
                            Ok((kept, at_sep.skip(1)))
                        } else {
                            Err(expected('}', at_sep))
                        }
                    },
                }
            }
        },
    }
}

#[via_fn]
proof fn members_decreases(s: Seq<char>, acc: Seq<Entry>) {
    if let Ok((key, after_key)) = string_token(s) {
        lemma_string_token_shrinks(s);
        let at_colon = trim_start(after_key);
        lemma_trim_start_shrinks(after_key);
        if head_is(at_colon, ':') {
            let at_value = trim_start(at_colon.skip(1));
            lemma_trim_start_shrinks(at_colon.skip(1));
            if let Ok((value, after_value)) = string_token(at_value) {
                lemma_string_token_shrinks(at_value);
                let at_sep = trim_start(after_value);
                lemma_trim_start_shrinks(after_value);
                if head_is(at_sep, ',') {
                    lemma_trim_start_shrinks(at_sep.skip(1));
                }
            }
        }
    }
}

/// Reading members adds only entries whose name and template are not
/// empty.
pub proof fn lemma_members_kept(s: Seq<char>, acc: Seq<Entry>)
    requires
        all_kept(acc),
    ensures
        members(s, acc) matches Ok((entries, _)) ==> all_kept(entries),
    decreases s.len(),
{
    if let Ok((key, after_key)) = string_token(s) {
        lemma_string_token_shrinks(s);
        let at_colon = trim_start(after_key);
        lemma_trim_start_shrinks(after_key);
        if head_is(at_colon, ':') {
            let at_value = trim_start(at_colon.skip(1));
            lemma_trim_start_shrinks(at_colon.skip(1));
            if let Ok((value, after_value)) = string_token(at_value) {
                lemma_string_token_shrinks(at_value);
                let kept = if keep_entry(key, value) {
                    acc.push((key, value))
                } else {
                    acc
                };
                assert(all_kept(kept));
                let at_sep = trim_start(after_value);
                lemma_trim_start_shrinks(after_value);
                if head_is(at_sep, ',') {
                    lemma_trim_start_shrinks(at_sep.skip(1));
                    lemma_members_kept(trim_start(at_sep.skip(1)), kept);
                }
            }
        }
    }
}

/// No entry of a text that parses has an empty name or an empty template.
pub proof fn lemma_document_kept(s: Seq<char>)
    ensures
        document(s) matches Ok(entries) ==> all_kept(entries),
{
    let inside = trim_start(trim_start(s).skip(1));
    lemma_members_kept(inside, Seq::empty());
}

/// A whole sources text: white space, `{`, the entries, `}`, white space.
/// A comma must be followed by another entry.
pub open spec fn document(s: Seq<char>) -> Result<Seq<Entry>, JsonError> {
    let at_open = trim_start(s);
    if !head_is(at_open, '{') {
        Err(expected('{', at_open))
    } else {
        let inside = trim_start(at_open.skip(1));
        let body = if head_is(inside, '}') {
            Ok((Seq::<Entry>::empty(), inside.skip(1)))
        } else {
            members(inside, Seq::<Entry>::empty())
        };
        match body {
            Err(e) => Err(e),
            Ok((entries, rest)) => if trim_start(rest).len() == 0 {
                Ok(entries)
            } else {
                Err(JsonError::TrailingContent)
            },
        }
    }
}

/// Skipping white space never lengthens the input.
pub proof fn lemma_trim_start_shrinks(s: Seq<char>)
    ensures
        trim_start(s).len() <= s.len(),
    decreases s.len(),
{
    if s.len() > 0 && is_whitespace(s[0]) {
        lemma_trim_start_shrinks(s.drop_first());
    }
}

/// A string body that ends leaves less input than it was given.
pub proof fn lemma_string_body_shrinks(s: Seq<char>, acc: Seq<char>)
    ensures
        string_body(s, acc) matches Ok((_, rest)) ==> rest.len() < s.len(),
    decreases s.len(),
{
    if s.len() == 0 || s[0] == '"' {
    } else if s[0] == '\\' {
        if let Ok((c, rest)) = escape_sequence(s.skip(1)) {
            lemma_string_body_shrinks(rest, acc.push(c));
        }
    } else {
        lemma_string_body_shrinks(s.skip(1), acc.push(s[0]));
    }
}

/// A string leaves less input than it was given.
pub proof fn lemma_string_token_shrinks(s: Seq<char>)
    ensures
        string_token(s) matches Ok((_, rest)) ==> rest.len() < s.len(),
{
    if head_is(s, '"') {
        lemma_string_body_shrinks(s.skip(1), Seq::empty());
    }
}

/// `char::from_u32` gives the character with the given code point, and
/// `None` exactly for the numbers that are no character: the surrogates and
/// everything above U+10FFFF.
pub assume_specification[ char::from_u32 ](i: u32) -> (c: Option<char>)
    ensures
        c == if is_scalar_value(i) {
            Some(i as char)
        } else {
            None::<char>
        },
;

/// A cursor over the characters of a text.
pub struct JsonParser {
    input: Vec<char>,
    pos: usize,
}

impl JsonParser {
    /// The cursor lies within the input.
    pub closed spec fn wf(&self) -> bool {
        self.pos <= self.input@.len()
    }

    /// The input from the cursor on.
    pub closed spec fn remaining(&self) -> Seq<char> {
        self.input@.skip(self.pos as int)
    }

    /// A cursor at the start of `input`.
    pub fn new(input: &str) -> (parser: Self)
        ensures
            parser.wf(),
            parser.remaining() == input@,
    {
        let parser = JsonParser { input: chars_of(input), pos: 0 };
        assert(parser.input@.skip(0) =~= input@);
        parser
    }

    /// Whether the whole input has been read.
    pub fn is_eof(&self) -> (eof: bool)
        requires
            self.wf(),
        ensures
            eof == (self.remaining().len() == 0),
    {
        self.pos >= self.input.len()
    }

    /// The next character, which stays unread.
    pub fn peek_char(&self) -> (c: Option<char>)
        requires
            self.wf(),
        ensures
            c == head(self.remaining()),
    {
        if self.pos < self.input.len() {
            Some(self.input[self.pos])
        } else {
            None
        }
    }

    /// Reads the next character, if there is one.
    pub fn next_char(&mut self) -> (c: Option<char>)
        requires
            old(self).wf(),
        ensures
            final(self).wf(),
            c == head(old(self).remaining()),
            final(self).remaining() == advance(old(self).remaining()),
    {
        if self.pos < self.input.len() {
            let c = self.input[self.pos];
            self.pos = self.pos + 1;
            assert(self.input@.skip(self.pos as int) =~= old(self).remaining().skip(1));
            Some(c)
        } else {
            None
        }
    }

    /// Reads white space up to the next character that is none.
    pub fn skip_ws(&mut self)
        requires
            old(self).wf(),
        ensures
            final(self).wf(),
            final(self).remaining() == trim_start(old(self).remaining()),
    {
        while self.pos < self.input.len() && is_whitespace_char(self.input[self.pos])
            invariant
                self.wf(),
                self.input == old(self).input,
                trim_start(self.remaining()) == trim_start(old(self).remaining()),
            decreases self.input@.len() - self.pos,
        {
            assert(self.remaining().drop_first() =~= self.input@.skip(self.pos + 1));
            self.pos = self.pos + 1;
        }
    }

    /// Reads one character, which has to be `expected`.
    pub fn expect_char(&mut self, expected: char) -> (r: Result<(), JsonError>)
        requires
            old(self).wf(),
        ensures
            final(self).wf(),
            final(self).remaining() == advance(old(self).remaining()),
            r == if head_is(old(self).remaining(), expected) {
                Ok::<(), JsonError>(())
            } else {
                Err::<(), JsonError>(self::expected(expected, old(self).remaining()))
            },
    {
        match self.next_char() {
            Some(ch) => {
                if ch == expected {
                    Ok(())
                } else {
                    Err(JsonError::Expected { expected, found: Some(ch) })
                }
            },
            None => Err(JsonError::Expected { expected, found: None }),
        }
    }

    /// Reads the next character if it is `expected`, and says whether it did.
    pub fn consume_char(&mut self, expected: char) -> (consumed: bool)
        requires
            old(self).wf(),
        ensures
            final(self).wf(),
            consumed == head_is(old(self).remaining(), expected),
            final(self).remaining() == if consumed {
                old(self).remaining().skip(1)
            } else {
                old(self).remaining()
            },
    {
        match self.peek_char() {
            Some(ch) => {
                if ch == expected {
                    let _ = self.next_char();
                    true
                } else {
                    false
                }
            },
            None => false,
        }
    }

    /// Reads one hexadecimal digit of a `\u` escape.
    fn hex_digit(&mut self) -> (r: Result<u32, JsonError>)
        requires
            old(self).wf(),
        ensures
            final(self).wf(),
            final(self).remaining() == advance(old(self).remaining()),
            r == hex_at(old(self).remaining()),
            r matches Ok(d) ==> d < 16,
    {
        match self.next_char() {
            None => Err(JsonError::IncompleteUnicodeEscape),
            Some(ch) => match hex_digit_value(ch) {
                None => Err(JsonError::InvalidUnicodeDigits),
                Some(d) => Ok(d),
            },
        }
    }

    /// Reads the four digits that follow `\u`.
    fn parse_unicode_escape(&mut self) -> (r: Result<char, JsonError>)
        requires
            old(self).wf(),
        ensures
            final(self).wf(),
            match unicode_escape(old(self).remaining()) {
                Ok((c, rest)) => r == Ok::<char, JsonError>(c) && final(self).remaining() == rest,
                Err(e) => r == Err::<char, JsonError>(e),
            },
    {
        let ghost start = self.remaining();
        let d0 = match self.hex_digit() {
            Err(e) => { return Err(e); },
            Ok(d) => d,
        };
        let d1 = match self.hex_digit() {
            Err(e) => { return Err(e); },
            Ok(d) => d,
        };
        assert(self.remaining() =~= start.skip(2));
        let d2 = match self.hex_digit() {
            Err(e) => { return Err(e); },
            Ok(d) => d,
        };
        assert(self.remaining() =~= start.skip(3));
        let d3 = match self.hex_digit() {
            Err(e) => { return Err(e); },
            Ok(d) => d,
        };
        assert(self.remaining() =~= start.skip(4));
        let value: u32 = d0 * 4096 + d1 * 256 + d2 * 16 + d3;
        match char::from_u32(value) {
            None => Err(JsonError::InvalidUnicodeScalar),
            Some(c) => Ok(c),
        }
    }

    /// Reads what follows a backslash.
    fn parse_escape(&mut self) -> (r: Result<char, JsonError>)
        requires
            old(self).wf(),
        ensures
            final(self).wf(),
            match escape_sequence(old(self).remaining()) {
                Ok((c, rest)) => r == Ok::<char, JsonError>(c) && final(self).remaining() == rest,
                Err(e) => r == Err::<char, JsonError>(e),
            },
    {
        let escaped = match self.next_char() {
            None => { return Err(JsonError::IncompleteEscape); },
            Some(c) => c,
        };
        if escaped == '"' {
            Ok('"')
        } else if escaped == '\\' {
            Ok('\\')
        } else if escaped == '/' {
            Ok('/')
        } else if escaped == 'b' {
            Ok('\u{08}')
        } else if escaped == 'f' {
            Ok('\u{0c}')
        } else if escaped == 'n' {
            Ok('\n')
        } else if escaped == 'r' {
            Ok('\r')
        } else if escaped == 't' {
            Ok('\t')
        } else if escaped == 'u' {
            self.parse_unicode_escape()
        } else {
            Err(JsonError::UnsupportedEscape)
        }
    }

    /// Reads a string, from its opening quote to its closing quote, and
    /// gives the characters it stands for.
    pub fn parse_string(&mut self) -> (r: Result<String, JsonError>)
        requires
            old(self).wf(),
        ensures
            final(self).wf(),
            match string_token(old(self).remaining()) {
                Ok((value, rest)) => r is Ok && r->Ok_0@ == value && final(self).remaining()
                    == rest,
                Err(e) => r == Err::<String, JsonError>(e),
            },
    {
        match self.expect_char('"') {
            Err(e) => { return Err(e); },
            Ok(()) => {},
        }
        let ghost body = self.remaining();
        let mut result = String::new();
        loop
            invariant
                self.wf(),
                string_token(old(self).remaining()) == string_body(body, Seq::empty()),
                string_body(self.remaining(), result@) == string_body(body, Seq::empty()),
            decreases self.remaining().len(),
        {
            let ghost before = self.remaining();
            let ch = match self.next_char() {
                None => { return Err(JsonError::UnterminatedString); },
                Some(c) => c,
            };
            if ch == '"' {
                return Ok(result);
            } else if ch == '\\' {
                let c = match self.parse_escape() {
                    Err(e) => { return Err(e); },
                    Ok(c) => c,
                };
                proof {
                    lemma_string_body_shrinks(before, result@);
                }
                push_char(&mut result, c);
            } else {
                push_char(&mut result, ch);
            }
        }
    }

    /// Reads the entries of an object from its first key to its closing
    /// brace, and gives those whose name and template are not empty.
    pub fn parse_members(&mut self) -> (r: Result<Sources, JsonError>)
        requires
            old(self).wf(),
        ensures
            final(self).wf(),
            match members(old(self).remaining(), Seq::empty()) {
                Ok((entries, rest)) => r is Ok && sources_view(&r->Ok_0) == entries
                    && final(self).remaining() == rest,
                Err(e) => r == Err::<Sources, JsonError>(e),
            },
    {
        let mut sources: Sources = Vec::new();
        assert(sources_view(&sources) =~= Seq::<Entry>::empty());
        loop
            invariant
                self.wf(),
                members(self.remaining(), sources_view(&sources)) == members(
                    old(self).remaining(),
                    Seq::empty(),
                ),
            decreases self.remaining().len(),
        {
            let ghost start = self.remaining();
            let ghost acc = sources_view(&sources);
            let key = match self.parse_string() {
                Err(e) => { return Err(e); },
                Ok(k) => k,
            };
            proof {
                lemma_string_token_shrinks(start);
                lemma_trim_start_shrinks(self.remaining());
            }
            self.skip_ws();
            match self.expect_char(':') {
                Err(e) => { return Err(e); },
                Ok(()) => {},
            }
            proof {
                lemma_trim_start_shrinks(self.remaining());
            }
            self.skip_ws();
            let ghost at_value = self.remaining();
            let value = match self.parse_string() {
                Err(e) => { return Err(e); },
                Ok(v) => v,
            };
            proof {
                lemma_string_token_shrinks(at_value);
                lemma_trim_start_shrinks(self.remaining());
            }
            if !key.as_str().is_empty() && !value.as_str().is_empty() {
                let ghost entry = (key@, value@);
                sources.push((key, value));
                assert(sources_view(&sources) =~= acc.push(entry));
            }
            self.skip_ws();
            if self.consume_char(',') {
                proof {
                    lemma_trim_start_shrinks(self.remaining());
                }
                self.skip_ws();
            } else {
                match self.expect_char('}') {
                    Err(e) => { return Err(e); },
                    Ok(()) => { return Ok(sources); },
                }
            }
        }
    }
}

/// Reads a sources text. The result holds the entries in the order in which
/// the text gives them, without those whose name or template is empty.
pub fn parse_sources_json(input: &str) -> (r: Result<Sources, JsonError>)
    ensures
        match document(input@) {
            Ok(entries) => r is Ok && sources_view(&r->Ok_0) == entries,
            Err(e) => r == Err::<Sources, JsonError>(e),
        },
        r matches Ok(sources) ==> all_kept(sources_view(&sources)),
{
    proof {
        lemma_document_kept(input@);
    }
    let mut parser = JsonParser::new(input);
    parser.skip_ws();
    match parser.expect_char('{') {
        Err(e) => { return Err(e); },
        Ok(()) => {},
    }
    parser.skip_ws();
    let sources = if parser.consume_char('}') {
        let empty: Sources = Vec::new();
        assert(sources_view(&empty) =~= Seq::<Entry>::empty());
        empty
    } else {
        match parser.parse_members() {
            Err(e) => { return Err(e); },
            Ok(s) => s,
        }
    };
    parser.skip_ws();
    if !parser.is_eof() {
        return Err(JsonError::TrailingContent);
    }
    Ok(sources)
}

// ---------------------------------------------------------------------
// Writing
// ---------------------------------------------------------------------

/// How one character is written inside a string: quotes, backslashes and
/// control characters are escaped, every other character stands for itself.
pub open spec fn escape_char(c: char) -> Seq<char> {
    if c == '"' {
        seq!['\\', '"']
    } else if c == '\\' {
        seq!['\\', '\\']
    } else if c == '\n' {
        seq!['\\', 'n']
    } else if c == '\r' {
        seq!['\\', 'r']
    } else if c == '\t' {
        seq!['\\', 't']
    } else if c == '\u{08}' {
        seq!['\\', 'b']
    } else if c == '\u{0c}' {
        seq!['\\', 'f']
    } else if is_control(c) {
        seq![
            '\\',
            'u',
            '0',
            '0',
            upper_hex((c as u32 / 16) as u8),
            upper_hex((c as u32 % 16) as u8),
        ]
    } else {
        seq![c]
    }
}

/// The escaped form of a string's characters.
pub open spec fn escaped(s: Seq<char>) -> Seq<char>
    decreases s.len(),
{
    if s.len() == 0 {
        Seq::empty()
    } else {
        escape_char(s[0]) + escaped(s.skip(1))
    }
}

/// The line of one entry: two spaces, the quoted name, a colon and a space,
/// the quoted template, a comma unless the entry is the last, a newline.
pub open spec fn entry_line(entry: Entry, last: bool) -> Seq<char> {
    seq![' ', ' ', '"'] + escaped(entry.0) + seq!['"', ':', ' ', '"'] + escaped(entry.1) + (if last {
        seq!['"', '\n']
    } else {
        seq!['"', ',', '\n']
    })
}

/// The lines of all entries, in order.
pub open spec fn entry_lines(entries: Seq<Entry>) -> Seq<char>
    decreases entries.len(),
{
    if entries.len() == 0 {
        Seq::empty()
    } else {
        entry_line(entries[0], entries.len() == 1) + entry_lines(entries.skip(1))
    }
}

/// The text of a source list: an opening brace on a line of its own, one
/// line for each entry, a closing brace and a newline.
pub open spec fn serialized(entries: Seq<Entry>) -> Seq<char> {
    seq!['{', '\n'] + entry_lines(entries) + seq!['}', '\n']
}

/// No control character is written as it is: the escaped form of a string
/// holds none.
pub proof fn lemma_escaped_has_no_control(s: Seq<char>)
    ensures
        forall|i: int| 0 <= i < escaped(s).len() ==> !is_control(#[trigger] escaped(s)[i]),
    decreases s.len(),
{
    if s.len() > 0 {
        lemma_escaped_has_no_control(s.skip(1));
        let first = escape_char(s[0]);
        assert forall|j: int| 0 <= j < first.len() implies !is_control(#[trigger] first[j]) by {}
        assert forall|i: int| 0 <= i < escaped(s).len() implies !is_control(
            #[trigger] escaped(s)[i],
        ) by {
            if i < first.len() {
                assert(escaped(s)[i] == first[i]);
            } else {
                assert(escaped(s)[i] == escaped(s.skip(1))[i - first.len()]);
            }
        }
    }
}

/// Appends the escaped form of `c` to `out`.
fn push_escaped(out: &mut String, c: char)
    ensures
        final(out)@ == old(out)@ + escape_char(c),
{
    if c == '"' {
        push_char(out, '\\');
        push_char(out, '"');
        assert(out@ =~= old(out)@ + escape_char(c));
    } else if c == '\\' {
        push_char(out, '\\');
        push_char(out, '\\');
        assert(out@ =~= old(out)@ + escape_char(c));
    } else if c == '\n' {
        push_char(out, '\\');
        push_char(out, 'n');
        assert(out@ =~= old(out)@ + escape_char(c));
    } else if c == '\r' {
        push_char(out, '\\');
        push_char(out, 'r');
        assert(out@ =~= old(out)@ + escape_char(c));
    } else if c == '\t' {
        push_char(out, '\\');
        push_char(out, 't');
        assert(out@ =~= old(out)@ + escape_char(c));
    } else if c == '\u{08}' {
        push_char(out, '\\');
        push_char(out, 'b');
        assert(out@ =~= old(out)@ + escape_char(c));
    } else if c == '\u{0c}' {
        push_char(out, '\\');
        push_char(out, 'f');
        assert(out@ =~= old(out)@ + escape_char(c));
    } else if is_control_char(c) {
        let code: u32 = c as u32;
        let high: u8 = (code / 16) as u8;
        let low: u8 = (code % 16) as u8;
        push_char(out, '\\');
        push_char(out, 'u');
        push_char(out, '0');
        push_char(out, '0');
        push_char(out, upper_hex_digit(high));
        push_char(out, upper_hex_digit(low));
        assert(out@ =~= old(out)@ + escape_char(c));
    } else {
        push_char(out, c);
        assert(out@ =~= old(out)@ + escape_char(c));
    }
}

/// The form in which a string is written between quotes.
pub fn escape_json_string(value: &str) -> (out: String)
    ensures
        out@ == escaped(value@),
{
    let mut out = String::new();
    assert(value@.skip(0) =~= value@);
    assert(out@ + escaped(value@) =~= escaped(value@));
    for c in it: value.chars()
        invariant
            it.seq() == value@,
            out@ + escaped(value@.skip(it.index() as int)) == escaped(value@),
    {
        let ghost i = it.index() as int;
        let ghost before = out@;
        assert(value@.skip(i).skip(1) =~= value@.skip(i + 1));
        push_escaped(&mut out, c);
        assert((before + escape_char(c)) + escaped(value@.skip(i + 1)) =~= before + (escape_char(c)
            + escaped(value@.skip(i + 1))));
    }
    assert(out@ + Seq::<char>::empty() =~= out@);
    out
}

/// The text of a source list, in the form that `parse_sources_json` reads.
pub fn serialize_sources(sources: &Sources) -> (out: String)
    ensures
        out@ == serialized(sources_view(sources)),
{
    let ghost entries = sources_view(sources);
    let mut out = String::new();
    push_char(&mut out, '{');
    push_char(&mut out, '\n');
    assert(out@ =~= seq!['{', '\n']);
    assert(entries.skip(0) =~= entries);
    let n = sources.len();
    let mut i: usize = 0;
    while i < n
        invariant
            i <= n,
            n == sources@.len(),
            entries == sources_view(sources),
            out@ + entry_lines(entries.skip(i as int)) == seq!['{', '\n'] + entry_lines(entries),
        decreases n - i,
    {
        let ghost before = out@;
        let ghost last = (i + 1 == n);
        let entry = &sources[i];
        assert(entries.skip(i as int).skip(1) =~= entries.skip(i + 1));
        assert(entries.skip(i as int)[0] == entries[i as int]);
        assert(entries[i as int] == (entry.0@, entry.1@));
        push_char(&mut out, ' ');
        push_char(&mut out, ' ');
        push_char(&mut out, '"');
        let name = escape_json_string(entry.0.as_str());
        out.append(name.as_str());
        push_char(&mut out, '"');
        push_char(&mut out, ':');
        push_char(&mut out, ' ');
        push_char(&mut out, '"');
        let template = escape_json_string(entry.1.as_str());
        out.append(template.as_str());
        push_char(&mut out, '"');
        if i + 1 != n {
            push_char(&mut out, ',');
        }
        push_char(&mut out, '\n');
        assert(out@ =~= before + entry_line(entries[i as int], last));
        assert((before + entry_line(entries[i as int], last)) + entry_lines(entries.skip(i + 1))
            =~= before + (entry_line(entries[i as int], last) + entry_lines(entries.skip(i + 1))));
        i += 1;
    }
    push_char(&mut out, '}');
    push_char(&mut out, '\n');
    assert(out@ =~= serialized(entries));
    out
}

} // verus!
