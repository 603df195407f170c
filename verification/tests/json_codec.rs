use word_lookup::json::{escape_json_string, parse_sources_json, serialize_sources, JsonError, JsonParser};
use word_lookup::sources::Sources;

fn pair(name: &str, template: &str) -> (String, String) {
    (name.to_string(), template.to_string())
}

#[test]
fn parses_a_flat_object_in_order() {
    let parsed = parse_sources_json("{\"b\": \"2\", \"a\": \"1\", \"c\": \"3\"}").unwrap();
    assert_eq!(parsed, vec![pair("b", "2"), pair("a", "1"), pair("c", "3")]);
}

#[test]
fn parses_the_empty_object() {
    assert_eq!(parse_sources_json("{}").unwrap(), Sources::new());
    assert_eq!(parse_sources_json(" \n\t{ \r\n } \n").unwrap(), Sources::new());
}

#[test]
fn keeps_duplicate_names() {
    let parsed = parse_sources_json("{\"a\":\"1\",\"a\":\"2\"}").unwrap();
    assert_eq!(parsed, vec![pair("a", "1"), pair("a", "2")]);
}

#[test]
fn reads_every_escape() {
    let parsed = parse_sources_json("{\"k\":\"\\\"\\\\\\/\\b\\f\\n\\r\\t\\u0041\\u00e9\\u20AC\"}").unwrap();
    assert_eq!(parsed, vec![pair("k", "\"\\/\u{08}\u{0c}\n\r\tA\u{e9}\u{20ac}")]);
}

#[test]
fn skips_unicode_white_space_between_tokens() {
    let parsed = parse_sources_json("\u{a0}{\u{2003}\"a\"\u{3000}:\u{85}\"b\"\u{2028}}\u{205f}").unwrap();
    assert_eq!(parsed, vec![pair("a", "b")]);
}

#[test]
fn rejects_unterminated_string() {
    assert_eq!(parse_sources_json("{\"a\":\"b"), Err(JsonError::UnterminatedString));
    assert_eq!(parse_sources_json("{\"a"), Err(JsonError::UnterminatedString));
}

#[test]
fn rejects_missing_closing_brace() {
    assert_eq!(
        parse_sources_json("{\"a\":\"b\""),
        Err(JsonError::Expected { expected: '}', found: None })
    );
    assert_eq!(
        parse_sources_json("{\"a\":\"b\" \"c\":\"d\"}"),
        Err(JsonError::Expected { expected: '}', found: Some('"') })
    );
}

#[test]
fn rejects_missing_opening_brace() {
    assert_eq!(
        parse_sources_json("\"a\":\"b\"}"),
        Err(JsonError::Expected { expected: '{', found: Some('"') })
    );
    assert_eq!(parse_sources_json(""), Err(JsonError::Expected { expected: '{', found: None }));
    assert_eq!(parse_sources_json("   "), Err(JsonError::Expected { expected: '{', found: None }));
}

#[test]
fn rejects_missing_colon() {
    assert_eq!(
        parse_sources_json("{\"a\" \"b\"}"),
        Err(JsonError::Expected { expected: ':', found: Some('"') })
    );
}

#[test]
fn rejects_values_that_are_no_strings() {
    assert_eq!(
        parse_sources_json("{\"a\": 1}"),
        Err(JsonError::Expected { expected: '"', found: Some('1') })
    );
    assert_eq!(
        parse_sources_json("{\"a\": [\"b\"]}"),
        Err(JsonError::Expected { expected: '"', found: Some('[') })
    );
}

#[test]
fn rejects_invalid_unicode_digits() {
    assert_eq!(parse_sources_json("{\"a\":\"\\uZZZZ\"}"), Err(JsonError::InvalidUnicodeDigits));
    assert_eq!(parse_sources_json("{\"a\":\"\\u12G4\"}"), Err(JsonError::InvalidUnicodeDigits));
}

#[test]
fn rejects_incomplete_unicode_escape() {
    assert_eq!(parse_sources_json("{\"a\":\"\\u12"), Err(JsonError::IncompleteUnicodeEscape));
    assert_eq!(parse_sources_json("{\"a\":\"\\u"), Err(JsonError::IncompleteUnicodeEscape));
}

#[test]
fn rejects_surrogate_escape() {
    assert_eq!(parse_sources_json("{\"a\":\"\\uD800\"}"), Err(JsonError::InvalidUnicodeScalar));
    assert_eq!(parse_sources_json("{\"a\":\"\\udfff\"}"), Err(JsonError::InvalidUnicodeScalar));
    assert_eq!(parse_sources_json("{\"a\":\"\\uD7FF\"}").unwrap(), vec![pair("a", "\u{d7ff}")]);
    assert_eq!(parse_sources_json("{\"a\":\"\\uE000\"}").unwrap(), vec![pair("a", "\u{e000}")]);
}

#[test]
fn rejects_incomplete_escape() {
    assert_eq!(parse_sources_json("{\"a\":\"\\"), Err(JsonError::IncompleteEscape));
}

#[test]
fn rejects_unsupported_escape() {
    assert_eq!(parse_sources_json("{\"a\":\"\\x\"}"), Err(JsonError::UnsupportedEscape));
}

#[test]
fn rejects_trailing_content() {
    assert_eq!(parse_sources_json("{\"a\":\"b\"} x"), Err(JsonError::TrailingContent));
    assert_eq!(parse_sources_json("{}{}"), Err(JsonError::TrailingContent));
}

#[test]
fn rejects_trailing_comma() {
    assert_eq!(
        parse_sources_json("{\"a\":\"b\",}"),
        Err(JsonError::Expected { expected: '"', found: Some('}') })
    );
    assert_eq!(
        parse_sources_json("{\"a\":\"b\", "),
        Err(JsonError::Expected { expected: '"', found: None })
    );
}

#[test]
fn drops_entries_with_empty_name_or_template() {
    assert_eq!(parse_sources_json("{\"\":\"x\",\"y\":\"\"}").unwrap(), Sources::new());
    assert_eq!(
        parse_sources_json("{\"\":\"x\",\"k\":\"v\",\"y\":\"\"}").unwrap(),
        vec![pair("k", "v")]
    );
}

#[test]
fn escapes_quotes_backslashes_and_controls() {
    assert_eq!(escape_json_string("plain"), "plain");
    assert_eq!(escape_json_string("a\"b\\c"), "a\\\"b\\\\c");
    assert_eq!(escape_json_string("\n\r\t\u{08}\u{0c}"), "\\n\\r\\t\\b\\f");
    assert_eq!(escape_json_string("\u{01}\u{1f}\u{7f}\u{9f}\u{0}"), "\\u0001\\u001F\\u007F\\u009F\\u0000");
    assert_eq!(escape_json_string("é€/ \u{a0}"), "é€/ \u{a0}");
    assert_eq!(escape_json_string(""), "");
}

#[test]
fn writes_one_entry_per_line() {
    let list = vec![pair("A", "http://a/{word}"), pair("B \"x\"", "http://b/%s")];
    assert_eq!(
        serialize_sources(&list),
        "{\n  \"A\": \"http://a/{word}\",\n  \"B \\\"x\\\"\": \"http://b/%s\"\n}\n"
    );
    assert_eq!(serialize_sources(&Sources::new()), "{\n}\n");
    assert_eq!(serialize_sources(&vec![pair("k", "v")]), "{\n  \"k\": \"v\"\n}\n");
}

#[test]
fn written_text_reads_back() {
    let list = vec![
        pair("Wiki", "https://en.wiktionary.org/wiki/{word}"),
        pair("quote\"back\\slash", "line\nfeed\ttab\r\u{08}\u{0c}"),
        pair("ctl\u{01}\u{7f}\u{9f}", "ünï©ödé €"),
        pair(" ", "\u{a0}"),
        pair("Wiki", "dup"),
    ];
    let text = serialize_sources(&list);
    assert_eq!(parse_sources_json(&text).unwrap(), list);
    let empty = Sources::new();
    assert_eq!(parse_sources_json(&serialize_sources(&empty)).unwrap(), empty);
}

#[test]
fn cursor_reads_characters_one_by_one() {
    let mut parser = JsonParser::new("é \"x\"");
    assert!(!parser.is_eof());
    assert_eq!(parser.peek_char(), Some('é'));
    assert_eq!(parser.next_char(), Some('é'));
    parser.skip_ws();
    assert!(!parser.consume_char('x'));
    assert_eq!(parser.parse_string(), Ok("x".to_string()));
    assert!(parser.is_eof());
    assert_eq!(parser.peek_char(), None);
    assert_eq!(parser.next_char(), None);
    assert_eq!(parser.expect_char('}'), Err(JsonError::Expected { expected: '}', found: None }));
}

#[test]
fn cursor_expect_and_consume() {
    let mut parser = JsonParser::new("{:}");
    assert_eq!(parser.expect_char('{'), Ok(()));
    assert!(parser.consume_char(':'));
    assert_eq!(
        parser.expect_char(':'),
        Err(JsonError::Expected { expected: ':', found: Some('}') })
    );
    assert!(parser.is_eof());
}

#[test]
fn cursor_reads_members() {
    let mut parser = JsonParser::new("\"a\" : \"b\" , \"c\":\"d\" } rest");
    assert_eq!(parser.parse_members(), Ok(vec![pair("a", "b"), pair("c", "d")]));
    assert_eq!(parser.peek_char(), Some(' '));
}
