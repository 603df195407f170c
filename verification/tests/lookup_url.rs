use word_lookup::sources::{
    default_sources, first_source, lookup_url_for, resolve_sources, LoadStatus, Sources,
};
use word_lookup::text::{
    chars_of, hex_digit_value, is_blank, is_control_char, is_whitespace_char, string_of, trim_word,
    upper_hex_digit,
};
use word_lookup::url::{build_lookup_url, percent_encode, replace_pattern};
use word_lookup::JsonError;

#[test]
fn word_placeholder_wins_over_printf_placeholder() {
    assert_eq!(build_lookup_url("http://x/{word}?s=%s", "a b"), "http://x/a%20b?s=%s");
}

#[test]
fn every_word_placeholder_is_replaced() {
    assert_eq!(build_lookup_url("{word}/{word}", "hi"), "hi/hi");
    assert_eq!(build_lookup_url("{word}", ""), "");
    assert_eq!(build_lookup_url("a{word", "x"), "a{wordx");
}

#[test]
fn printf_placeholder_is_used_without_word_placeholder() {
    assert_eq!(build_lookup_url("http://x/?q=%s&r=%s", "a/b"), "http://x/?q=a%2Fb&r=a%2Fb");
    assert_eq!(build_lookup_url("%%s", "z"), "%z");
}

#[test]
fn word_is_appended_without_placeholder() {
    assert_eq!(build_lookup_url("http://x/?q=", "c++"), "http://x/?q=c%2B%2B");
    assert_eq!(build_lookup_url("", "w"), "w");
}

#[test]
fn encoded_word_is_not_scanned_again() {
    assert_eq!(build_lookup_url("a%sb", "%s"), "a%25sb");
    assert_eq!(build_lookup_url("<{word}>", "{word}"), "<%7Bword%7D>");
}

#[test]
fn percent_encoding_of_bytes() {
    assert_eq!(percent_encode(" "), "%20");
    assert_eq!(percent_encode("\u{dc}"), "%C3%9C");
    assert_eq!(percent_encode("ü"), "%C3%BC");
    assert_eq!(percent_encode("€"), "%E2%82%AC");
    assert_eq!(percent_encode("\u{1f600}"), "%F0%9F%98%80");
    assert_eq!(percent_encode("\n\u{0}/?&=+%"), "%0A%00%2F%3F%26%3D%2B%25");
    assert_eq!(percent_encode(""), "");
}

#[test]
fn unreserved_characters_pass_through() {
    let plain = "ABCDEFGHIJKLMNOPQRSTUVWXYZabcdefghijklmnopqrstuvwxyz0123456789-_.~";
    assert_eq!(percent_encode(plain), plain);
}

#[test]
fn replace_reports_whether_it_found_the_pattern() {
    let s: Vec<char> = "aaa-b".chars().collect();
    let aa: Vec<char> = "aa".chars().collect();
    let x: Vec<char> = "xy".chars().collect();
    assert_eq!(replace_pattern(&s, &aa, &x), ("xya-b".chars().collect(), true));
    let q: Vec<char> = "q".chars().collect();
    assert_eq!(replace_pattern(&s, &q, &x), (s.clone(), false));
    let long: Vec<char> = "aaa-b!".chars().collect();
    assert_eq!(replace_pattern(&s, &long, &x), (s.clone(), false));
    assert_eq!(replace_pattern(&s, &s, &[]), (Vec::new(), true));
    assert_eq!(replace_pattern(&s, &[], &x), (s.clone(), true));
}

#[test]
fn first_source_is_the_first_entry() {
    let list: Sources = vec![
        ("one".to_string(), "t1".to_string()),
        ("two".to_string(), "t2".to_string()),
    ];
    assert_eq!(first_source(&list), Some(("one", "t1")));
    assert_eq!(first_source(&Sources::new()), None);
}

#[test]
fn defaults_are_fixed() {
    let defaults = default_sources();
    let names: Vec<&str> = defaults.iter().map(|(n, _)| n.as_str()).collect();
    assert_eq!(names, vec!["StarDict", "Youdao", "Wiktionary", "Google Define"]);
    assert_eq!(defaults[0].1, "https://192.168.1.4:8443/dict.html?q={word}");
    assert_eq!(defaults[1].1, "https://www.youdao.com/w/eng/{word}/");
    assert_eq!(defaults[2].1, "https://en.wiktionary.org/wiki/{word}");
    assert_eq!(defaults[3].1, "https://www.google.com/search?q=define+{word}");
    for (_, template) in defaults.iter() {
        assert!(template.contains("{word}"));
    }
}

#[test]
fn received_word_resolves_against_first_default() {
    let defaults = default_sources();
    let word = trim_word("hello world\n");
    assert_eq!(
        lookup_url_for(&defaults, &word),
        Some("https://192.168.1.4:8443/dict.html?q=hello%20world".to_string())
    );
    assert_eq!(lookup_url_for(&Sources::new(), "hello"), None);
}

#[test]
fn sources_come_from_the_file_or_the_defaults() {
    assert_eq!(resolve_sources(true, None), (default_sources(), LoadStatus::MissingFile));
    assert_eq!(resolve_sources(false, None), (default_sources(), LoadStatus::NoDirectory));
    assert_eq!(
        resolve_sources(false, Some("{\"n\":\"t\"}")),
        (default_sources(), LoadStatus::NoDirectory)
    );
    assert_eq!(resolve_sources(true, Some("{}")), (default_sources(), LoadStatus::EmptyFile));
    assert_eq!(
        resolve_sources(true, Some("{\"\":\"dropped\"}")),
        (default_sources(), LoadStatus::EmptyFile)
    );
    assert_eq!(
        resolve_sources(true, Some("")),
        (
            default_sources(),
            LoadStatus::Unparseable(JsonError::Expected { expected: '{', found: None })
        )
    );
    assert_eq!(
        resolve_sources(true, Some("{\"n\":\"t\"}")),
        (vec![("n".to_string(), "t".to_string())], LoadStatus::Loaded)
    );
    assert!(!LoadStatus::Loaded.writes_defaults());
    assert!(!LoadStatus::NoDirectory.writes_defaults());
    assert!(LoadStatus::NoDirectory.uses_defaults());
    assert!(LoadStatus::MissingFile.writes_defaults());
    assert!(LoadStatus::EmptyFile.writes_defaults());
    assert!(LoadStatus::Unparseable(JsonError::TrailingContent).writes_defaults());
    assert!(!LoadStatus::Loaded.uses_defaults());
    assert!(LoadStatus::MissingFile.uses_defaults());
    assert!(LoadStatus::EmptyFile.uses_defaults());
    assert!(LoadStatus::Unparseable(JsonError::TrailingContent).uses_defaults());
}

#[test]
fn defaults_read_back_from_their_text() {
    let defaults = default_sources();
    let text = word_lookup::serialize_sources(&defaults);
    assert_eq!(resolve_sources(true, Some(&text)), (defaults, LoadStatus::Loaded));
}

#[test]
fn words_are_trimmed() {
    assert_eq!(trim_word("  hello world \n"), "hello world");
    assert_eq!(trim_word("\u{3000}a\u{a0}"), "a");
    assert_eq!(trim_word(" \t\r\n"), "");
    assert_eq!(trim_word(""), "");
    assert_eq!(trim_word("x"), "x");
    assert!(is_blank(""));
    assert!(is_blank(" \n\u{2003}"));
    assert!(!is_blank(" a "));
}

#[test]
fn character_classes_agree_with_std() {
    let mut code: u32 = 0;
    while code <= 0x3100 {
        if let Some(c) = char::from_u32(code) {
            assert_eq!(is_whitespace_char(c), c.is_whitespace());
            assert_eq!(is_control_char(c), c.is_control());
            assert_eq!(hex_digit_value(c), c.to_digit(16));
        }
        code += 1;
    }
}

#[test]
fn hex_digits_are_upper_case() {
    let digits: String = (0u8..16).map(upper_hex_digit).collect();
    assert_eq!(digits, "0123456789ABCDEF");
}

#[test]
fn strings_and_characters_convert() {
    assert_eq!(chars_of("aé€"), vec!['a', 'é', '€']);
    assert_eq!(string_of(&['a', 'é', '€']), "aé€");
    assert_eq!(chars_of(""), Vec::<char>::new());
}
