//! Reading back what was written: the text of a source list parses to that
//! list.

use crate::json::{
    document, entry_line, entry_lines, escape_char, escape_sequence, escaped, head_is, hex_at,
    members, serialized, string_body, string_token, unicode_escape,
};
use crate::sources::{all_kept, keep_entry, Entry};
use crate::text::{hex_value, is_control, is_whitespace, trim_start, upper_hex};
use vstd::prelude::*;

verus! {

/// The entries of a list that have a name and a template, in order.
pub open spec fn kept_of(entries: Seq<Entry>) -> Seq<Entry>
    decreases entries.len(),
{
    if entries.len() == 0 {
        Seq::empty()
    } else if keep_entry(entries[0].0, entries[0].1) {
        seq![entries[0]] + kept_of(entries.skip(1))
    } else {
        kept_of(entries.skip(1))
    }
}

/// A list in which every entry has a name and a template loses nothing.
pub proof fn lemma_kept_of_all_kept(entries: Seq<Entry>)
    requires
        all_kept(entries),
    ensures
        kept_of(entries) == entries,
    decreases entries.len(),
{
    if entries.len() > 0 {
        assert(keep_entry(entries[0].0, entries[0].1));
        assert(all_kept(entries.skip(1)));
        lemma_kept_of_all_kept(entries.skip(1));
        assert(seq![entries[0]] + entries.skip(1) =~= entries);
    } else {
        assert(entries =~= Seq::<Entry>::empty());
    }
}

/// A hexadecimal digit written in upper case reads back as its value.
proof fn lemma_upper_hex_value(n: u8)
    requires
        n < 16,
    ensures
        hex_value(upper_hex(n)) == Some(n as u32),
{
}

/// White space in front of a token is skipped, and nothing more.
proof fn lemma_trim_start_prefix(ws: Seq<char>, s: Seq<char>)
    requires
        forall|i: int| 0 <= i < ws.len() ==> is_whitespace(#[trigger] ws[i]),
        s.len() == 0 || !is_whitespace(s[0]),
    ensures
        trim_start(ws + s) == s,
    decreases ws.len(),
{
    if ws.len() == 0 {
        assert(ws + s =~= s);
    } else {
        assert((ws + s)[0] == ws[0]);
        assert((ws + s).drop_first() =~= ws.skip(1) + s);
        lemma_trim_start_prefix(ws.skip(1), s);
    }
}

/// Reading the escaped form of one character appends that character.
proof fn lemma_read_escaped_char(c: char, tail: Seq<char>, acc: Seq<char>)
    ensures
        string_body(escape_char(c) + tail, acc) == string_body(tail, acc.push(c)),
{
    let s = escape_char(c) + tail;
    if c == '"' || c == '\\' || c == '\n' || c == '\r' || c == '\t' || c == '\u{08}' || c
        == '\u{0c}' {
        assert(s[0] == '\\');
        assert(s.skip(1).skip(1) =~= tail);
        assert(s.skip(1)[0] == escape_char(c)[1]);
    } else if is_control(c) {
        let code = c as u32;
        let high = (code / 16) as u8;
        let low = (code % 16) as u8;
        assert(s[0] == '\\');
        let after = s.skip(1);
        assert(after[0] == 'u');
        let digits = after.skip(1);
        assert(digits[0] == '0');
        assert(digits.skip(1)[0] == '0');
        assert(digits.skip(2)[0] == upper_hex(high));
        assert(digits.skip(3)[0] == upper_hex(low));
        lemma_upper_hex_value(high);
        lemma_upper_hex_value(low);
        assert(hex_at(digits) == Ok::<u32, crate::json::JsonError>(0u32));
        assert(hex_at(digits.skip(1)) == Ok::<u32, crate::json::JsonError>(0u32));
        assert(hex_at(digits.skip(2)) == Ok::<u32, crate::json::JsonError>(high as u32));
        assert(hex_at(digits.skip(3)) == Ok::<u32, crate::json::JsonError>(low as u32));
        assert(high as u32 * 16 + low as u32 == code);
        assert(code as char == c);
        assert(digits.skip(4) =~= tail);
        assert(unicode_escape(digits) == Ok::<(char, Seq<char>), crate::json::JsonError>(
            (c, tail),
        ));
        assert(escape_sequence(after) == unicode_escape(digits));
    } else {
        assert(s[0] == c);
        assert(s.skip(1) =~= tail);
    }
}

/// Reading the escaped form of a string up to its closing quote appends
/// the string.
proof fn lemma_read_escaped(v: Seq<char>, rest: Seq<char>, acc: Seq<char>)
    ensures
        string_body(escaped(v) + seq!['"'] + rest, acc) == Ok::<
            (Seq<char>, Seq<char>),
            crate::json::JsonError,
        >((acc + v, rest)),
    decreases v.len(),
{
    let s = escaped(v) + seq!['"'] + rest;
    if v.len() == 0 {
        assert(s[0] == '"');
        assert(s.skip(1) =~= rest);
        assert(acc + v =~= acc);
    } else {
        let tail = escaped(v.skip(1)) + seq!['"'] + rest;
        assert(s =~= escape_char(v[0]) + tail);
        lemma_read_escaped_char(v[0], tail, acc);
        lemma_read_escaped(v.skip(1), rest, acc.push(v[0]));
        assert(acc.push(v[0]) + v.skip(1) =~= acc + v);
    }
}

/// A quoted, escaped string reads back as the string.
proof fn lemma_read_quoted(v: Seq<char>, rest: Seq<char>)
    ensures
        string_token(seq!['"'] + escaped(v) + seq!['"'] + rest) == Ok::<
            (Seq<char>, Seq<char>),
            crate::json::JsonError,
        >((v, rest)),
{
    let s = seq!['"'] + escaped(v) + seq!['"'] + rest;
    assert(s[0] == '"');
    assert(s.skip(1) =~= escaped(v) + seq!['"'] + rest);
    lemma_read_escaped(v, rest, Seq::empty());
    assert(Seq::<char>::empty() + v =~= v);
}

/// The written entries from the first quote of the first entry up to the
/// closing brace, followed by `tail`.
spec fn member_text(entries: Seq<Entry>, tail: Seq<char>) -> Seq<char>
    decreases entries.len(),
{
    if entries.len() == 0 {
        tail
    } else {
        seq!['"'] + escaped(entries[0].0) + seq!['"'] + (seq![':', ' '] + (seq!['"'] + escaped(
            entries[0].1,
        ) + seq!['"'] + (if entries.len() == 1 {
            seq!['\n', '}'] + tail
        } else {
            seq![',', '\n', ' ', ' '] + member_text(entries.skip(1), tail)
        })))
    }
}

/// The lines of a list that is not empty, with the closing brace, are two
/// spaces and then the text of its members.
proof fn lemma_lines_as_members(entries: Seq<Entry>, tail: Seq<char>)
    requires
        entries.len() > 0,
    ensures
        entry_lines(entries) + seq!['}'] + tail == seq![' ', ' '] + member_text(entries, tail),
    decreases entries.len(),
{
    if entries.len() == 1 {
        assert(entry_lines(entries.skip(1)) =~= Seq::<char>::empty());
        assert(entry_lines(entries) + seq!['}'] + tail =~= seq![' ', ' '] + member_text(
            entries,
            tail,
        ));
    } else {
        lemma_lines_as_members(entries.skip(1), tail);
        let next = entry_lines(entries.skip(1)) + seq!['}'] + tail;
        assert(entry_lines(entries) + seq!['}'] + tail =~= entry_line(entries[0], false) + next);
        assert(entry_line(entries[0], false) + (seq![' ', ' '] + member_text(
            entries.skip(1),
            tail,
        )) =~= seq![' ', ' '] + member_text(entries, tail));
    }
}

/// The written members of a list read back as those entries of the list
/// that have a name and a template.
proof fn lemma_read_members(entries: Seq<Entry>, tail: Seq<char>, acc: Seq<Entry>)
    requires
        entries.len() > 0,
    ensures
        members(member_text(entries, tail), acc) == Ok::<
            (Seq<Entry>, Seq<char>),
            crate::json::JsonError,
        >((acc + kept_of(entries), tail)),
    decreases entries.len(),
{
    let key = entries[0].0;
    let value = entries[0].1;
    let end = if entries.len() == 1 {
        seq!['\n', '}'] + tail
    } else {
        seq![',', '\n', ' ', ' '] + member_text(entries.skip(1), tail)
    };
    let at_value = seq!['"'] + escaped(value) + seq!['"'] + end;
    let at_colon = seq![':', ' '] + at_value;
    let s = member_text(entries, tail);
    assert(s == seq!['"'] + escaped(key) + seq!['"'] + at_colon);
    lemma_read_quoted(key, at_colon);
    assert(at_colon[0] == ':');
    assert(trim_start(at_colon) == at_colon);
    assert(at_colon.skip(1) =~= seq![' '] + at_value);
    assert(at_value[0] == '"');
    lemma_trim_start_prefix(seq![' '], at_value);
    lemma_read_quoted(value, end);
    let kept = if keep_entry(key, value) {
        acc.push((key, value))
    } else {
        acc
    };
    assert(entries[0] == (key, value));
    if entries.len() == 1 {
        let at_close = seq!['}'] + tail;
        assert(end =~= seq!['\n'] + at_close);
        assert(at_close[0] == '}');
        lemma_trim_start_prefix(seq!['\n'], at_close);
        assert(at_close.skip(1) =~= tail);
        assert(kept_of(entries.skip(1)) =~= Seq::<Entry>::empty());
        assert(kept =~= acc + kept_of(entries));
    } else {
        let next = member_text(entries.skip(1), tail);
        assert(end[0] == ',');
        assert(trim_start(end) == end);
        assert(end.skip(1) =~= seq!['\n', ' ', ' '] + next);
        assert(next[0] == '"');
        lemma_trim_start_prefix(seq!['\n', ' ', ' '], next);
        lemma_read_members(entries.skip(1), tail, kept);
        assert(kept + kept_of(entries.skip(1)) =~= acc + kept_of(entries));
    }
}

/// Round trip: the text written for a source list in which every name and
/// every template is non-empty reads back as that same list, entry for
/// entry and in the same order.
pub proof fn lemma_parse_serialized(entries: Seq<Entry>)
    requires
        all_kept(entries),
    ensures
        document(serialized(entries)) == Ok::<Seq<Entry>, crate::json::JsonError>(entries),
{
    lemma_parse_serialized_any(entries);
    lemma_kept_of_all_kept(entries);
}

/// The text written for any source list reads back, and gives the entries
/// of the list that have a name and a template, in the same order.
pub proof fn lemma_parse_serialized_any(entries: Seq<Entry>)
    ensures
        document(serialized(entries)) == Ok::<Seq<Entry>, crate::json::JsonError>(
            kept_of(entries),
        ),
{
    let s = serialized(entries);
    let newline = seq!['\n'];
    assert(s[0] == '{');
    assert(trim_start(s) == s);
    assert(trim_start(newline) =~= Seq::<char>::empty()) by {
        lemma_trim_start_prefix(newline, Seq::empty());
        assert(newline + Seq::<char>::empty() =~= newline);
    }
    if entries.len() == 0 {
        let at_close = seq!['}', '\n'];
        assert(s.skip(1) =~= newline + at_close);
        lemma_trim_start_prefix(newline, at_close);
        assert(at_close.skip(1) =~= newline);
    } else {
        let text = member_text(entries, newline);
        lemma_lines_as_members(entries, newline);
        assert(s.skip(1) =~= newline + (entry_lines(entries) + seq!['}'] + newline));
        assert(s.skip(1) =~= seq!['\n', ' ', ' '] + text);
        assert(text[0] == '"');
        lemma_trim_start_prefix(seq!['\n', ' ', ' '], text);
        lemma_read_members(entries, newline, Seq::empty());
        assert(Seq::<Entry>::empty() + kept_of(entries) =~= kept_of(entries));
    }
}

} // verus!
