//! The ordered list of lookup sources and its built-in defaults.

use crate::json::{document, parse_sources_json, serialized, JsonError};
use crate::roundtrip::lemma_parse_serialized;
use crate::url::{build_lookup_url, contains_seq, lookup_url, matches_at, word_placeholder};
use vstd::prelude::*;
use vstd::string::*;

verus! {

/// Named URL templates, in order of preference: the first one is the active
/// source.
pub type Sources = Vec<(String, String)>;

/// A source as a pair of character sequences: its name and its template.
pub type Entry = (Seq<char>, Seq<char>);

/// The names and templates of a source list, in order.
pub open spec fn sources_view(sources: &Sources) -> Seq<Entry> {
    Seq::new(sources@.len(), |i: int| (sources@[i].0@, sources@[i].1@))
}

/// An entry is kept when neither its name nor its template is empty.
pub open spec fn keep_entry(key: Seq<char>, value: Seq<char>) -> bool {
    key.len() > 0 && value.len() > 0
}

/// Every entry has a name and a template that are not empty.
pub open spec fn all_kept(entries: Seq<Entry>) -> bool {
    forall|i: int| 0 <= i < entries.len() ==> keep_entry(#[trigger] entries[i].0, entries[i].1)
}

/// The active source: the first entry of the list, if there is one.
pub fn first_source(sources: &Sources) -> (first: Option<(&str, &str)>)
    ensures
        match first {
            Some((name, template)) => sources@.len() > 0 && (name@, template@) == sources_view(
                sources,
            )[0],
            None => sources@.len() == 0,
        },
{
    if sources.len() == 0 {
        None
    } else {
        let entry = &sources[0];
        Some((entry.0.as_str(), entry.1.as_str()))
    }
}

/// The built-in sources, used when no sources file can be read.
pub open spec fn default_entries() -> Seq<Entry> {
    seq![
        ("StarDict"@, "https://192.168.1.4:8443/dict.html?q={word}"@),
        ("Youdao"@, "https://www.youdao.com/w/eng/{word}/"@),
        ("Wiktionary"@, "https://en.wiktionary.org/wiki/{word}"@),
        ("Google Define"@, "https://www.google.com/search?q=define+{word}"@),
    ]
}

/// The built-in sources, in their fixed order.
pub fn default_sources() -> (sources: Sources)
    ensures
        sources_view(&sources) == default_entries(),
{
    let mut sources: Sources = Vec::new();
    sources.push(
        ("StarDict".to_owned(), "https://192.168.1.4:8443/dict.html?q={word}".to_owned()),
    );
    sources.push(("Youdao".to_owned(), "https://www.youdao.com/w/eng/{word}/".to_owned()));
    sources.push(("Wiktionary".to_owned(), "https://en.wiktionary.org/wiki/{word}".to_owned()));
    sources.push(
        ("Google Define".to_owned(), "https://www.google.com/search?q=define+{word}".to_owned()),
    );
    assert(sources_view(&sources) =~= default_entries());
    sources
}

/// Every built-in source has a name, and a template that holds the
/// placeholder `{word}`.
pub proof fn lemma_defaults_hold_placeholder()
    ensures
        default_entries().len() == 4,
        all_kept(default_entries()),
        forall|i: int|
            0 <= i < default_entries().len() ==> contains_seq(
                #[trigger] default_entries()[i].1,
                word_placeholder(),
            ),
{
    reveal_strlit("StarDict");
    reveal_strlit("https://192.168.1.4:8443/dict.html?q={word}");
    reveal_strlit("Youdao");
    reveal_strlit("https://www.youdao.com/w/eng/{word}/");
    reveal_strlit("Wiktionary");
    reveal_strlit("https://en.wiktionary.org/wiki/{word}");
    reveal_strlit("Google Define");
    reveal_strlit("https://www.google.com/search?q=define+{word}");
    let entries = default_entries();
    let pattern = word_placeholder();
    assert(entries[0].1.subrange(37, 43) =~= pattern);
    assert(matches_at(entries[0].1, 37, pattern));
    assert(entries[1].1.subrange(29, 35) =~= pattern);
    assert(matches_at(entries[1].1, 29, pattern));
    assert(entries[2].1.subrange(31, 37) =~= pattern);
    assert(matches_at(entries[2].1, 31, pattern));
    assert(entries[3].1.subrange(39, 45) =~= pattern);
    assert(matches_at(entries[3].1, 39, pattern));
}

/// How a source list was settled.
#[derive(Debug, PartialEq, Eq)]
pub enum LoadStatus {
    /// The sources file was read and holds at least one entry.
    Loaded,
    /// The directory of the sources file could not be made.
    NoDirectory,
    /// There is no sources file.
    MissingFile,
    /// The sources file parses, but no entry is left.
    EmptyFile,
    /// The sources file does not parse.
    Unparseable(JsonError),
}

impl LoadStatus {
    /// Whether the built-in sources are in use.
    pub fn uses_defaults(&self) -> (b: bool)
        ensures
            b == !(self is Loaded),
    {
        match self {
            LoadStatus::Loaded => false,
            _ => true,
        }
    }

    /// Whether the built-in sources are to be written to the sources file:
    /// where the file is missing, empty or unreadable, and its directory is
    /// there.
    pub fn writes_defaults(&self) -> (b: bool)
        ensures
            b == (self is MissingFile || self is EmptyFile || self is Unparseable),
    {
        match self {
            LoadStatus::Loaded => false,
            LoadStatus::NoDirectory => false,
            _ => true,
        }
    }
}

/// The list and status that a sources file with the given content gives;
/// `None` stands for a file that is not there. Without its directory the
/// file is not looked at.
pub open spec fn resolved(directory_ready: bool, content: Option<Seq<char>>) -> (
    Seq<Entry>,
    LoadStatus,
) {
    if !directory_ready {
        (default_entries(), LoadStatus::NoDirectory)
    } else {
        match content {
            None => (default_entries(), LoadStatus::MissingFile),
            Some(text) => match document(text) {
                Ok(entries) => if entries.len() > 0 {
                    (entries, LoadStatus::Loaded)
                } else {
                    (default_entries(), LoadStatus::EmptyFile)
                },
                Err(e) => (default_entries(), LoadStatus::Unparseable(e)),
            },
        }
    }
}

/// A list that was written to the sources file is the list that the next
/// load gives, provided it is not empty and each of its entries has a name
/// and a template. The built-in sources are such a list.
pub proof fn lemma_written_sources_load(entries: Seq<Entry>)
    requires
        entries.len() > 0,
        all_kept(entries),
    ensures
        resolved(true, Some(serialized(entries))) == (entries, LoadStatus::Loaded),
        resolved(true, Some(serialized(default_entries()))) == (
            default_entries(),
            LoadStatus::Loaded,
        ),
{
    lemma_parse_serialized(entries);
    lemma_defaults_hold_placeholder();
    lemma_parse_serialized(default_entries());
}

/// Settles the source list from what the sources file holds: its entries
/// where it parses to at least one, and the built-in sources otherwise.
pub fn resolve_sources(directory_ready: bool, content: Option<&str>) -> (r: (
    Sources,
    LoadStatus,
))
    ensures
        (sources_view(&r.0), r.1) == resolved(
            directory_ready,
            match content {
                Some(text) => Some(text@),
                None => None,
            },
        ),
{
    if !directory_ready {
        return (default_sources(), LoadStatus::NoDirectory);
    }
    match content {
        None => (default_sources(), LoadStatus::MissingFile),
        Some(text) => match parse_sources_json(text) {
            Ok(parsed) => {
                if parsed.len() > 0 {
                    (parsed, LoadStatus::Loaded)
                } else {
                    (default_sources(), LoadStatus::EmptyFile)
                }
            },
            Err(e) => (default_sources(), LoadStatus::Unparseable(e)),
        },
    }
}

/// The URL that the active source gives for `word`, or `None` where the
/// list is empty.
pub fn lookup_url_for(sources: &Sources, word: &str) -> (url: Option<String>)
    ensures
        match url {
            Some(u) => sources@.len() > 0 && u@ == lookup_url(sources_view(sources)[0].1, word@),
            None => sources@.len() == 0,
        },
{
    match first_source(sources) {
        None => None,
        Some((_, template)) => Some(build_lookup_url(template, word)),
    }
}

} // verus!
