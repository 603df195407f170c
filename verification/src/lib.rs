//! Word lookup core: the sources file codec, lookup URL construction and the
//! decision logic of the trigger and daemon processes.

pub mod control;
pub mod json;
pub mod roundtrip;
pub mod sources;
pub mod text;
pub mod url;
pub mod wire;

pub use control::{HOST, PORT};
pub use json::{escape_json_string, parse_sources_json, serialize_sources, JsonError, JsonParser};
pub use sources::{
    default_sources, first_source, lookup_url_for, resolve_sources, LoadStatus, Sources,
};
pub use text::{is_blank, trim_word};
pub use url::{build_lookup_url, percent_encode};
