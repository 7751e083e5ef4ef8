//! The part of the input configuration that the stream logic reads.

use vstd::prelude::*;

verus! {

/// The kind of playlist source an input is.
#[derive(Clone, Copy, Debug, PartialEq, Eq, Structural)]
pub enum InputType {
    M3u,
    Xtream,
    M3uBatch,
    XtreamBatch,
}

/// Options of an input that change how Xtream urls are built and which
/// clusters are served.
#[derive(Clone, Copy, Debug, PartialEq, Eq, Structural)]
pub struct ConfigInputOptions {
    pub xtream_skip_live: bool,
    pub xtream_skip_vod: bool,
    pub xtream_skip_series: bool,
    pub xtream_live_stream_without_extension: bool,
    pub xtream_live_stream_use_prefix: bool,
}

/// A second account at the same provider, usable in place of the input.
pub struct ConfigInputAlias {
    pub id: u16,
    pub name: String,
    pub url: String,
    pub username: Option<String>,
    pub password: Option<String>,
    pub priority: i16,
    pub max_connections: u16,
}

/// A configured playlist source.
pub struct ConfigInput {
    pub id: u16,
    pub name: String,
    pub url: String,
    pub username: Option<String>,
    pub password: Option<String>,
    pub input_type: InputType,
    pub max_connections: u16,
    pub priority: i16,
    pub aliases: Option<Vec<ConfigInputAlias>>,
    pub options: Option<ConfigInputOptions>,
}

/// The view of an optional string.
pub open spec fn opt_view(o: Option<String>) -> Option<Seq<char>> {
    match o {
        Some(s) => Some(s@),
        None => None,
    }
}

/// Copies an optional string.
pub fn clone_opt_string(o: &Option<String>) -> (r: Option<String>)
    ensures
        opt_view(r) == opt_view(*o),
{
    match o {
        Some(s) => Some(s.clone()),
        None => None,
    }
}

} // verus!
