//! Errors met while fetching, caching and reading pricing data.
use std::path::PathBuf;
use vstd::prelude::*;
use vstd::std_specs::convert::FromSpecImpl;
use crate::decimal::{decimal, decimal_string};

verus! {

/// What went wrong while handling pricing data.
#[derive(Debug)]
pub enum CacheError {
    HttpClientBuild(reqwest::Error),
    HttpTimeout { url: String },
    HttpFetch { url: String, source: reqwest::Error },
    HttpStatus { url: String, status: u16 },
    JsonDecode { url: String, source: reqwest::Error },
    CacheDirNotFound,
    CacheDirCreate { path: PathBuf, source: std::io::Error },
    CacheRead { path: PathBuf, source: std::io::Error },
    CacheWrite { path: PathBuf, source: std::io::Error },
    CacheParse(serde_json::Error),
    CurrentDir { source: std::io::Error },
    ConfigRead { path: PathBuf, source: std::io::Error },
    ConfigParse { path: PathBuf, source: json5::Error },
}

/// Results of handling pricing data.
pub type Result<T> = std::result::Result<T, CacheError>;

/// The message of an error, given how its path and its underlying error
/// print.
pub open spec fn cache_error_text(e: CacheError, path: Seq<char>, source: Seq<char>) -> Seq<char> {
    match e {
        CacheError::HttpClientBuild(..) => "failed to build HTTP client: "@ + source,
        CacheError::HttpTimeout { url } => "fetch "@ + url@ + " timed out"@,
        CacheError::HttpFetch { url, .. } => "failed to fetch "@ + url@ + ": "@ + source,
        CacheError::HttpStatus { url, status } => "request to "@ + url@ + " failed: "@ + decimal(
            status as nat,
        ),
        CacheError::JsonDecode { url, .. } => "failed to decode JSON response from "@ + url@
            + ": "@ + source,
        CacheError::CacheDirNotFound => "could not determine cache directory"@,
        CacheError::CacheDirCreate { .. } => "failed to create cache dir "@ + path + ": "@ + source,
        CacheError::CacheRead { .. } => "failed to read cache file "@ + path + ": "@ + source,
        CacheError::CacheWrite { .. } => "failed to write cache file "@ + path + ": "@ + source,
        CacheError::CacheParse(..) => "failed to parse cached models: "@ + source,
        CacheError::CurrentDir { .. } => "failed to determine current directory: "@ + source,
        CacheError::ConfigRead { .. } => "failed to read OpenCode config "@ + path + ": "@ + source,
        CacheError::ConfigParse { .. } => "failed to parse OpenCode config "@ + path + ": "@
            + source,
    }
}

/// `head`, then `tail`.
fn joined2(head: &str, tail: &str) -> (s: String)
    ensures
        s@ == head@ + tail@,
{
    let mut s = String::from_str(head);
    s.append(tail);
    s
}

/// `head`, then `middle`, then `tail`.
fn joined3(head: &str, middle: &str, tail: &str) -> (s: String)
    ensures
        s@ == head@ + middle@ + tail@,
{
    let mut s = String::from_str(head);
    s.append(middle);
    s.append(tail);
    s
}

impl CacheError {
    /// The error's message. `path` is how its path prints and `source` how
    /// its underlying error prints; each is read only by the variants that
    /// have one.
    pub fn message(&self, path: &str, source: &str) -> (s: String)
        ensures
            s@ == cache_error_text(*self, path@, source@),
    {
        match self {
            CacheError::HttpClientBuild(..) => joined2("failed to build HTTP client: ", source),
            CacheError::HttpTimeout { url } => joined3("fetch ", url.as_str(), " timed out"),
            CacheError::HttpFetch { url, .. } => {
                let mut s = joined3("failed to fetch ", url.as_str(), ": ");
                s.append(source);
                s
            },
            CacheError::HttpStatus { url, status } => {
                let mut s = joined3("request to ", url.as_str(), " failed: ");
                let code = decimal_string(*status as u128);
                s.append(code.as_str());
                s
            },
            CacheError::JsonDecode { url, .. } => {
                let mut s = joined3("failed to decode JSON response from ", url.as_str(), ": ");
                s.append(source);
                s
            },
            CacheError::CacheDirNotFound => String::from_str("could not determine cache directory"),
            CacheError::CacheDirCreate { .. } => {
                let mut s = joined3("failed to create cache dir ", path, ": ");
                s.append(source);
                s
            },
            CacheError::CacheRead { .. } => {
                let mut s = joined3("failed to read cache file ", path, ": ");
                s.append(source);
                s
            },
            CacheError::CacheWrite { .. } => {
                let mut s = joined3("failed to write cache file ", path, ": ");
                s.append(source);
                s
            },
            CacheError::CacheParse(..) => joined2("failed to parse cached models: ", source),
            CacheError::CurrentDir { .. } => joined2("failed to determine current directory: ", source),
            CacheError::ConfigRead { .. } => {
                let mut s = joined3("failed to read OpenCode config ", path, ": ");
                s.append(source);
                s
            },
            CacheError::ConfigParse { .. } => {
                let mut s = joined3("failed to parse OpenCode config ", path, ": ");
                s.append(source);
                s
            },
        }
    }
}

/// A cache file that does not parse is a `CacheParse` error.
impl From<serde_json::Error> for CacheError {
    fn from(source: serde_json::Error) -> (e: Self) {
        CacheError::CacheParse(source)
    }
}

impl FromSpecImpl<serde_json::Error> for CacheError {
    open spec fn obeys_from_spec() -> bool {
        true
    }

    open spec fn from_spec(source: serde_json::Error) -> Self {
        CacheError::CacheParse(source)
    }
}

} // verus!
