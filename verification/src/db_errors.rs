//! Errors met while loading usage data from the OpenCode database or its
//! JSON exports.
use std::path::PathBuf;
use vstd::prelude::*;
use vstd::std_specs::convert::IntoSpec;
use crate::usage::views;

verus! {

/// What went wrong while loading usage data.
#[derive(Debug)]
pub enum DbError {
    DatabaseOpen { path: PathBuf, source: rusqlite::Error },
    DatabaseNotFound { candidates: Vec<PathBuf> },
    DatabaseQuery { source: rusqlite::Error },
    JsonRead { path: PathBuf, source: std::io::Error },
    JsonParse { path: PathBuf, source: serde_json::Error },
    UnsupportedJsonFormat { path: PathBuf },
    DirectoryRead { path: PathBuf, source: std::io::Error },
}

/// Results of loading usage data.
pub type Result<T> = std::result::Result<T, DbError>;

/// The strings joined with `sep` between neighbours.
pub open spec fn joined(parts: Seq<Seq<char>>, sep: Seq<char>) -> Seq<char>
    decreases parts.len(),
{
    if parts.len() == 0 {
        Seq::empty()
    } else if parts.len() == 1 {
        parts[0]
    } else {
        joined(parts.drop_last(), sep) + sep + parts.last()
    }
}

/// Lists the database paths that were checked, separated by commas.
pub fn format_candidates(paths: &[String]) -> (s: String)
    ensures
        s@ == joined(views(paths@), ", "@),
{
    let mut s = String::new();
    let mut i: usize = 0;
    let ghost parts = views(paths@);
    while i < paths.len()
        invariant
            i <= paths@.len(),
            parts == views(paths@),
            s@ == joined(parts.take(i as int), ", "@),
        decreases paths@.len() - i,
    {
        proof {
            assert(parts.take(i + 1).drop_last() =~= parts.take(i as int));
        }
        if i > 0 {
            s.append(", ");
        } else {
            proof {
                assert(joined(parts.take(0), ", "@) =~= Seq::<char>::empty());
            }
        }
        s.append(paths[i].as_str());
        proof {
            assert(parts[i as int] == paths@[i as int]@);
            if i == 0 {
                assert(s@ =~= parts.take(1)[0]);
            }
        }
        i = i + 1;
    }
    proof {
        assert(parts.take(paths@.len() as int) =~= parts);
    }
    s
}

/// The message of an error, given how its path, the checked paths and its
/// underlying error print.
pub open spec fn db_error_text(
    e: DbError,
    path: Seq<char>,
    candidates: Seq<Seq<char>>,
    source: Seq<char>,
) -> Seq<char> {
    match e {
        DbError::DatabaseOpen { .. } => "failed to open database at '"@ + path + "': "@ + source,
        DbError::DatabaseNotFound { .. } => "could not find a valid OpenCode database; checked: "@
            + joined(candidates, ", "@),
        DbError::DatabaseQuery { .. } => "database query failed: "@ + source,
        DbError::JsonRead { .. } => "failed to read JSON file '"@ + path + "': "@ + source,
        DbError::JsonParse { .. } => "failed to parse JSON file '"@ + path + "': "@ + source,
        DbError::UnsupportedJsonFormat { .. } => "unsupported JSON input format at '"@ + path
            + "'"@,
        DbError::DirectoryRead { .. } => "failed to read directory '"@ + path + "': "@ + source,
    }
}

impl DbError {
    /// The error's message. `path` is how its path prints, `candidates` how
    /// the checked database paths print, and `source` how its underlying
    /// error prints; each is read only by the variants that have one.
    pub fn message(&self, path: &str, candidates: &[String], source: &str) -> (s: String)
        ensures
            s@ == db_error_text(*self, path@, views(candidates@), source@),
    {
        match self {
            DbError::DatabaseOpen { .. } => {
                let mut s = String::from_str("failed to open database at '");
                s.append(path);
                s.append("': ");
                s.append(source);
                s
            },
            DbError::DatabaseNotFound { .. } => {
                let mut s = String::from_str("could not find a valid OpenCode database; checked: ");
                let listed = format_candidates(candidates);
                s.append(listed.as_str());
                s
            },
            DbError::DatabaseQuery { .. } => {
                let mut s = String::from_str("database query failed: ");
                s.append(source);
                s
            },
            DbError::JsonRead { .. } => {
                let mut s = String::from_str("failed to read JSON file '");
                s.append(path);
                s.append("': ");
                s.append(source);
                s
            },
            DbError::JsonParse { .. } => {
                let mut s = String::from_str("failed to parse JSON file '");
                s.append(path);
                s.append("': ");
                s.append(source);
                s
            },
            DbError::UnsupportedJsonFormat { .. } => {
                let mut s = String::from_str("unsupported JSON input format at '");
                s.append(path);
                s.append("'");
                s
            },
            DbError::DirectoryRead { .. } => {
                let mut s = String::from_str("failed to read directory '");
                s.append(path);
                s.append("': ");
                s.append(source);
                s
            },
        }
    }
}

impl DbError {
    /// The database at `path` could not be opened.
    pub fn database_open<P: Into<PathBuf>>(path: P, source: rusqlite::Error) -> (e: Self)
        ensures
            e matches DbError::DatabaseOpen { path: p, source: s } && s == source
                && (<P as IntoSpec<PathBuf>>::obeys_into_spec() ==> p == path.into_spec()),
    {
        DbError::DatabaseOpen { path: path.into(), source }
    }

    /// No database was found among `candidates`.
    pub fn database_not_found(candidates: Vec<PathBuf>) -> (e: Self)
        ensures
            e == (DbError::DatabaseNotFound { candidates }),
    {
        DbError::DatabaseNotFound { candidates }
    }

    /// A query on the database failed.
    pub fn database_query(source: rusqlite::Error) -> (e: Self)
        ensures
            e == (DbError::DatabaseQuery { source }),
    {
        DbError::DatabaseQuery { source }
    }

    /// The JSON file at `path` could not be read.
    pub fn json_read<P: Into<PathBuf>>(path: P, source: std::io::Error) -> (e: Self)
        ensures
            e matches DbError::JsonRead { path: p, source: s } && s == source
                && (<P as IntoSpec<PathBuf>>::obeys_into_spec() ==> p == path.into_spec()),
    {
        DbError::JsonRead { path: path.into(), source }
    }

    /// The JSON file at `path` could not be parsed.
    pub fn json_parse<P: Into<PathBuf>>(path: P, source: serde_json::Error) -> (e: Self)
        ensures
            e matches DbError::JsonParse { path: p, source: s } && s == source
                && (<P as IntoSpec<PathBuf>>::obeys_into_spec() ==> p == path.into_spec()),
    {
        DbError::JsonParse { path: path.into(), source }
    }

    /// The JSON file at `path` has a layout that is not understood.
    pub fn unsupported_json_format<P: Into<PathBuf>>(path: P) -> (e: Self)
        ensures
            e matches DbError::UnsupportedJsonFormat { path: p }
                && (<P as IntoSpec<PathBuf>>::obeys_into_spec() ==> p == path.into_spec()),
    {
        DbError::UnsupportedJsonFormat { path: path.into() }
    }

    /// The directory at `path` could not be listed.
    pub fn directory_read<P: Into<PathBuf>>(path: P, source: std::io::Error) -> (e: Self)
        ensures
            e matches DbError::DirectoryRead { path: p, source: s } && s == source
                && (<P as IntoSpec<PathBuf>>::obeys_into_spec() ==> p == path.into_spec()),
    {
        DbError::DirectoryRead { path: path.into(), source }
    }
}

} // verus!
