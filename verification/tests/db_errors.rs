use oc_stats::db_errors::{format_candidates, DbError};
use std::path::PathBuf;

#[test]
fn candidates_are_comma_separated() {
    let paths = vec!["/a/opencode.db".to_string(), "/b/opencode.db".to_string()];
    assert_eq!(format_candidates(&paths), "/a/opencode.db, /b/opencode.db");
    assert_eq!(format_candidates(&["/only".to_string()]), "/only");
    assert_eq!(format_candidates(&[]), "");
}

#[test]
fn constructors_pick_their_variant() {
    match DbError::unsupported_json_format("/tmp/x.json") {
        DbError::UnsupportedJsonFormat { path } => assert_eq!(path, PathBuf::from("/tmp/x.json")),
        _ => panic!("wrong variant"),
    }
    match DbError::database_not_found(vec![PathBuf::from("/db")]) {
        DbError::DatabaseNotFound { candidates } => assert_eq!(candidates, vec![PathBuf::from("/db")]),
        _ => panic!("wrong variant"),
    }
    let io = std::io::Error::new(std::io::ErrorKind::NotFound, "gone");
    match DbError::json_read("/tmp/y.json", io) {
        DbError::JsonRead { path, source } => {
            assert_eq!(path, PathBuf::from("/tmp/y.json"));
            assert_eq!(source.kind(), std::io::ErrorKind::NotFound);
        },
        _ => panic!("wrong variant"),
    }
}

#[test]
fn constructors_keep_path_and_source() {
    match DbError::database_open("/tmp/opencode.db", rusqlite::Error::QueryReturnedNoRows) {
        DbError::DatabaseOpen { path, source } => {
            assert_eq!(path, PathBuf::from("/tmp/opencode.db"));
            assert!(matches!(source, rusqlite::Error::QueryReturnedNoRows));
        },
        _ => panic!("wrong variant"),
    }
    match DbError::database_query(rusqlite::Error::QueryReturnedNoRows) {
        DbError::DatabaseQuery { source } => {
            assert!(matches!(source, rusqlite::Error::QueryReturnedNoRows))
        },
        _ => panic!("wrong variant"),
    }
    let parse = serde_json::from_str::<u8>("not json").unwrap_err();
    let line = parse.line();
    match DbError::json_parse(PathBuf::from("/tmp/z.json"), parse) {
        DbError::JsonParse { path, source } => {
            assert_eq!(path, PathBuf::from("/tmp/z.json"));
            assert_eq!(source.line(), line);
        },
        _ => panic!("wrong variant"),
    }
    let io = std::io::Error::new(std::io::ErrorKind::PermissionDenied, "no");
    match DbError::directory_read("/tmp/dir", io) {
        DbError::DirectoryRead { path, source } => {
            assert_eq!(path, PathBuf::from("/tmp/dir"));
            assert_eq!(source.kind(), std::io::ErrorKind::PermissionDenied);
        },
        _ => panic!("wrong variant"),
    }
}

#[test]
fn messages_name_the_path_and_the_cause() {
    let io = || std::io::Error::new(std::io::ErrorKind::NotFound, "gone");
    let e = DbError::json_read("/tmp/y.json", io());
    assert_eq!(e.message("/tmp/y.json", &[], "gone"), "failed to read JSON file '/tmp/y.json': gone");
    let e = DbError::database_not_found(vec![PathBuf::from("/a"), PathBuf::from("/b")]);
    let listed = vec!["/a".to_string(), "/b".to_string()];
    assert_eq!(
        e.message("", &listed, ""),
        "could not find a valid OpenCode database; checked: /a, /b"
    );
    let e = DbError::database_open("/db", rusqlite::Error::QueryReturnedNoRows);
    assert_eq!(e.message("/db", &[], "x"), "failed to open database at '/db': x");
    let e = DbError::database_query(rusqlite::Error::QueryReturnedNoRows);
    assert_eq!(e.message("", &[], "x"), "database query failed: x");
    let parse = serde_json::from_str::<u8>("nope").unwrap_err();
    let e = DbError::json_parse("/p.json", parse);
    assert_eq!(e.message("/p.json", &[], "bad"), "failed to parse JSON file '/p.json': bad");
    let e = DbError::unsupported_json_format("/q.json");
    assert_eq!(e.message("/q.json", &[], ""), "unsupported JSON input format at '/q.json'");
    let e = DbError::directory_read("/d", io());
    assert_eq!(e.message("/d", &[], "gone"), "failed to read directory '/d': gone");
}
