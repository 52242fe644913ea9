use oc_stats::cache_errors::CacheError;

#[test]
fn unparsable_cache_is_a_parse_error() {
    let parse = serde_json::from_str::<Vec<u8>>("[1, oops]").unwrap_err();
    let column = parse.column();
    match CacheError::from(parse) {
        CacheError::CacheParse(source) => assert_eq!(source.column(), column),
        _ => panic!("wrong variant"),
    }
}

#[test]
fn messages_name_the_place_and_the_cause() {
    let io = || std::io::Error::new(std::io::ErrorKind::Other, "disk");
    let url = "https://models.dev/api.json".to_string();
    let cases: Vec<(CacheError, &str)> = vec![
        (CacheError::HttpTimeout { url: url.clone() }, "fetch https://models.dev/api.json timed out"),
        (
            CacheError::HttpStatus { url: url.clone(), status: 503 },
            "request to https://models.dev/api.json failed: 503",
        ),
        (CacheError::CacheDirNotFound, "could not determine cache directory"),
        (
            CacheError::CacheDirCreate { path: "/c".into(), source: io() },
            "failed to create cache dir /c: disk",
        ),
        (CacheError::CacheRead { path: "/c/m".into(), source: io() }, "failed to read cache file /c/m: disk"),
        (CacheError::CacheWrite { path: "/c/m".into(), source: io() }, "failed to write cache file /c/m: disk"),
        (CacheError::CurrentDir { source: io() }, "failed to determine current directory: disk"),
        (
            CacheError::ConfigRead { path: "/o.json".into(), source: io() },
            "failed to read OpenCode config /o.json: disk",
        ),
    ];
    for (err, expected) in cases {
        let path = match &err {
            CacheError::CacheDirCreate { path, .. }
            | CacheError::CacheRead { path, .. }
            | CacheError::CacheWrite { path, .. }
            | CacheError::ConfigRead { path, .. } => path.display().to_string(),
            _ => String::new(),
        };
        assert_eq!(err.message(&path, "disk"), expected);
    }
    let parse = serde_json::from_str::<u8>("nope").unwrap_err();
    let text = parse.to_string();
    assert_eq!(
        CacheError::CacheParse(parse).message("", &text),
        format!("failed to parse cached models: {text}")
    );
}
