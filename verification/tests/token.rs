use rich_text::token::{
    build_ctx_open_url, encode_uri_component, has_explicit_path_cue, is_absolute_path,
    is_windows_drive, parse_digits, parse_file_ref_token, parse_line_col_suffix, parse_url_token,
    split_whitespace_token_ranges, FileRef,
};

#[test]
fn whitespace_token_ranges_cover_tokens_only() {
    let text = "  src/a.rs  http://x  ";
    let ranges = split_whitespace_token_ranges(text);
    assert_eq!(ranges.len(), 2);
    assert_eq!(&text[ranges[0].start..ranges[0].end], "src/a.rs");
    assert_eq!(&text[ranges[1].start..ranges[1].end], "http://x");
    for r in &ranges {
        assert!(r.start < r.end);
        assert!(!text[r.start..r.end].chars().any(|c| c.is_whitespace()));
    }
    assert!(split_whitespace_token_ranges("").is_empty());
    assert!(split_whitespace_token_ranges(" \t\n").is_empty());
    let one = split_whitespace_token_ranges("abc");
    assert_eq!(one.len(), 1);
    assert_eq!((one[0].start, one[0].end), (0, 3));
}

#[test]
fn url_tokens_match_case_insensitively_and_keep_case() {
    assert_eq!(
        parse_url_token("HTTPS://EXAMPLE.com/x"),
        Some("HTTPS://EXAMPLE.com/x".to_string())
    );
    assert_eq!(parse_url_token("http://a"), Some("http://a".to_string()));
    assert_eq!(parse_url_token("ftp://x"), None);
    assert_eq!(parse_url_token("https:/x"), None);
    assert_eq!(parse_url_token(""), None);
}

#[test]
fn file_ref_with_line_and_column() {
    let f = parse_file_ref_token("src/main.rs:42:7").unwrap();
    assert_eq!(f.path, "src/main.rs");
    assert_eq!(f.line, Some(42));
    assert_eq!(f.col, Some(7));
}

#[test]
fn bare_word_with_colon_is_rejected() {
    assert!(parse_file_ref_token("a:b").is_none());
    assert!(parse_file_ref_token("word").is_none());
    assert!(parse_file_ref_token("a:1").is_none());
}

#[test]
fn github_style_line_anchor() {
    let f = parse_file_ref_token("./README.md#L10").unwrap();
    assert_eq!(f.path, "./README.md");
    assert_eq!(f.line, Some(10));
    assert_eq!(f.col, None);
    let g = parse_file_ref_token("./README.md#L10C4").unwrap();
    assert_eq!((g.line, g.col), (Some(10), Some(4)));
}

#[test]
fn scheme_separator_rejects_file_refs() {
    assert!(parse_file_ref_token("http://x/y.rs").is_none());
    assert!(parse_file_ref_token("scheme://host/path:3").is_none());
}

#[test]
fn bare_paths_need_a_cue() {
    assert_eq!(parse_file_ref_token("src/lib.rs").unwrap().path, "src/lib.rs");
    assert_eq!(parse_file_ref_token(".").unwrap().path, ".");
    assert_eq!(parse_file_ref_token("..").unwrap().path, "..");
    assert_eq!(parse_file_ref_token("~").unwrap().path, "~");
    assert_eq!(parse_file_ref_token("C:\\dir\\f.txt").unwrap().path, "C:\\dir\\f.txt");
    assert!(parse_file_ref_token("lib.rs").is_none());
    assert!(parse_file_ref_token("").is_none());
}

#[test]
fn line_col_suffix_grammar_details() {
    // a non-numeric tail falls back to the single-number form
    let f = parse_line_col_suffix("src/a.rs:10").unwrap();
    assert_eq!((f.path.as_str(), f.line, f.col), ("src/a.rs", Some(10), None));
    // zero and overflow are not positive line numbers
    assert!(parse_line_col_suffix("src/a.rs:0").is_none());
    assert!(parse_line_col_suffix("src/a.rs:99999999999").is_none());
    // the path before the anchor still needs a cue
    assert!(parse_line_col_suffix("a#L5").is_none());
    // a `C` with unparsable digits leaves the column empty
    let g = parse_line_col_suffix("./a.rs#L5Cx").unwrap();
    assert_eq!((g.line, g.col), (Some(5), None));
}

#[test]
fn digits_parse_only_positive_in_range() {
    assert_eq!(parse_digits("42"), Some(42));
    assert_eq!(parse_digits("007"), Some(7));
    assert_eq!(parse_digits("0"), None);
    assert_eq!(parse_digits(""), None);
    assert_eq!(parse_digits("1x"), None);
    assert_eq!(parse_digits("4294967295"), Some(u32::MAX));
    assert_eq!(parse_digits("4294967296"), None);
}

#[test]
fn absolute_paths() {
    assert!(is_absolute_path("/etc/hosts"));
    assert!(is_absolute_path("\\share"));
    assert!(is_absolute_path("~"));
    assert!(is_absolute_path("~/x"));
    assert!(is_absolute_path("C:/x"));
    assert!(!is_absolute_path("src/x"));
    assert!(!is_absolute_path(""));
    assert!(is_windows_drive("d:\\x"));
    assert!(!is_windows_drive("dd:\\x"));
}

#[test]
fn path_cues() {
    assert!(has_explicit_path_cue("./x"));
    assert!(has_explicit_path_cue("../x"));
    assert!(has_explicit_path_cue("~/x"));
    assert!(has_explicit_path_cue("/x"));
    assert!(has_explicit_path_cue("a/b"));
    assert!(has_explicit_path_cue("a\\b"));
    assert!(!has_explicit_path_cue("ab"));
    assert!(!has_explicit_path_cue("a://b/c"));
}

#[test]
fn encode_uri_component_percent_escapes() {
    assert_eq!(encode_uri_component("a b/c"), "a%20b%2Fc");
    assert_eq!(encode_uri_component("AZaz09-_.~"), "AZaz09-_.~");
    assert_eq!(encode_uri_component(""), "");
    // multi-byte characters become one escape per byte
    assert_eq!(encode_uri_component("é"), "%C3%A9");
}

#[test]
fn open_urls_take_the_documented_shape() {
    let rel = FileRef { path: "src/a.rs".to_string(), line: Some(3), col: Some(9) };
    let wt = "team x".to_string();
    assert_eq!(
        build_ctx_open_url(&rel, Some(&wt)).unwrap(),
        "ctx://open?worktreeId=team%20x&file=src%2Fa.rs&line=3&col=9"
    );
    assert_eq!(build_ctx_open_url(&rel, None), None);
    let abs = FileRef { path: "/etc/hosts".to_string(), line: None, col: None };
    assert_eq!(build_ctx_open_url(&abs, None).unwrap(), "ctx://open?path=%2Fetc%2Fhosts");
    let abs_line = FileRef { path: "/a".to_string(), line: Some(12), col: None };
    assert_eq!(build_ctx_open_url(&abs_line, None).unwrap(), "ctx://open?path=%2Fa&line=12");
}
