use nucleus::plugin::PluginError;
use nucleus::plugins::SearchParams;
use nucleus::plugins::default_max_results;
use nucleus::search::search_text;

#[test]
fn test_search_plain_case_insensitive() {
    let text = "foo here\nbar\nFOO again\n";
    let ms = search_text(text, "foo", false, false, 10).unwrap();
    assert_eq!(ms.len(), 2);
    assert_eq!(ms[0].line, 1);
    assert_eq!(ms[0].content, "foo here");
    assert_eq!(ms[1].line, 3);
    assert_eq!(ms[1].content, "FOO again");
}

#[test]
fn test_search_plain_case_sensitive() {
    let text = "foo here\nFOO again\n";
    let ms = search_text(text, "foo", false, true, 10).unwrap();
    assert_eq!(ms.len(), 1);
    assert_eq!(ms[0].line, 1);
}

#[test]
fn test_search_plain_escapes_metacharacters() {
    // In plain mode the query is matched literally: `a.c` must not match
    // `abc`.
    let text = "abc\na.c\n";
    let ms = search_text(text, "a.c", false, true, 10).unwrap();
    assert_eq!(ms.len(), 1);
    assert_eq!(ms[0].line, 2);
}

#[test]
fn test_search_regex_mode() {
    let text = "bar\nbear\nbor\n";
    let ms = search_text(text, "^b.r$", true, true, 10).unwrap();
    assert_eq!(ms.len(), 2);
    assert_eq!(ms[0].line, 1);
    assert_eq!(ms[1].line, 3);
}

#[test]
fn test_search_invalid_regex() {
    let err = search_text("anything", "(", true, true, 10).unwrap_err();
    assert!(matches!(err, PluginError::InvalidInput(_)));
}

#[test]
fn test_search_respects_max_results() {
    let text = "x\nx\nx\nx\n";
    let ms = search_text(text, "x", false, true, 2).unwrap();
    assert_eq!(ms.len(), 2);
}

#[test]
fn test_search_trims_matched_lines() {
    let text = "   padded match   \n";
    let ms = search_text(text, "match", false, true, 10).unwrap();
    assert_eq!(ms[0].content, "padded match");
}

#[test]
fn test_search_params_defaults() {
    let p = SearchParams::from_fields(Some("q".to_string()), None, None, None, None, None).unwrap();
    assert_eq!(p.query, "q");
    assert!(!p.regex);
    assert!(!p.case_sensitive);
    assert_eq!(p.max_results, default_max_results());
    assert!(!p.exclude_patterns.is_empty());

    let missing = SearchParams::from_fields(None, None, None, None, None, None);
    assert!(matches!(missing, Err(PluginError::InvalidInput(_))));
}
