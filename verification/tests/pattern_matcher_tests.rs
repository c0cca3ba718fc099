use trache::matcher::compile_matcher;
use trache::pattern::{parse_pattern, MatchExtent, MatchTarget, MatchType};

#[test]
fn test_parse_pattern_defaults() {
    let p = parse_pattern("foo");
    assert_eq!(p.pattern, "foo");
    assert!(matches!(p.match_type, MatchType::Glob));
    assert!(matches!(p.extent, MatchExtent::Partial));
    assert!(matches!(p.target, MatchTarget::Name));
}

#[test]
fn test_parse_pattern_stacked_order_irrelevant() {
    let a = parse_pattern("full:name:foo");
    let b = parse_pattern("name:full:foo");
    assert_eq!(a.pattern, b.pattern);
    assert_eq!(a.pattern, "foo");
    assert!(matches!(a.extent, MatchExtent::Full) && matches!(b.extent, MatchExtent::Full));
    assert!(matches!(a.target, MatchTarget::Name) && matches!(b.target, MatchTarget::Name));
}

#[test]
fn test_parse_pattern_rightmost_wins() {
    let p = parse_pattern("glob:regex:x");
    assert!(matches!(p.match_type, MatchType::Regex));
    assert_eq!(p.pattern, "x");
    let q = parse_pattern("full:partial:y");
    assert!(matches!(q.extent, MatchExtent::Partial));
}

#[test]
fn test_parse_pattern_unrecognized_prefix_is_literal() {
    let p = parse_pattern("weird:foo");
    assert_eq!(p.pattern, "weird:foo");
    let q = parse_pattern("string:a:b");
    assert!(matches!(q.match_type, MatchType::Literal));
    assert_eq!(q.pattern, "a:b");
}

#[test]
fn test_parse_pattern_all_modifiers() {
    let p = parse_pattern("regex:full:path:^/tmp/");
    assert!(matches!(p.match_type, MatchType::Regex));
    assert!(matches!(p.extent, MatchExtent::Full));
    assert!(matches!(p.target, MatchTarget::Path));
    assert_eq!(p.pattern, "^/tmp/");
}

#[test]
fn test_literal_full_matches_exactly() {
    let m = compile_matcher("a.txt", MatchType::Literal, MatchExtent::Full).unwrap();
    assert!(m.is_match("a.txt"));
    assert!(!m.is_match("xa.txt"));
    assert!(!m.is_match("a.txtx"));
    assert!(!m.is_match(""));
}

#[test]
fn test_literal_partial_matches_substring() {
    let m = compile_matcher("a.txt", MatchType::Literal, MatchExtent::Partial).unwrap();
    assert!(m.is_match("a.txt"));
    assert!(m.is_match("xxa.txtyy"));
    assert!(!m.is_match("a.tx"));
}

#[test]
fn test_literal_empty_pattern() {
    let part = compile_matcher("", MatchType::Literal, MatchExtent::Partial).unwrap();
    assert!(part.is_match(""));
    assert!(part.is_match("anything"));
    let full = compile_matcher("", MatchType::Literal, MatchExtent::Full).unwrap();
    assert!(full.is_match(""));
    assert!(!full.is_match("x"));
}

#[test]
fn test_glob_partial_wraps_pattern() {
    let m = compile_matcher("foo", MatchType::Glob, MatchExtent::Partial).unwrap();
    assert!(m.is_match("foo"));
    assert!(m.is_match("xfooy"));
    // A partial glob may cross path separators.
    assert!(m.is_match("a/foo/b"));
    assert!(!m.is_match("fob"));
}

#[test]
fn test_glob_full_is_separator_aware() {
    let m = compile_matcher("*.txt", MatchType::Glob, MatchExtent::Full).unwrap();
    assert!(m.is_match("a.txt"));
    assert!(!m.is_match("a.txtx"));
    // A `*` in a full-extent glob does not cross a separator.
    assert!(!m.is_match("a/b.txt"));
}

#[test]
fn test_glob_invalid_pattern_fails() {
    match compile_matcher("a[", MatchType::Glob, MatchExtent::Full) {
        Err(e) => assert!(e.starts_with("invalid glob pattern: ")),
        Ok(_) => panic!("expected an error"),
    }
}

#[test]
fn test_regex_partial_search() {
    let m = compile_matcher("^foo", MatchType::Regex, MatchExtent::Partial).unwrap();
    assert!(m.is_match("foobar"));
    assert!(!m.is_match("zfoo"));
}

#[test]
fn test_regex_full_spans_whole_haystack() {
    let m = compile_matcher("foo", MatchType::Regex, MatchExtent::Full).unwrap();
    assert!(m.is_match("foo"));
    assert!(!m.is_match("xfoo"));
    assert!(!m.is_match("foox"));
    let d = compile_matcher("[0-9]+", MatchType::Regex, MatchExtent::Full).unwrap();
    assert!(d.is_match("123"));
    assert!(!d.is_match("12a"));
}

#[test]
fn test_regex_invalid_pattern_fails() {
    match compile_matcher("(", MatchType::Regex, MatchExtent::Partial) {
        Err(e) => assert!(e.starts_with("invalid regex: ")),
        Ok(_) => panic!("expected an error"),
    }
}

#[test]
fn test_pattern_to_matcher_end_to_end() {
    // A raw pattern as the command line hands it over: modifiers resolved,
    // then compiled and applied.
    let p = parse_pattern("full:*.txt");
    let m = compile_matcher(&p.pattern, p.match_type, p.extent).unwrap();
    assert!(m.is_match("notes.txt"));
    assert!(!m.is_match("notes.txt.bak"));
    let q = parse_pattern("string:full:a.txt");
    let n = compile_matcher(&q.pattern, q.match_type, q.extent).unwrap();
    assert!(n.is_match("a.txt"));
    assert!(!n.is_match("xa.txt"));
}

#[test]
fn test_glob_pattern_too_long_fails() {
    // globset aborts past its compiled-size cap instead of erring, so the
    // compiler bounds the glob text and reports an oversized one as invalid.
    let long = "a".repeat(5000);
    match compile_matcher(&long, MatchType::Glob, MatchExtent::Full) {
        Err(e) => assert!(e.starts_with("invalid glob pattern: ")),
        Ok(_) => panic!("expected an error"),
    }
    // The same text is fine as a literal or a regex.
    assert!(compile_matcher(&long, MatchType::Literal, MatchExtent::Full).is_ok());
    assert!(compile_matcher(&long, MatchType::Regex, MatchExtent::Partial).is_ok());
}

#[test]
fn test_glob_pattern_at_bound_compiles() {
    let at_bound = "a".repeat(4096);
    assert!(compile_matcher(&at_bound, MatchType::Glob, MatchExtent::Full).is_ok());
}
