use rust_toy_webserver::route_params::RouteParams;
use rust_toy_webserver::route_pattern::{PathSegment, RoutePattern};

#[test]
fn test_parse_route_pattern() {
    let parsed: RoutePattern = "foo/bar/baz/".parse().unwrap();

    let expected = RoutePattern {
        segments: vec![
            PathSegment::Static("foo".to_string()),
            PathSegment::Static("bar".to_string()),
            PathSegment::Static("baz".to_string()),
        ],
    };

    assert_eq!(parsed.segments.len(), 3);
    assert_eq!(parsed, expected);
}

#[test]
fn test_parse_route_pattern_with_params() {
    let parsed: RoutePattern = "foo/:param1".parse().unwrap();

    let expected = RoutePattern {
        segments: vec![
            PathSegment::Static("foo".to_string()),
            PathSegment::Dynamic("param1".to_string()),
        ],
    };

    assert_eq!(parsed, expected);
}

#[test]
fn test_parse_route_pattern_with_wildcard() {
    let parsed: RoutePattern = "prefix/*".parse().unwrap();

    let expected = RoutePattern {
        segments: vec![
            PathSegment::Static("prefix".to_string()),
            PathSegment::Wildcard,
        ],
    };

    assert_eq!(parsed, expected);
}

#[test]
fn test_static_route_pattern_matching() {
    let pattern: RoutePattern = "foo/bar/baz/".parse().unwrap();

    assert!(pattern.matches("/foo/bar/baz/").is_some());
    assert!(pattern.matches("/fizz/buzz/").is_none());
}

#[test]
fn test_dynamic_matching_returns_variables() {
    let pattern: RoutePattern = "foo/:param1/baz/:param2".parse().unwrap();

    let params = pattern.matches("/foo/1234/baz/yeah").unwrap();
    let mut expected = RouteParams::new();
    expected.insert("param1".to_string(), "1234".to_string());
    expected.insert("param2".to_string(), "yeah".to_string());
    assert_eq!(params, expected);
}

#[test]
fn test_wildcard_matching() {
    let pattern: RoutePattern = "foo/*".parse().unwrap();
    let params = pattern.matches("/foo/1234/baz/yeah").unwrap();

    let mut expected = RouteParams::new();
    expected.insert("*".to_string(), "1234/baz/yeah".to_string());

    assert_eq!(params, expected);
}

fn params(pairs: &[(&str, &str)]) -> RouteParams {
    let mut expected = RouteParams::new();
    for (key, value) in pairs {
        expected.insert(key.to_string(), value.to_string());
    }
    expected
}

#[test]
fn empty_pattern_matches_nothing() {
    let pattern = RoutePattern::_new();
    assert_eq!(pattern.segments.len(), 0);
    assert!(pattern.matches("").is_none());
    assert!(pattern.matches("/").is_none());
    assert!(pattern.matches("/foo").is_none());
}

#[test]
fn parse_is_the_same_as_from_str() {
    let parsed: RoutePattern = "/a/:b/*".parse().unwrap();
    assert_eq!(parsed, RoutePattern::parse("/a/:b/*"));
    assert_eq!(
        parsed,
        RoutePattern {
            segments: vec![
                PathSegment::Static("a".to_string()),
                PathSegment::Dynamic("b".to_string()),
                PathSegment::Wildcard,
            ],
        }
    );
}

#[test]
fn parse_keeps_empty_segments_as_literals() {
    assert_eq!(
        RoutePattern::parse(""),
        RoutePattern { segments: vec![PathSegment::Static(String::new())] }
    );
    assert_eq!(
        RoutePattern::parse("///"),
        RoutePattern { segments: vec![PathSegment::Static(String::new())] }
    );
    assert_eq!(
        RoutePattern::parse("a//b"),
        RoutePattern {
            segments: vec![
                PathSegment::Static("a".to_string()),
                PathSegment::Static(String::new()),
                PathSegment::Static("b".to_string()),
            ],
        }
    );
}

#[test]
fn parse_classifies_by_the_first_character() {
    assert_eq!(
        RoutePattern::parse(":/*rest/a:b/a*"),
        RoutePattern {
            segments: vec![
                PathSegment::Dynamic(String::new()),
                PathSegment::Wildcard,
                PathSegment::Static("a:b".to_string()),
                PathSegment::Static("a*".to_string()),
            ],
        }
    );
}

#[test]
fn parse_twice_gives_equal_patterns() {
    for template in ["", "/", "foo/bar", "/foo/:id/*", "*/x", "é/:ü"] {
        assert_eq!(RoutePattern::parse(template), RoutePattern::parse(template));
    }
}

#[test]
fn matching_twice_gives_equal_results() {
    let pattern = RoutePattern::parse("foo/:id/*");
    for path in ["/foo/1/a/b", "/foo", "/bar/1/2", ""] {
        assert_eq!(pattern.matches(path), pattern.matches(path));
    }
}

#[test]
fn static_pattern_needs_the_same_number_of_segments() {
    let pattern = RoutePattern::parse("foo/bar/baz");
    assert_eq!(pattern.matches("foo/bar/baz"), Some(RouteParams::new()));
    assert_eq!(pattern.matches("///foo/bar/baz///"), Some(RouteParams::new()));
    assert!(pattern.matches("/foo/bar").is_none());
    assert!(pattern.matches("/foo/bar/baz/qux").is_none());
    assert!(pattern.matches("/foo/bar/BAZ").is_none());
    assert!(pattern.matches("/foo//bar/baz").is_none());
    assert!(pattern.matches("").is_none());
}

#[test]
fn dynamic_segment_captures_any_text() {
    let pattern = RoutePattern::parse("user/:id/end");
    assert_eq!(pattern.matches("/user//end"), Some(params(&[("id", "")])));
    assert_eq!(pattern.matches("/user/:id/end"), Some(params(&[("id", ":id")])));
    assert_eq!(pattern.matches("/user/é ü/end"), Some(params(&[("id", "é ü")])));
    assert!(pattern.matches("/user").is_none());
    assert!(pattern.matches("/user/7").is_none());
}

#[test]
fn dynamic_segment_of_the_same_name_keeps_the_later_capture() {
    let pattern = RoutePattern::parse(":x/:x");
    assert_eq!(pattern.matches("/first/second"), Some(params(&[("x", "second")])));
}

#[test]
fn lone_dynamic_segment_matches_the_empty_path() {
    let pattern = RoutePattern::parse(":only");
    assert_eq!(pattern.matches(""), Some(params(&[("only", "")])));
    assert_eq!(pattern.matches("/"), Some(params(&[("only", "")])));
    assert!(pattern.matches("/a/b").is_none());
}

#[test]
fn wildcard_captures_zero_or_more_segments() {
    let pattern = RoutePattern::parse("foo/*");
    assert_eq!(pattern.matches("/foo"), Some(params(&[("*", "")])));
    assert_eq!(pattern.matches("/foo/a"), Some(params(&[("*", "a")])));
    assert_eq!(pattern.matches("/foo/a//b"), Some(params(&[("*", "a//b")])));
    assert!(pattern.matches("/bar/a").is_none());
    assert!(pattern.matches("").is_none());
}

#[test]
fn wildcard_alone_captures_the_trimmed_path() {
    let pattern = RoutePattern::parse("/*");
    assert_eq!(pattern.matches("/"), Some(params(&[("*", "")])));
    assert_eq!(pattern.matches(""), Some(params(&[("*", "")])));
    assert_eq!(pattern.matches("/../../../etc/passwd"), Some(params(&[("*", "../../../etc/passwd")])));
    assert_eq!(pattern.matches("//a/b//"), Some(params(&[("*", "a/b")])));
}

#[test]
fn wildcard_ends_the_match_whatever_follows_it() {
    let with_tail = RoutePattern::parse("foo/*/never/:seen");
    let cut = RoutePattern::parse("foo/*");
    assert_eq!(with_tail.segments.len(), 4);
    for path in ["/foo/1234/baz/yeah", "/foo", "/foo/never", "/bar", ""] {
        assert_eq!(with_tail.matches(path), cut.matches(path));
    }
    assert_eq!(
        with_tail.matches("/foo/1234/baz/yeah"),
        Some(params(&[("*", "1234/baz/yeah")]))
    );
}

#[test]
fn wildcard_capture_replaces_a_parameter_named_like_it() {
    let pattern = RoutePattern::parse(":*/*");
    assert_eq!(pattern.matches("/a/b/c"), Some(params(&[("*", "b/c")])));
}

#[test]
fn catch_all_patterns_are_recognised() {
    assert!(RoutePattern::parse("/*").accepts_every_path());
    assert!(RoutePattern::parse("*/tail").accepts_every_path());
    assert!(RoutePattern::parse(":first/*").accepts_every_path());
    assert!(!RoutePattern::parse(":first").accepts_every_path());
    assert!(!RoutePattern::parse(":first/:second/*").accepts_every_path());
    assert!(!RoutePattern::parse("foo/*").accepts_every_path());
    assert!(!RoutePattern::parse("").accepts_every_path());
    assert!(!RoutePattern::_new().accepts_every_path());
}
