use crawler::order::Rank;
use crawler::urls::{
    classify_scheme, has_colon_in_first_segment, has_scheme, normalize, scheme_len, SchemeClass, Url,
    UrlError,
};

fn url(raw: &str) -> Url {
    Url::parse(raw).unwrap()
}

#[test]
fn relative_link_resolves_against_the_page() {
    let base = url("http://example.org/dir/page.html");
    let resolved = normalize(&base, "../other.html").unwrap();
    assert_eq!(resolved.as_str(), "http://example.org/other.html");
}

#[test]
fn absolute_link_is_kept() {
    let base = url("http://example.org/dir/page.html");
    let resolved = normalize(&base, "http://elsewhere.org/x").unwrap();
    assert_eq!(resolved.as_str(), "http://elsewhere.org/x");
}

#[test]
fn query_and_fragment_of_the_link_replace_those_of_the_page() {
    let base = url("http://example.org/dir/page.html?old=1#top");
    assert_eq!(normalize(&base, "?q=1").unwrap().as_str(), "http://example.org/dir/page.html?q=1");
    assert_eq!(
        normalize(&base, "#end").unwrap().as_str(),
        "http://example.org/dir/page.html?old=1#end"
    );
    assert_eq!(normalize(&base, "//host/p").unwrap().as_str(), "http://host/p");
}

#[test]
fn parse_normalizes_case_and_dot_segments() {
    assert_eq!(url("HTTP://Example.ORG/a/../b").as_str(), "http://example.org/b");
    assert_eq!(url("http://a").as_str(), "http://a/");
}

#[test]
fn parse_rejects_what_is_not_absolute() {
    assert_eq!(Url::parse("../other.html").err(), Some(UrlError::Malformed));
    assert_eq!(Url::parse("").err(), Some(UrlError::Malformed));
    assert_eq!(Url::parse(":::bad:::").err(), Some(UrlError::Malformed));
}

#[test]
fn join_resolves_and_rejects() {
    let base = url("http://example.org/dir/page.html");
    assert_eq!(base.join("c.html").unwrap().as_str(), "http://example.org/dir/c.html");
    assert_eq!(base.join("/top").unwrap().as_str(), "http://example.org/top");
    assert_eq!(base.join("http://[").err(), Some(UrlError::Malformed));
}

#[test]
fn normalize_reports_malformed_links() {
    let base = url("http://example.org/dir/page.html");
    assert_eq!(normalize(&base, "http://[").err(), Some(UrlError::Malformed));
    assert_eq!(normalize(&base, "http://a b/").err(), Some(UrlError::Malformed));
    assert_eq!(normalize(&base, "http://").err(), Some(UrlError::Malformed));
}

#[test]
fn a_link_with_a_scheme_of_its_own_is_absolute() {
    let base = url("http://example.org/dir/page.html");
    let script = normalize(&base, "javascript:void(0)").unwrap();
    assert_eq!(script.as_str(), "javascript:void(0)");
    assert_eq!(script.scheme(), "javascript");
    assert!(!script.is_http());
}

#[test]
fn scheme_is_read_from_the_url() {
    assert_eq!(url("http://a").scheme(), "http");
    assert_eq!(url("HTTPS://b").scheme(), "https");
    assert_eq!(url("ftp://c").scheme(), "ftp");
    assert!(url("http://a").is_http());
    assert!(!url("https://b").is_http());
    assert!(!url("ftp://c").is_http());
}

#[test]
fn urls_compare_as_their_serializations() {
    let a = url("http://a.test/");
    let a2 = url("HTTP://A.test");
    let ab = url("http://a.test/b");
    let b = url("http://b.test/");
    assert_eq!(a.rank(&a2), Rank::Same);
    assert!(a.same(&a2));
    assert_eq!(a.rank(&ab), Rank::Before);
    assert_eq!(ab.rank(&a), Rank::After);
    assert_eq!(ab.rank(&b), Rank::Before);
    assert_eq!(b.rank(&a), Rank::After);
    assert!(!a.same(&b));
}

#[test]
fn clone_keeps_the_url() {
    let a = url("http://a.test/x?y#z");
    let copy = a.clone();
    assert!(a.same(&copy));
    assert_eq!(copy.as_str(), "http://a.test/x?y#z");
}

#[test]
fn schemes_fall_in_three_classes() {
    assert_eq!(classify_scheme("http"), SchemeClass::Http);
    assert_eq!(classify_scheme("https"), SchemeClass::Https);
    for other in ["ftp", "", "HTTP", "http:", "htt", "httpss", "javascript", "mailto"] {
        assert_eq!(classify_scheme(other), SchemeClass::Other, "{:?}", other);
    }
    assert_eq!(url("http://a").scheme_class(), SchemeClass::Http);
    assert_eq!(url("https://b").scheme_class(), SchemeClass::Https);
    assert_eq!(url("ftp://c").scheme_class(), SchemeClass::Other);
}

#[test]
fn a_colon_in_the_first_segment_is_found() {
    for raw in [":::bad:::", ":", "a:b", "1:2", "a b:c", "x:/y", "http://[", "\u{e9}t\u{e9}:1"] {
        assert!(has_colon_in_first_segment(raw), "{:?}", raw);
    }
    for raw in ["", "abc", "/a:b", "./a:b", "dir/a:b", "?q=a:b", "#a:b", "a/b:c", "a?b:c", "a#:", "//host:80/p"] {
        assert!(!has_colon_in_first_segment(raw), "{:?}", raw);
    }
}

#[test]
fn a_reference_with_a_colon_in_its_first_segment_is_malformed() {
    let base = url("http://example.org/dir/page.html");
    assert_eq!(normalize(&base, ":::bad:::").err(), Some(UrlError::Malformed));
    assert_eq!(normalize(&base, "1:2").err(), Some(UrlError::Malformed));
    assert_eq!(normalize(&base, ":").err(), Some(UrlError::Malformed));
    assert_eq!(normalize(&base, "a b:c").err(), Some(UrlError::Malformed));
}

#[test]
fn a_colon_after_the_first_segment_is_part_of_the_path() {
    let base = url("http://example.org/dir/page.html");
    assert_eq!(normalize(&base, "./a:b").unwrap().as_str(), "http://example.org/dir/a:b");
    assert_eq!(normalize(&base, "sub/a:b").unwrap().as_str(), "http://example.org/dir/sub/a:b");
    assert_eq!(normalize(&base, "/a:b").unwrap().as_str(), "http://example.org/a:b");
    assert_eq!(normalize(&base, "?t=12:30").unwrap().as_str(), "http://example.org/dir/page.html?t=12:30");
    assert_eq!(normalize(&base, "#a:b").unwrap().as_str(), "http://example.org/dir/page.html#a:b");
    assert_eq!(normalize(&base, "//host:8080/p").unwrap().as_str(), "http://host:8080/p");
}

#[test]
fn the_scheme_is_what_stands_before_the_first_colon() {
    assert_eq!(scheme_len("http://a/"), 4);
    assert_eq!(scheme_len("mailto:x@y"), 6);
    assert_eq!(scheme_len(":x"), 0);
    assert_eq!(scheme_len("no colon"), 8);
    assert_eq!(scheme_len(""), 0);
    assert_eq!(scheme_len("\u{e9}\u{e9}:"), 2);
    assert_eq!(url("http://user:pw@host:81/p:q").scheme(), "http");
    assert_eq!(url("javascript:void(0)").scheme(), "javascript");
    assert_eq!(url("WebCal://h/").scheme(), "webcal");
}

#[test]
fn a_scheme_is_recognised_by_what_stands_before_the_colon() {
    for raw in ["http://a", "javascript:void(0)", "a:b", "x-y+z.1:", " http://a", "ht\tt\np://a", "1:2", "http://["] {
        assert!(has_scheme(raw), "{:?}", raw);
    }
    for raw in ["", ":", ":::bad:::", "abc", "/a:b", "a/b:c", "a?b:c", "a#b:c", "a_b:c", "\u{e9}:x", "a@b:c", "[::1]"] {
        assert!(!has_scheme(raw), "{:?}", raw);
    }
}

#[test]
fn an_absolute_link_is_parsed_as_the_url_parser_parses_it() {
    let base = url("http://example.org/dir/page.html");
    for raw in [" http://elsewhere.org/x ", "ht\ttp://elsewhere.org/x", "HTTP://ELSEWHERE.org/x", "\n http://elsewhere.org/x"] {
        assert_eq!(normalize(&base, raw).unwrap().as_str(), "http://elsewhere.org/x", "{:?}", raw);
    }
    assert_eq!(normalize(&base, "mailto:x@y").unwrap().as_str(), "mailto:x@y");
    assert_eq!(normalize(&base, "https://b").unwrap().as_str(), "https://b/");
}

#[test]
fn a_link_that_parses_as_absolute_begins_with_a_scheme() {
    for raw in [
        "http://a", " http://a", "\thttp://a\n", "h\rttp://a", "a:b", "A+b-c.d:e", "x:", "file:///tmp",
        "http:foo", "data:text/plain,hi", "z9:\u{e9}",
    ] {
        assert!(Url::parse(raw).is_ok(), "{:?}", raw);
        assert!(has_scheme(raw), "{:?}", raw);
    }
    for raw in ["", " ", "a", ":", "1:2", "/a", "//a", "?a", "#a", "a b:c", "\u{e9}:x", "-a:b", "http", " :x", "a_b:c"] {
        assert!(Url::parse(raw).is_err(), "{:?}", raw);
    }
}

fn short_strings(alphabet: &[char], longest: usize) -> Vec<String> {
    let mut all = vec![String::new()];
    let mut last = vec![String::new()];
    for _ in 0..longest {
        let mut next = Vec::new();
        for prefix in &last {
            for c in alphabet {
                let mut longer = prefix.clone();
                longer.push(*c);
                next.push(longer);
            }
        }
        all.extend(next.iter().cloned());
        last = next;
    }
    all
}

#[test]
fn the_scheme_test_turns_away_nothing_that_parses() {
    let alphabet = [':', '/', 'a', 'Z', '1', ' ', '\t', '-', '+', '.', '?', '#', '@', '\u{e9}', '_'];
    let base = url("http://example.org/dir/page.html");
    for raw in short_strings(&alphabet, 4) {
        let absolute = Url::parse(&raw);
        if absolute.is_ok() {
            assert!(has_scheme(&raw), "{:?}", raw);
        }
        let expected = match absolute {
            Ok(found) => Some(found.as_str().to_string()),
            Err(_) if has_colon_in_first_segment(&raw) => None,
            Err(_) => base.join(&raw).ok().map(|found| found.as_str().to_string()),
        };
        let got = normalize(&base, &raw).ok().map(|found| found.as_str().to_string());
        assert_eq!(got, expected, "{:?}", raw);
    }
}
