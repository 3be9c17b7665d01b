use url_profiler::url::can_split_url;
use url_profiler::url::url_domain_route_split;

#[test]
fn splits_scheme_url_into_host_and_path() {
    let (domain, route) = url_domain_route_split("http://example.com/index.html");
    assert_eq!(domain, "example.com");
    assert_eq!(route, "/index.html");
}

#[test]
fn splits_scheme_url_with_deep_path() {
    let (domain, route) = url_domain_route_split("https://host.test/a/b/c");
    assert_eq!(domain, "host.test");
    assert_eq!(route, "/a/b/c");
}

#[test]
fn splits_scheme_url_without_path() {
    let (domain, route) = url_domain_route_split("http://example.com");
    assert_eq!(domain, "example.com");
    assert_eq!(route, "");
}

#[test]
fn host_reoccurring_in_path_truncates_route() {
    // Known quirk of the substring-based split: the route stops at the
    // next occurrence of the host substring.
    let (domain, route) = url_domain_route_split("http://ab/ab");
    assert_eq!(domain, "ab");
    assert_eq!(route, "/");
}

#[test]
fn host_occurring_earlier_skews_route() {
    // Known quirk: the route is taken after the *first* occurrence of the
    // host substring, wherever that is.
    let (domain, route) = url_domain_route_split("example.com/e");
    assert_eq!(domain, "e");
    assert_eq!(route, "xampl");
}

#[test]
fn schemeless_url_takes_second_segment_as_host() {
    let (domain, route) = url_domain_route_split("example.com/foo/bar");
    assert_eq!(domain, "foo");
    assert_eq!(route, "/bar");
}

#[test]
fn schemeless_two_segment_url() {
    let (domain, route) = url_domain_route_split("a/b");
    assert_eq!(domain, "b");
    assert_eq!(route, "");
}

#[test]
fn accepts_ordinary_urls() {
    assert!(can_split_url("http://example.com/index.html"));
    assert!(can_split_url("example.com/foo"));
    assert!(can_split_url("http://example.com"));
}

#[test]
fn rejects_urls_without_a_separator() {
    assert!(!can_split_url("nohost"));
    assert!(!can_split_url(""));
}

#[test]
fn rejects_urls_with_an_empty_host() {
    assert!(!can_split_url("http://"));
    assert!(!can_split_url("trailing/"));
    assert!(!can_split_url("http:///rooted"));
}
