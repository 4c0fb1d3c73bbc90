use browser_core::url::Url;

fn parts(url: &str) -> (String, String, String, String) {
    let parsed = Url::new(url.to_string()).parse().expect("an http location parses");
    (parsed.host(), parsed.port(), parsed.path(), parsed.search_part())
}

fn expected(host: &str, port: &str, path: &str, search_part: &str) -> (String, String, String, String) {
    (host.to_string(), port.to_string(), path.to_string(), search_part.to_string())
}

#[test]
fn test_url_host() {
    let url = "http://example.com".to_string();
    assert_eq!(expected("example.com", "80", "", ""), parts(&url));
}

#[test]
fn test_url_host_with_port_and_path() {
    let url = "http://example.com:8888/index.html".to_string();
    assert_eq!(expected("example.com", "8888", "index.html", ""), parts(&url));
}

#[test]
fn test_url_host_with_path() {
    let url = "http://example.com/index.html".to_string();
    assert_eq!(expected("example.com", "80", "index.html", ""), parts(&url));
}

#[test]
fn test_url_host_with_port_and_path_with_searchpart() {
    let url = "http://example.com:8888/index.html?a=123&b=456".to_string();
    assert_eq!(expected("example.com", "8888", "index.html", "a=123&b=456"), parts(&url));
}

#[test]
fn test_no_scheme() {
    let url = "example.com".to_string();
    let expected = Err("Only HTTP scheme is supported.".to_string());
    assert_eq!(expected, Url::new(url).parse());
}

#[test]
fn test_unsupported_scheme() {
    let url = "https://example.com:8888/index.html".to_string();
    let expected = Err("Only HTTP scheme is supported.".to_string());
    assert_eq!(expected, Url::new(url).parse());
}

#[test]
fn parse_returns_a_copy_of_the_parsed_location() {
    let mut url = Url::new("http://example.com:8888/index.html?a=1".to_string());
    let copy = url.parse().expect("an http location parses");
    assert_eq!(copy, url);
    assert_eq!(url.host(), "example.com");
}

#[test]
fn a_refused_location_is_left_unchanged() {
    let mut url = Url::new("ftp://example.com/a".to_string());
    assert!(url.parse().is_err());
    assert_eq!(url, Url::new("ftp://example.com/a".to_string()));
}

#[test]
fn a_new_location_has_empty_parts() {
    let url = Url::new("http://example.com/a".to_string());
    assert_eq!(url.host(), "");
    assert_eq!(url.port(), "");
    assert_eq!(url.path(), "");
    assert_eq!(url.search_part(), "");
}

#[test]
fn the_scheme_may_stand_anywhere_and_is_trimmed_only_at_the_start() {
    assert_eq!(expected("xhttp", "", "/example.com", ""), parts("xhttp://example.com"));
    assert_eq!(expected("example.com", "80", "", ""), parts("http://http://example.com"));
}

#[test]
fn a_question_mark_splits_only_behind_the_first_slash() {
    assert_eq!(expected("example.com?a", "80", "p", "q?r"), parts("http://example.com?a/p?q?r"));
    assert_eq!(expected("example.com", "", "", ""), parts("http://example.com:"));
    assert_eq!(expected("example.com", "80", "a/b", ""), parts("http://example.com/a/b"));
}
