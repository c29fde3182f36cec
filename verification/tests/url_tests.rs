use netproto::url::{Error, ParsedUrl};

fn parts(url: &str) -> (String, String, String) {
    let p = ParsedUrl::from(url).unwrap();
    (p.scheme, p.host, p.path)
}

#[test]
fn https_url_keeps_its_scheme() {
    assert_eq!(
        parts("https://example.com"),
        ("https".to_string(), "example.com".to_string(), "/".to_string())
    );
}

#[test]
fn bare_host_is_read_as_http() {
    assert_eq!(
        parts("example.com/a/b"),
        ("http".to_string(), "example.com".to_string(), "/a/b".to_string())
    );
}

#[test]
fn url_beginning_with_http_but_without_separator_fails() {
    assert!(matches!(ParsedUrl::from("httpbin.org/get"), Err(Error::ParseUrlError)));
}

#[test]
fn trailing_slash_gives_root_path() {
    assert_eq!(parts("http://host/"), ("http".to_string(), "host".to_string(), "/".to_string()));
}

#[test]
fn other_scheme_without_http_prefix_becomes_host() {
    assert_eq!(parts("ftp://x/y"), ("http".to_string(), "ftp".to_string(), "/".to_string()));
}

#[test]
fn second_separator_cuts_the_path() {
    assert_eq!(parts("http://a/b://c/d"), ("http".to_string(), "a".to_string(), "/b".to_string()));
}

#[test]
fn path_keeps_empty_segments() {
    assert_eq!(parts("http://h//x/"), ("http".to_string(), "h".to_string(), "//x/".to_string()));
}

#[test]
fn empty_url_has_empty_host() {
    assert_eq!(parts(""), ("http".to_string(), "".to_string(), "/".to_string()));
}

#[test]
fn non_ascii_host() {
    assert_eq!(parts("bücher.de/ä"), ("http".to_string(), "bücher.de".to_string(), "/ä".to_string()));
}

#[test]
fn parsed_urls_compare_by_parts() {
    assert_eq!(ParsedUrl::from("example.com").unwrap(), ParsedUrl::from("http://example.com/").unwrap());
}

#[test]
fn url_recomposes_from_its_parts() {
    let p = ParsedUrl::from("https://example.com/x/y").unwrap();
    assert_eq!(format!("{}://{}{}", p.scheme, p.host, p.path), "https://example.com/x/y");
}

#[test]
fn error_message() {
    assert_eq!(Error::ParseUrlError.to_string(), "URL parsing error");
}

#[test]
fn rebuilt_url_parses_to_the_same_parts() {
    for url in ["example.com", "https://h/a//b", "http://a/b://c/d", "ftp://x/y", "http:://h", "", "http://h:/x"] {
        let p = ParsedUrl::from(url).unwrap();
        let again = ParsedUrl::from(&format!("{}://{}{}", p.scheme, p.host, p.path)).unwrap();
        assert_eq!(again, p);
    }
}
