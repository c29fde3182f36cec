use netproto::message::{get_request_bytes, host_port, post_request_bytes, request_message};
use netproto::request::{Method, Request};
use netproto::url::ParsedUrl;
use std::collections::HashMap;

#[test]
fn get_request_of_fresh_request() {
    let url = ParsedUrl::from("http://example.com/index").unwrap();
    let bytes = get_request_bytes(&url, &Request::new());
    assert_eq!(
        String::from_utf8(bytes).unwrap(),
        "GET /index HTTP/1.1\r\nHOST: example.com\r\nContent-Length: 0\r\nConnection: Close\r\n\r\n\r\n\r\n"
    );
}

#[test]
fn post_request_carries_json() {
    let url = ParsedUrl::from("example.com").unwrap();
    let bytes = post_request_bytes(&url, &Request::new(), "{\"age\":43}");
    assert_eq!(
        String::from_utf8(bytes).unwrap(),
        "POST / HTTP/1.1\r\nHOST: example.com\r\nContent-Length: 0\r\nContent-type: application/json\r\nConnection: Close\r\n\r\n\r\n\r\n{\"age\":43}"
    );
}

#[test]
fn range_and_headers_are_written() {
    let url = ParsedUrl::from("https://h/p").unwrap();
    let request = Request::new().set_range(0..1024);
    let headers = vec![("Accept".to_string(), "text/html".to_string()), ("X".to_string(), "y".to_string())];
    let bytes = request_message(&Method::PUT, &url, &request, &headers, None);
    assert_eq!(
        String::from_utf8(bytes).unwrap(),
        "PUT /p HTTP/1.1\r\nHOST: h\r\nAccept: text/html\r\nX: y\r\nContent-Length: 0\r\nRange: bytes=0-1024\r\nConnection: Close\r\n\r\n\r\n\r\n"
    );
}

#[test]
fn headers_of_request_are_sent() {
    let url = ParsedUrl::from("h").unwrap();
    let mut h = HashMap::new();
    h.insert("K".to_string(), "V".to_string());
    let bytes = get_request_bytes(&url, &Request::new().set_headers(h));
    assert_eq!(
        String::from_utf8(bytes).unwrap(),
        "GET / HTTP/1.1\r\nHOST: h\r\nK: V\r\nContent-Length: 0\r\nConnection: Close\r\n\r\n\r\n\r\n"
    );
}

#[test]
fn address_joins_host_and_port() {
    assert_eq!(host_port("example.com", "80"), "example.com:80");
    assert_eq!(host_port("::1", "8080"), "::1:8080");
}

#[test]
fn empty_headers_write_no_lines() {
    let url = ParsedUrl::from("example.com/api").unwrap();
    let request = Request::new().set_headers(HashMap::new());
    let bytes = post_request_bytes(&url, &request, "[1,2]");
    assert_eq!(
        String::from_utf8(bytes).unwrap(),
        "POST /api HTTP/1.1\r\nHOST: example.com\r\nContent-Length: 0\r\nContent-type: application/json\r\nConnection: Close\r\n\r\n\r\n\r\n[1,2]"
    );
}
