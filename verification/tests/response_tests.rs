use netproto::response::get_response;

fn pair(a: &str, b: &str) -> Option<(String, String)> {
    Some((a.to_string(), b.to_string()))
}

#[test]
fn splits_head_and_body() {
    assert_eq!(get_response("HTTP/1.1 200 OK\r\nA: b\r\n\r\nhello"), pair("HTTP/1.1 200 OK\r\nA: b", "hello"));
}

#[test]
fn no_separator_gives_nothing() {
    assert_eq!(get_response("HTTP/1.1 200 OK\r\n"), None);
    assert_eq!(get_response(""), None);
}

#[test]
fn body_stops_at_next_separator() {
    assert_eq!(get_response("a\r\n\r\nb\r\n\r\nc"), pair("a", "b"));
}

#[test]
fn empty_body() {
    assert_eq!(get_response("x\r\n\r\n"), pair("x", ""));
    assert_eq!(get_response("\r\n\r\n"), pair("", ""));
}

#[test]
fn response_recomposes() {
    let text = "H: 1\r\n\r\nbody text";
    let (h, b) = get_response(text).unwrap();
    assert_eq!(format!("{}\r\n\r\n{}", h, b), text);
}
