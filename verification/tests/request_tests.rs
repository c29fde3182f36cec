use netproto::request::{Method, Request};
use std::collections::HashMap;

#[test]
fn new_request_is_an_empty_get() {
    let r = Request::new();
    assert!(matches!(r.get_method(), Method::GET));
    assert!(r.get_headers().is_empty());
    assert_eq!(r.get_query_strings(), "");
    assert!(r.get_range().is_none());
    assert!(r.get_body().is_none());
    assert_eq!(r.get_content_length(), 0);
}

#[test]
fn set_method_is_read_back() {
    let r = Request::new().set_method(Method::DELETE);
    assert!(matches!(r.get_method(), Method::DELETE));
    assert!(r.get_range().is_none());
}

#[test]
fn set_headers_is_read_back() {
    let mut h = HashMap::new();
    h.insert("Accept".to_string(), "*/*".to_string());
    let r = Request::new().set_headers(h.clone());
    assert_eq!(r.get_headers(), &h);
    assert!(matches!(r.get_method(), Method::GET));
}

#[test]
fn set_range_is_read_back() {
    let r = Request::new().set_range(3..17);
    assert_eq!(r.get_range(), &Some(3..17));
    assert_eq!(r.get_content_length(), 0);
}

#[test]
fn setters_commute() {
    let a = Request::new().set_method(Method::PUT).set_range(1..2);
    let b = Request::new().set_range(1..2).set_method(Method::PUT);
    assert!(matches!(a.get_method(), Method::PUT));
    assert!(matches!(b.get_method(), Method::PUT));
    assert_eq!(a.get_range(), b.get_range());
}

#[test]
fn method_names() {
    assert_eq!(Method::GET.to_string(), "GET");
    assert_eq!(Method::POST.to_string(), "POST");
    assert_eq!(Method::PUT.to_string(), "PUT");
    assert_eq!(Method::DELETE.to_string(), "DELETE");
}

#[test]
fn header_pairs_list_every_header_once() {
    let mut h = HashMap::new();
    h.insert("A".to_string(), "1".to_string());
    h.insert("B".to_string(), "2".to_string());
    let r = Request::new().set_headers(h);
    let mut pairs = r.header_pairs();
    pairs.sort();
    assert_eq!(
        pairs,
        vec![("A".to_string(), "1".to_string()), ("B".to_string(), "2".to_string())]
    );
}

#[test]
fn header_pairs_of_new_request_are_empty() {
    assert!(Request::new().header_pairs().is_empty());
}

#[test]
fn clone_keeps_every_part() {
    let mut h = HashMap::new();
    h.insert("A".to_string(), "1".to_string());
    let r = Request::new().set_method(Method::POST).set_range(5..9).set_headers(h.clone());
    let c = r.clone();
    assert!(matches!(c.get_method(), Method::POST));
    assert_eq!(c.get_range(), &Some(5..9));
    assert_eq!(c.get_headers(), &h);
    assert_eq!(c.get_query_strings(), "");
    assert!(c.get_body().is_none());
}

#[test]
fn query_string_and_body_never_change() {
    let r = Request::new()
        .set_range(1..3)
        .clone()
        .set_method(Method::PUT)
        .set_headers(HashMap::new())
        .clone();
    assert_eq!(r.get_query_strings(), "");
    assert!(r.get_body().is_none());
    assert_eq!(r.get_content_length(), 0);
}

#[test]
fn headers_set_to_empty_map_give_no_pairs() {
    assert!(Request::new().set_headers(HashMap::new()).header_pairs().is_empty());
}
