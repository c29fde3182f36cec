use netproto::query::{hostname_too_long, query_header, record_type_code};

#[test]
fn record_types() {
    assert_eq!(record_type_code("a"), Some(1));
    assert_eq!(record_type_code("mx"), Some(15));
    assert_eq!(record_type_code("txt"), Some(16));
    assert_eq!(record_type_code("aaaa"), Some(28));
    assert_eq!(record_type_code("any"), Some(255));
    assert_eq!(record_type_code("A"), None);
    assert_eq!(record_type_code("cname"), None);
    assert_eq!(record_type_code(""), None);
}

#[test]
fn hostname_length() {
    assert!(!hostname_too_long("example.com"));
    assert!(!hostname_too_long(&"a".repeat(255)));
    assert!(hostname_too_long(&"a".repeat(256)));
    assert!(hostname_too_long(&"é".repeat(128)));
}

#[test]
fn header_of_query() {
    assert_eq!(query_header(), vec![0xAB, 0xCD, 0x01, 0x00, 0x00, 0x01, 0, 0, 0, 0, 0, 0]);
}
