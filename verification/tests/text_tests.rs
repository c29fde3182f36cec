use netproto::text::{decimal_string, find_in, has_prefix};

#[test]
fn decimal_of_numbers() {
    assert_eq!(decimal_string(0), "0");
    assert_eq!(decimal_string(7), "7");
    assert_eq!(decimal_string(10), "10");
    assert_eq!(decimal_string(12345), "12345");
    assert_eq!(decimal_string(u64::MAX), "18446744073709551615");
}

#[test]
fn decimal_reads_back() {
    for n in [0u64, 9, 100, 65535, 4294967296] {
        assert_eq!(decimal_string(n).parse::<u64>().unwrap(), n);
    }
}

#[test]
fn find_first_occurrence() {
    assert_eq!(find_in("a://b://c", &[':', '/', '/'], 0), Some(1));
    assert_eq!(find_in("a://b://c", &[':', '/', '/'], 2), Some(5));
    assert_eq!(find_in("abc", &['x'], 0), None);
    assert_eq!(find_in("äb/", &['/'], 0), Some(2));
}

#[test]
fn prefix_check() {
    assert!(has_prefix("https", &['h', 't', 't', 'p']));
    assert!(!has_prefix("htt", &['h', 't', 't', 'p']));
}
