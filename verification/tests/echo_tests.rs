use netproto::echo::{is_exit_command, is_exit_datagram, uppercase_datagram, uppercase_reply};

#[test]
fn reply_is_upper_case() {
    assert_eq!(uppercase_reply(b"hello world"), b"HELLO WORLD".to_vec());
    assert_eq!(uppercase_reply("straße".as_bytes()), "STRASSE".as_bytes().to_vec());
}

#[test]
fn reply_replaces_invalid_bytes() {
    assert_eq!(uppercase_reply(b"a\xffb"), "A\u{FFFD}B".as_bytes().to_vec());
}

#[test]
fn datagram_reply() {
    assert_eq!(uppercase_datagram(b"abc\0"), Some(b"ABC\0".to_vec()));
    assert_eq!(uppercase_datagram(b"a\xff"), None);
}

#[test]
fn exit_datagram() {
    assert!(is_exit_datagram(b"exit"));
    assert!(is_exit_datagram(b"exit now\0\0"));
    assert!(!is_exit_datagram(b"exi"));
    assert!(!is_exit_datagram(b"Exit"));
}

#[test]
fn exit_command() {
    assert!(is_exit_command("exit"));
    assert!(is_exit_command("  exit\n"));
    assert!(!is_exit_command("exits\n"));
    assert!(!is_exit_command("e xit"));
}

#[test]
fn exit_command_with_unicode_white_space() {
    assert!(is_exit_command("\u{3000}exit\u{85}\u{2029}"));
    assert!(is_exit_command("\t\x0Bexit\r\n"));
    assert!(!is_exit_command("\u{200B}exit"));
}
