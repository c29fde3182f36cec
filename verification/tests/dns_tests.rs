use netproto::dns::{
    describe_dns_message, dns_message_fails, follow_name, name_walk_fails, DnsReport, Ending, ReportLine,
    Stream,
};

fn texts(r: &DnsReport) -> Vec<(Stream, String)> {
    r.lines.iter().map(|l| (l.stream, l.text.clone())).collect()
}

fn raw(i: usize, b: u8) -> (Stream, String) {
    (Stream::Stdout, format!("Raw DNS message: {}\n {}\n {}\n {}\n", i, b, b, b))
}

fn out(s: &str) -> (Stream, String) {
    (Stream::Stdout, s.to_string())
}

#[test]
fn too_short_message_exits() {
    let r = describe_dns_message(5, &[0; 5]);
    assert_eq!(texts(&r), vec![(Stream::Stderr, "Message too short to be valid".to_string())]);
    assert_eq!(r.ending, Ending::Exited(256));
}

#[test]
fn error_response_stops_after_flags() {
    let msg = [0x12, 0x34, 0x81, 0x83, 0, 1, 0, 0, 0, 0, 0, 0];
    let r = describe_dns_message(12, &msg);
    let mut expected: Vec<(Stream, String)> = msg.iter().enumerate().map(|(i, b)| raw(i, *b)).collect();
    for s in [
        "Transaction ID 18 52",
        "QR = 1 response",
        "OPCODE: 0",
        "Standard query",
        "AA = 0 ",
        "TC = 0 ",
        "RD = 1 recursion desired",
        "RCODE: 3",
        "name error",
    ] {
        expected.push(out(s));
    }
    assert_eq!(texts(&r), expected);
    assert_eq!(r.ending, Ending::Completed);
}

#[test]
fn flags_and_opcodes() {
    let msg = [0, 0, 0x7F, 0x02, 0, 0, 0, 0, 0, 0, 0, 0];
    let r = describe_dns_message(12, &msg);
    let t = texts(&r);
    assert_eq!(t[12], out("Transaction ID 0 0"));
    assert_eq!(t[13], out("QR = 0 query"));
    assert_eq!(t[14], out("OPCODE: 15"));
    assert_eq!(t[15], out("Reserved?"));
    assert_eq!(t[16], out("AA = 1 Authoritative"));
    assert_eq!(t[17], out("TC = 1 Message truncated"));
    assert_eq!(t[18], out("RD = 1 recursion desired"));
    assert_eq!(t[19], out("RCODE: 2"));
    assert_eq!(t[20], out("Server failure"));
    assert_eq!(t.len(), 21);
    assert_eq!(r.ending, Ending::Completed);
}

#[test]
fn reverse_query_and_unknown_rcode() {
    let msg = [0, 0, 0x08, 0x07, 0, 0, 0, 0, 0, 0, 0, 0];
    let t = texts(&describe_dns_message(12, &msg));
    assert_eq!(t[14], out("OPCODE: 1"));
    assert_eq!(t[15], out("Reverse Query"));
    assert_eq!(t[19], out("RCODE: 7"));
    assert_eq!(t[20], out("error End"));
}

#[test]
fn short_buffer_fails() {
    assert!(dns_message_fails(20, &[1u8; 12]));
    assert!(!dns_message_fails(12, &[1u8; 12]));
}

#[test]
fn empty_message_has_unread_data() {
    let msg = [0xAB, 0xCD, 0x01, 0x00, 0, 0, 0, 0, 0, 0, 0, 0];
    let r = describe_dns_message(12, &msg);
    let t = texts(&r);
    assert_eq!(t[21], out("QDCOUNT: 0\nANCOUNT: 0\nNSCOUNT: 0\nARCOUNT: 0\n"));
    assert_eq!(t[22], out("there is some unread data"));
    assert_eq!(t[23], out(""));
    assert_eq!(t.len(), 24);
    assert_eq!(r.ending, Ending::Completed);
}

#[test]
fn end_marker_alone_is_no_unread_data() {
    // 13 bytes, 12 of them described: the end marker is 25, and the byte after the
    // header is 25.
    let msg = [0, 0, 0, 0, 0, 0, 0, 0, 0, 0, 0, 0, 25];
    let r = describe_dns_message(12, &msg);
    let t = texts(&r);
    assert_eq!(t[22], out(""));
    assert_eq!(t.len(), 23);
    assert_eq!(r.ending, Ending::Completed);
}

#[test]
fn large_message_fails_before_records() {
    let mut msg = vec![0u8; 200];
    msg[5] = 1;
    assert!(dns_message_fails(100, &msg));
    // With a nonzero response code the description stops before the end marker is made.
    msg[3] = 1;
    assert!(!dns_message_fails(100, &msg));
    let r = describe_dns_message(100, &msg);
    assert_eq!(r.lines.len(), 109);
    assert_eq!(r.ending, Ending::Completed);
}

#[test]
fn question_name_past_end_exits() {
    // 15 bytes, 12 described: the end marker is 27; the name's third byte, 200, lies above it.
    let msg = [0, 0, 0, 0, 0, 1, 0, 0, 0, 0, 0, 0, 5, 0, 200];
    let r = describe_dns_message(12, &msg);
    let t = texts(&r);
    assert_eq!(t[22], out("Query: 1"));
    assert_eq!(t[23], out("Name: "));
    assert_eq!(t[24], (Stream::Stderr, "Endof message".to_string()));
    assert_eq!(t.len(), 25);
    assert_eq!(r.ending, Ending::Exited(256));
}

#[test]
fn question_name_running_out_fails() {
    assert!(dns_message_fails(14, &[0, 0, 0, 0, 0, 1, 0, 0, 0, 0, 0, 0, 1, 0]));
}

#[test]
fn looping_pointer_fails() {
    // The name points at offset 12, i.e. at the header, whose first bytes point there again.
    let msg = [0xC0, 0x0C, 0x01, 0x00, 0, 1, 0, 0, 0, 0, 0, 0, 0xC0, 0x0C];
    assert!(dns_message_fails(14, &msg));
    assert!(name_walk_fails(&msg, 28, 12, 14));
}

#[test]
fn answer_at_end_marker_completes() {
    // 13 bytes, 12 described: the end marker is 25; the byte after the header is 30.
    let msg = [0, 0, 0, 0, 0, 0, 0, 1, 0, 0, 0, 0, 30];
    let r = describe_dns_message(12, &msg);
    let t = texts(&r);
    assert_eq!(t[22], out("End of message!!!!"));
    assert_eq!(t.len(), 23);
    assert_eq!(r.ending, Ending::Completed);
}

#[test]
fn answer_name_with_too_large_labels_fails() {
    assert!(dns_message_fails(12, &[0, 0, 0, 0, 0, 0, 0, 0, 0, 1, 0, 0, 2, 0, 9]));
}

#[test]
fn answer_name_is_followed() {
    // 15 bytes, 12 described: end marker 27; the name [1, 0, 200] ends the process.
    let msg = [0, 0, 0, 0, 0, 0, 0, 0, 0, 1, 0, 0, 1, 0, 200];
    assert!(!dns_message_fails(12, &msg));
    let r = describe_dns_message(12, &msg);
    let t = texts(&r);
    assert_eq!(t[22], out("Answer: 1"));
    assert_eq!(t[23], out("Name_: "));
    assert_eq!(t[24], (Stream::Stderr, "Endof message".to_string()));
    assert_eq!(t.len(), 25);
    assert_eq!(r.ending, Ending::Exited(256));
}

#[test]
fn too_many_records_fail() {
    assert!(dns_message_fails(12, &[0, 0, 0, 0, 0, 0, 0xFF, 0xFF, 0, 1, 0, 0]));
}

#[test]
fn walk_with_too_large_labels_fails() {
    assert!(name_walk_fails(&[1, 9, 9], 50, 0, 3));
    assert!(name_walk_fails(&[3, 119, 119, 119, 0], 255, 0, 5));
    assert!(name_walk_fails(&[7], 50, 0, 1));
}

#[test]
fn walk_exits_past_end_marker() {
    let mut lines: Vec<ReportLine> = Vec::new();
    assert_eq!(follow_name(&[1, 0, 7, 0], 5, 0, 4, &mut lines), Ending::Exited(256));
    assert_eq!(lines, vec![ReportLine { stream: Stream::Stderr, text: "Endof message".to_string() }]);
    // Equal to the marker but longer is above it too.
    let mut lines: Vec<ReportLine> = Vec::new();
    assert_eq!(follow_name(&[1, 0, 9, 0], 9, 0, 4, &mut lines), Ending::Exited(256));
}

#[test]
fn walk_that_stays_in_place_fails() {
    // [0, 0, 0] with end 0: the bytes sum to 0, so each step looks at the same window.
    assert!(name_walk_fails(&[0, 0, 0], 0, 0, 3));
}

#[test]
fn walk_warns_and_goes_on() {
    // With end marker 1: [0, 0, 1, 1, 1, 1] after the first two bytes is not above [1]; the
    // bytes sum to 4, and what follows byte 5, [1, 1, 1], is above [1]: a warning. The next
    // window [1, 1, 1, 1] has [1, 1] after its first two bytes, above [1]: the walk exits.
    let msg = [0, 0, 0, 0, 1, 1, 1, 1];
    assert!(!name_walk_fails(&msg, 1, 0, 8));
    let mut lines: Vec<ReportLine> = Vec::new();
    assert_eq!(follow_name(&msg, 1, 0, 8, &mut lines), Ending::Exited(256));
    assert_eq!(
        lines,
        vec![
            ReportLine { stream: Stream::Stderr, text: "End of message!".to_string() },
            ReportLine { stream: Stream::Stderr, text: "Endof message".to_string() },
        ]
    );
}

#[test]
fn walk_follows_pointer() {
    // Window [0xC0, 2]: points to the first two bytes, which point there again.
    assert!(name_walk_fails(&[0xC0, 2, 0xC0, 2], 100, 2, 4));
    // A pointer past the message fails.
    assert!(name_walk_fails(&[0xC0, 9], 100, 0, 2));
    // A pointer to a window that ends the process.
    let mut lines: Vec<ReportLine> = Vec::new();
    assert!(!name_walk_fails(&[0, 0, 200, 0xC0, 3], 10, 3, 5));
    assert_eq!(follow_name(&[0, 0, 200, 0xC0, 3], 10, 3, 5, &mut lines), Ending::Exited(256));
}
