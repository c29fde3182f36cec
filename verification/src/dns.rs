use vstd::prelude::*;
use crate::text::{decimal, decimal_string};

verus! {

/// Where a line of a report is written.
#[derive(Debug, Clone, Copy, PartialEq, Eq)]
pub enum Stream {
    Stdout,
    Stderr,
}

/// How the description of a message ends.
#[derive(Debug, Clone, Copy, PartialEq, Eq)]
pub enum Ending {
    /// The description ran to its end.
    Completed,
    /// The process is ended with this exit code.
    Exited(i32),
    /// The description cannot go on: it would read past the message or overflow, where the
    /// program that printed it panicked, or it would follow names without end. The public
    /// functions that describe leave such inputs out; `dns_message_fails` and
    /// `name_walk_fails` tell them apart.
    Aborted,
}

/// One line of a report: its text, without the line break that ends it.
#[derive(Debug, Clone, PartialEq, Eq)]
pub struct ReportLine {
    pub stream: Stream,
    pub text: String,
}

/// What describing a DNS message writes, line by line, and how it ends.
#[derive(Debug, Clone, PartialEq, Eq)]
pub struct DnsReport {
    pub lines: Vec<ReportLine>,
    pub ending: Ending,
}

/// A line of a report, as stream and characters.
pub type Line = (Stream, Seq<char>);

/// The lines of a report as streams and characters.
pub open spec fn lines_view(v: Seq<ReportLine>) -> Seq<Line> {
    v.map_values(|l: ReportLine| (l.stream, l.text@))
}

/// A line on standard output.
pub open spec fn out(t: Seq<char>) -> Line {
    (Stream::Stdout, t)
}

/// A line on standard error.
pub open spec fn err(t: Seq<char>) -> Line {
    (Stream::Stderr, t)
}

/// The sum of some bytes.
pub open spec fn byte_sum(p: Seq<u8>) -> nat
    decreases p.len(),
{
    if p.len() == 0 {
        0
    } else {
        byte_sum(p.drop_last()) + p.last() as nat
    }
}

/// `p` is greater than the one-byte sequence `[e]`, in the order of byte strings.
pub open spec fn above_end(p: Seq<u8>, e: u8) -> bool {
    p.len() > 0 && (p[0] > e || (p[0] == e && p.len() > 1))
}

/// `p` is at least the one-byte sequence `[e]`, in the order of byte strings.
pub open spec fn at_end(p: Seq<u8>, e: u8) -> bool {
    p.len() > 0 && p[0] >= e
}

/// What one step of following a name leads to.
pub enum NameStep {
    /// The process is ended.
    Exit,
    /// The step cannot be taken.
    Abort,
    /// The next step looks at `msg[a..b]`.
    Next(int, int),
}

/// One step of following a name that stands in `msg[a..b]`, against the end marker `e`:
/// the lines it writes and where it leads.
///
/// A step needs two bytes. When the bytes after the first two lie above `[e]`, it ends
/// the process. A compression pointer (first byte with both top bits set) leads to the
/// message up to the offset it gives. Otherwise the step skips as many bytes as the
/// bytes of `msg[a..b]` sum to, warning when what lies one byte further is above `[e]`.
pub open spec fn name_step(msg: Seq<u8>, e: u8, a: int, b: int) -> (Seq<Line>, NameStep) {
    let p = msg.subrange(a, b);
    if p.len() < 2 {
        (seq![], NameStep::Abort)
    } else if above_end(p.subrange(2, p.len() as int), e) {
        (seq![err("Endof message"@)], NameStep::Exit)
    } else if p[0] & 0xC0u8 == 0xC0u8 {
        let k = ((p[0] & 0x3Fu8) as int) * 256 + p[1] as int;
        if k > msg.len() {
            (seq![], NameStep::Abort)
        } else {
            (seq![], NameStep::Next(0, k))
        }
    } else {
        let len = byte_sum(p) as int;
        if len + 1 > p.len() {
            (seq![], NameStep::Abort)
        } else if above_end(p.subrange(len + 1, p.len() as int), e) {
            (seq![err("End of message!"@)], NameStep::Next(a + len, b))
        } else {
            (seq![], NameStep::Next(a + len, b))
        }
    }
}

/// Following a name from `msg[a..b]` for at most `fuel` steps: the lines written and how
/// it ends. A walk never gives control back: it ends the process or aborts.
pub open spec fn name_walk(msg: Seq<u8>, e: u8, a: int, b: int, fuel: nat) -> (Seq<Line>, Ending)
    decreases fuel,
{
    if fuel == 0 {
        (seq![], Ending::Aborted)
    } else {
        let (ls, st) = name_step(msg, e, a, b);
        match st {
            NameStep::Exit => (ls, Ending::Exited(256)),
            NameStep::Abort => (ls, Ending::Aborted),
            NameStep::Next(a2, b2) => {
                let (rest, end) = name_walk(msg, e, a2, b2, (fuel - 1) as nat);
                (ls + rest, end)
            },
        }
    }
}

/// Steps enough to follow a name in a message of `n` bytes: more than there are windows
/// `msg[a..b]`, so that a walk that takes them all has come back to a window it saw.
pub open spec fn walk_fuel(n: nat) -> nat {
    (n + 1) * (n + 1) + 1
}

/// The walk that describing a message makes, from the window `msg[a..b]`.
pub open spec fn follow(msg: Seq<u8>, e: u8, a: int, b: int) -> (Seq<Line>, Ending) {
    name_walk(msg, e, a, b, walk_fuel(msg.len()))
}

/// The line that shows byte `i` of the message.
pub open spec fn raw_line(i: nat, r: u8) -> Line {
    out(
        "Raw DNS message: "@ + decimal(i) + "\n "@ + decimal(r as nat) + "\n "@ + decimal(
            r as nat,
        ) + "\n "@ + decimal(r as nat) + "\n"@,
    )
}

/// The lines that show the first `k` bytes of the message.
pub open spec fn raw_lines(msg: Seq<u8>, k: nat) -> Seq<Line> {
    Seq::new(k, |i: int| raw_line(i as nat, msg[i]))
}

/// What an opcode means.
pub open spec fn opcode_meaning(op: u8) -> Seq<char> {
    if op == 0 {
        "Standard query"@
    } else if op == 1 {
        "Reverse Query"@
    } else if op == 2 {
        "Server status request"@
    } else {
        "Reserved?"@
    }
}

/// What a response code means.
pub open spec fn rcode_meaning(rcode: u8) -> Seq<char> {
    if rcode == 0 {
        "Success"@
    } else if rcode == 1 {
        "format error"@
    } else if rcode == 2 {
        "Server failure"@
    } else if rcode == 3 {
        "name error"@
    } else if rcode == 4 {
        "Not Implemented"@
    } else if rcode == 5 {
        "Refused"@
    } else {
        "error End"@
    }
}

/// A flag line: its label, its value, and the word for it when it is set.
pub open spec fn flag_line(label: Seq<char>, v: u8, word: Seq<char>) -> Line {
    out(label + decimal(v as nat) + " "@ + if v != 0 {
        word
    } else {
        ""@
    })
}

/// The big-endian 16-bit number in bytes `i` and `i + 1`.
pub open spec fn be16(msg: Seq<u8>, i: int) -> nat {
    (msg[i] as nat) * 256 + msg[i + 1] as nat
}

/// The lines that describe the flags of the header, up to the response code.
pub open spec fn flag_lines(msg: Seq<u8>) -> Seq<Line> {
    let m2 = msg[2];
    let qr = (m2 & 0x80u8) >> 7u8;
    let opcode = (m2 & 0x78u8) >> 3u8;
    let rcode = msg[3] & 0x07u8;
    seq![
        out("Transaction ID "@ + decimal(msg[0] as nat) + " "@ + decimal(msg[1] as nat)),
        out("QR = "@ + decimal(qr as nat) + " "@ + if qr != 0 {
            "response"@
        } else {
            "query"@
        }),
        out("OPCODE: "@ + decimal(opcode as nat)),
        out(opcode_meaning(opcode)),
        flag_line("AA = "@, (m2 & 0x04u8) >> 2u8, "Authoritative"@),
        flag_line("TC = "@, (m2 & 0x02u8) >> 1u8, "Message truncated"@),
        flag_line("RD = "@, m2 & 0x01u8, "recursion desired"@),
        out("RCODE: "@ + decimal(rcode as nat)),
        out(rcode_meaning(rcode)),
    ]
}

/// The line that gives the four counts of the header.
pub open spec fn counts_line(msg: Seq<u8>) -> Line {
    out(
        "QDCOUNT: "@ + decimal(be16(msg, 4)) + "\nANCOUNT: "@ + decimal(be16(msg, 6))
            + "\nNSCOUNT: "@ + decimal(be16(msg, 8)) + "\nARCOUNT: "@ + decimal(be16(msg, 10))
            + "\n"@,
    )
}

/// What follows the counts, with `e` as end marker: the first question or record is
/// looked at, when the message announces one.
pub open spec fn records_report(msg: Seq<u8>, e: u8) -> (Seq<Line>, Ending) {
    let p = msg.subrange(12, msg.len() as int);
    let answers = be16(msg, 6) + be16(msg, 8) + be16(msg, 10);
    if be16(msg, 4) != 0 {
        let warn = if at_end(p, e) {
            seq![out("End of message!!"@)]
        } else {
            seq![]
        };
        let (ls, end) = follow(msg, e, 12, msg.len() as int);
        (warn + seq![out("Query: 1"@), out("Name: "@)] + ls, end)
    } else if answers > 0xFFFF {
        (seq![], Ending::Aborted)
    } else if answers != 0 {
        if at_end(p, e) {
            (seq![out("End of message!!!!"@)], Ending::Completed)
        } else {
            let (ls, end) = follow(msg, e, 12, msg.len() as int);
            (seq![out("Answer: 1"@), out("Name_: "@)] + ls, end)
        }
    } else {
        let unread = if p =~= seq![e] {
            seq![]
        } else {
            seq![out("there is some unread data"@)]
        };
        (unread + seq![out(""@)], Ending::Completed)
    }
}

/// What describing the message `msg`, of which the first `msg_len` bytes are said to be
/// the message, writes and how it ends.
///
/// Fewer than 12 bytes end the process. Otherwise each of the `msg_len` bytes is shown
/// (the description aborts when `msg` is shorter), then the header's flags; a nonzero
/// response code ends the description there. Then come the four counts; the end marker is
/// `msg.len() + msg_len`, and the description aborts when that does not fit in a byte.
pub open spec fn dns_report(msg_len: nat, msg: Seq<u8>) -> (Seq<Line>, Ending) {
    if msg_len < 12 {
        (seq![err("Message too short to be valid"@)], Ending::Exited(256))
    } else if msg_len > msg.len() {
        (raw_lines(msg, msg.len()), Ending::Aborted)
    } else {
        let head = raw_lines(msg, msg_len) + flag_lines(msg);
        if msg[3] & 0x07u8 != 0 {
            (head, Ending::Completed)
        } else {
            let head = head.push(counts_line(msg));
            let end_len = msg.len() + msg_len;
            if end_len > 255 {
                (head, Ending::Aborted)
            } else {
                let (ls, end) = records_report(msg, end_len as u8);
                (head + ls, end)
            }
        }
    }
}

/// The sum of the bytes of a window grows with the window.
proof fn lemma_byte_sum_prefix(s: Seq<u8>, a: int, i: int, b: int)
    requires
        0 <= a <= i <= b <= s.len(),
    ensures
        byte_sum(s.subrange(a, i)) <= byte_sum(s.subrange(a, b)),
    decreases b - i,
{
    if i < b {
        lemma_byte_sum_prefix(s, a, i, b - 1);
        assert(s.subrange(a, b).drop_last() =~= s.subrange(a, b - 1));
    }
}

/// The sum of the bytes of `msg[a..b]`, or `None` when it exceeds `cap`.
fn capped_sum(msg: &[u8], a: usize, b: usize, cap: usize) -> (r: Option<usize>)
    requires
        a <= b <= msg@.len(),
    ensures
        match r {
            Some(t) => t == byte_sum(msg@.subrange(a as int, b as int)) && t <= cap,
            None => byte_sum(msg@.subrange(a as int, b as int)) > cap,
        },
{
    let mut acc: usize = 0;
    let mut i = a;
    assert(msg@.subrange(a as int, a as int).len() == 0);
    while i < b
        invariant
            a <= i <= b <= msg@.len(),
            acc == byte_sum(msg@.subrange(a as int, i as int)),
            acc <= cap,
        decreases b - i,
    {
        assert(msg@.subrange(a as int, i + 1).drop_last() =~= msg@.subrange(a as int, i as int));
        let x = msg[i] as usize;
        if x > cap - acc {
            proof {
                lemma_byte_sum_prefix(msg@, a as int, i + 1, b as int);
            }
            return None;
        }
        acc = acc + x;
        i += 1;
    }
    Some(acc)
}

/// Whether `msg[i..b]` lies above `[e]`.
fn above_end_at(msg: &[u8], i: usize, b: usize, e: u8) -> (r: bool)
    requires
        i <= b <= msg@.len(),
    ensures
        r == above_end(msg@.subrange(i as int, b as int), e),
{
    i < b && (msg[i] > e || (msg[i] == e && b - i > 1))
}

fn push_line(lines: &mut Vec<ReportLine>, stream: Stream, text: String)
    ensures
        lines_view(final(lines)@) == lines_view(old(lines)@).push((stream, text@)),
{
    lines.push(ReportLine { stream, text });
    assert(lines_view(lines@) =~= lines_view(old(lines)@).push((stream, text@)));
}

/// Follows a name to its end, failures included.
fn walk_name(msg: &[u8], e: u8, a: usize, b: usize, lines: &mut Vec<ReportLine>) -> (end:
    Ending)
    requires
        a <= b <= msg@.len(),
        msg@.len() < usize::MAX,
    ensures
        lines_view(final(lines)@) == lines_view(old(lines)@) + follow(msg@, e, a as int, b as int).0,
        end == follow(msg@, e, a as int, b as int).1,
{
    let n = msg.len();
    let ghost start = lines_view(lines@);
    let n1 = n as u128 + 1;
    assert(n1 * n1 <= 0xFFFF_FFFF_FFFF_FFFFu128 * 0xFFFF_FFFF_FFFF_FFFFu128) by (nonlinear_arith)
        requires
            n1 <= 0xFFFF_FFFF_FFFF_FFFFu128,
    ;
    let mut fuel: u128 = n1 * n1 + 1;
    let mut x = a;
    let mut y = b;
    assert(lines_view(lines@) + name_walk(msg@, e, x as int, y as int, fuel as nat).0 =~= start
        + follow(msg@, e, a as int, b as int).0);
    loop
        invariant
            x <= y <= n,
            n == msg@.len(),
            start == lines_view(old(lines)@),
            lines_view(lines@) + name_walk(msg@, e, x as int, y as int, fuel as nat).0 == start
                + follow(msg@, e, a as int, b as int).0,
            name_walk(msg@, e, x as int, y as int, fuel as nat).1 == follow(msg@, e, a as int, b as int).1,
        decreases fuel,
    {
        let ghost before = lines_view(lines@);
        let ghost p = msg@.subrange(x as int, y as int);
        if fuel == 0 {
            assert(name_walk(msg@, e, x as int, y as int, fuel as nat) == (Seq::<Line>::empty(), Ending::Aborted));
            assert(before =~= before + Seq::<Line>::empty());
            return Ending::Aborted;
        }
        if y - x < 2 {
            assert(name_step(msg@, e, x as int, y as int) == (Seq::<Line>::empty(), NameStep::Abort));
            assert(before =~= before + Seq::<Line>::empty());
            return Ending::Aborted;
        }
        assert(p.subrange(2, p.len() as int) =~= msg@.subrange(x + 2, y as int));
        if above_end_at(msg, x + 2, y, e) {
            push_line(lines, Stream::Stderr, String::from_str("Endof message"));
            return Ending::Exited(256);
        }
        let ghost rest_before = name_walk(msg@, e, x as int, y as int, fuel as nat);
        if msg[x] & 0xC0 == 0xC0 {
            let k = ((msg[x] & 0x3F) as usize) * 256 + (msg[x + 1] as usize);
            if k > n {
                assert(before =~= before + Seq::<Line>::empty());
                return Ending::Aborted;
            }
            x = 0;
            y = k;
            fuel = fuel - 1;
            assert(rest_before.0 =~= Seq::<Line>::empty() + name_walk(msg@, e, x as int, y as int, fuel as nat).0);
        } else {
            let len = match capped_sum(msg, x, y, y - x - 1) {
                Some(len) => len,
                None => {
                    assert(before =~= before + Seq::<Line>::empty());
                    return Ending::Aborted;
                },
            };
            assert(p.subrange(len + 1, p.len() as int) =~= msg@.subrange(x + len + 1, y as int));
            if above_end_at(msg, x + len + 1, y, e) {
                push_line(lines, Stream::Stderr, String::from_str("End of message!"));
                x = x + len;
                fuel = fuel - 1;
                assert(lines_view(lines@) + name_walk(msg@, e, x as int, y as int, fuel as nat).0 =~= before + rest_before.0);
            } else {
                x = x + len;
                fuel = fuel - 1;
                assert(rest_before.0 =~= Seq::<Line>::empty() + name_walk(msg@, e, x as int, y as int, fuel as nat).0);
            }
        }
    }
}

fn raw_line_text(i: usize, r: u8) -> (t: String)
    ensures
        out(t@) == raw_line(i as nat, r),
{
    let d = decimal_string(r as u64);
    let mut t = String::from_str("Raw DNS message: ");
    t.append(decimal_string(i as u64).as_str());
    t.append("\n ");
    t.append(d.as_str());
    t.append("\n ");
    t.append(d.as_str());
    t.append("\n ");
    t.append(d.as_str());
    t.append("\n");
    t
}

fn flag_text(label: &str, v: u8, word: &str) -> (t: String)
    ensures
        out(t@) == flag_line(label@, v, word@),
{
    let mut t = String::from_str(label);
    t.append(decimal_string(v as u64).as_str());
    t.append(" ");
    if v != 0 {
        t.append(word);
    } else {
        t.append("");
    }
    t
}

fn opcode_text(op: u8) -> (t: String)
    ensures
        t@ == opcode_meaning(op),
{
    if op == 0 {
        String::from_str("Standard query")
    } else if op == 1 {
        String::from_str("Reverse Query")
    } else if op == 2 {
        String::from_str("Server status request")
    } else {
        String::from_str("Reserved?")
    }
}

fn rcode_text(rcode: u8) -> (t: String)
    ensures
        t@ == rcode_meaning(rcode),
{
    if rcode == 0 {
        String::from_str("Success")
    } else if rcode == 1 {
        String::from_str("format error")
    } else if rcode == 2 {
        String::from_str("Server failure")
    } else if rcode == 3 {
        String::from_str("name error")
    } else if rcode == 4 {
        String::from_str("Not Implemented")
    } else if rcode == 5 {
        String::from_str("Refused")
    } else {
        String::from_str("error End")
    }
}

fn be16_at(msg: &[u8], i: usize) -> (v: u64)
    requires
        i + 1 < msg@.len(),
    ensures
        v == be16(msg@, i as int),
{
    (msg[i] as u64) * 256 + msg[i + 1] as u64
}

fn push_flag_lines(msg: &[u8], lines: &mut Vec<ReportLine>)
    requires
        msg@.len() >= 12,
    ensures
        lines_view(final(lines)@) == lines_view(old(lines)@) + flag_lines(msg@),
{
    let ghost start = lines_view(lines@);
    let m2 = msg[2];
    let mut t = String::from_str("Transaction ID ");
    t.append(decimal_string(msg[0] as u64).as_str());
    t.append(" ");
    t.append(decimal_string(msg[1] as u64).as_str());
    push_line(lines, Stream::Stdout, t);
    let qr = (m2 & 0x80) >> 7;
    let mut t = String::from_str("QR = ");
    t.append(decimal_string(qr as u64).as_str());
    t.append(" ");
    if qr != 0 {
        t.append("response");
    } else {
        t.append("query");
    }
    push_line(lines, Stream::Stdout, t);
    let opcode = (m2 & 0x78) >> 3;
    let mut t = String::from_str("OPCODE: ");
    t.append(decimal_string(opcode as u64).as_str());
    push_line(lines, Stream::Stdout, t);
    push_line(lines, Stream::Stdout, opcode_text(opcode));
    push_line(lines, Stream::Stdout, flag_text("AA = ", (m2 & 0x04) >> 2, "Authoritative"));
    push_line(lines, Stream::Stdout, flag_text("TC = ", (m2 & 0x02) >> 1, "Message truncated"));
    push_line(lines, Stream::Stdout, flag_text("RD = ", m2 & 0x01, "recursion desired"));
    let rcode = msg[3] & 0x07;
    let mut t = String::from_str("RCODE: ");
    t.append(decimal_string(rcode as u64).as_str());
    push_line(lines, Stream::Stdout, t);
    push_line(lines, Stream::Stdout, rcode_text(rcode));
    assert(lines_view(lines@) =~= start + flag_lines(msg@));
}

fn counts_text(msg: &[u8]) -> (t: String)
    requires
        msg@.len() >= 12,
    ensures
        out(t@) == counts_line(msg@),
{
    let mut t = String::from_str("QDCOUNT: ");
    t.append(decimal_string(be16_at(msg, 4)).as_str());
    t.append("\nANCOUNT: ");
    t.append(decimal_string(be16_at(msg, 6)).as_str());
    t.append("\nNSCOUNT: ");
    t.append(decimal_string(be16_at(msg, 8)).as_str());
    t.append("\nARCOUNT: ");
    t.append(decimal_string(be16_at(msg, 10)).as_str());
    t.append("\n");
    t
}

fn push_records(msg: &[u8], e: u8, lines: &mut Vec<ReportLine>) -> (end: Ending)
    requires
        12 <= msg@.len() < usize::MAX,
    ensures
        lines_view(final(lines)@) == lines_view(old(lines)@) + records_report(msg@, e).0,
        end == records_report(msg@, e).1,
{
    let ghost start = lines_view(lines@);
    let ghost p = msg@.subrange(12, msg@.len() as int);
    let n = msg.len();
    let at_end_now = n > 12 && msg[12] >= e;
    assert(at_end_now == at_end(p, e));
    let qd = be16_at(msg, 4);
    let answers = be16_at(msg, 6) + be16_at(msg, 8) + be16_at(msg, 10);
    if qd != 0 {
        if at_end_now {
            push_line(lines, Stream::Stdout, String::from_str("End of message!!"));
        }
        push_line(lines, Stream::Stdout, String::from_str("Query: 1"));
        push_line(lines, Stream::Stdout, String::from_str("Name: "));
        let end = walk_name(msg, e, 12, n, lines);
        assert(lines_view(lines@) =~= start + records_report(msg@, e).0);
        end
    } else if answers > 0xFFFF {
        assert(lines_view(lines@) =~= start + records_report(msg@, e).0);
        Ending::Aborted
    } else if answers != 0 {
        if at_end_now {
            push_line(lines, Stream::Stdout, String::from_str("End of message!!!!"));
            assert(lines_view(lines@) =~= start + records_report(msg@, e).0);
            Ending::Completed
        } else {
            push_line(lines, Stream::Stdout, String::from_str("Answer: 1"));
            push_line(lines, Stream::Stdout, String::from_str("Name_: "));
            let end = walk_name(msg, e, 12, n, lines);
            assert(lines_view(lines@) =~= start + records_report(msg@, e).0);
            end
        }
    } else {
        let just_end = n == 13 && msg[12] == e;
        assert(just_end == (p =~= seq![e]));
        if !just_end {
            push_line(lines, Stream::Stdout, String::from_str("there is some unread data"));
        }
        push_line(lines, Stream::Stdout, String::from_str(""));
        assert(lines_view(lines@) =~= start + records_report(msg@, e).0);
        Ending::Completed
    }
}

/// Describes a message to its end, failures included.
fn report_dns_message(msg_len: usize, msg: &[u8]) -> (r: DnsReport)
    ensures
        (lines_view(r.lines@), r.ending) == dns_report(msg_len as nat, msg@),
{
    let mut lines: Vec<ReportLine> = Vec::new();
    assert(lines_view(lines@) =~= Seq::<Line>::empty());
    if msg_len < 12 {
        push_line(&mut lines, Stream::Stderr, String::from_str("Message too short to be valid"));
        assert(lines_view(lines@) =~= seq![err("Message too short to be valid"@)]);
        return DnsReport { lines, ending: Ending::Exited(256) };
    }
    let mut i: usize = 0;
    while i < msg_len
        invariant
            12 <= msg_len,
            i <= msg_len,
            i <= msg@.len(),
            lines_view(lines@) == raw_lines(msg@, i as nat),
        decreases msg_len - i,
    {
        if i >= msg.len() {
            return DnsReport { lines, ending: Ending::Aborted };
        }
        push_line(&mut lines, Stream::Stdout, raw_line_text(i, msg[i]));
        assert(raw_lines(msg@, i as nat).push(raw_line(i as nat, msg@[i as int])) =~= raw_lines(
            msg@,
            (i + 1) as nat,
        ));
        i += 1;
    }
    push_flag_lines(msg, &mut lines);
    if msg[3] & 0x07 != 0 {
        return DnsReport { lines, ending: Ending::Completed };
    }
    push_line(&mut lines, Stream::Stdout, counts_text(msg));
    if msg.len() > 255 || msg.len() + msg_len > 255 {
        return DnsReport { lines, ending: Ending::Aborted };
    }
    let e = (msg.len() + msg_len) as u8;
    let end = push_records(msg, e, &mut lines);
    DnsReport { lines, ending: end }
}

/// Whether describing the message `msg`, of which the first `msg_len` bytes are said to be
/// the message, fails: it would read past the message or overflow, or follow a name without
/// end.
pub fn dns_message_fails(msg_len: usize, msg: &[u8]) -> (r: bool)
    ensures
        r == (dns_report(msg_len as nat, msg@).1 == Ending::Aborted),
{
    let report = report_dns_message(msg_len, msg);
    match report.ending {
        Ending::Aborted => true,
        _ => false,
    }
}

/// Describes the DNS message `msg`, of which the first `msg_len` bytes are said to be the
/// message: the lines that describe it, on standard output or standard error, and how the
/// description ends. The description must not fail (see `dns_message_fails`).
pub fn describe_dns_message(msg_len: usize, msg: &[u8]) -> (r: DnsReport)
    requires
        dns_report(msg_len as nat, msg@).1 != Ending::Aborted,
    ensures
        (lines_view(r.lines@), r.ending) == dns_report(msg_len as nat, msg@),
{
    report_dns_message(msg_len, msg)
}

/// Whether following the name that stands in `msg[a..b]`, with `e` as end marker, fails:
/// it would read past the message or follow names without end.
pub fn name_walk_fails(msg: &[u8], e: u8, a: usize, b: usize) -> (r: bool)
    requires
        a <= b <= msg@.len(),
        msg@.len() < usize::MAX,
    ensures
        r == (follow(msg@, e, a as int, b as int).1 == Ending::Aborted),
{
    let mut lines: Vec<ReportLine> = Vec::new();
    match walk_name(msg, e, a, b, &mut lines) {
        Ending::Aborted => true,
        _ => false,
    }
}

/// Follows the name that stands in `msg[a..b]`, with `e` as end marker, adding the lines
/// that the walk writes to `lines`. The walk must not fail (see `name_walk_fails`); it then
/// ends the process.
pub fn follow_name(msg: &[u8], e: u8, a: usize, b: usize, lines: &mut Vec<ReportLine>) -> (end:
    Ending)
    requires
        a <= b <= msg@.len(),
        msg@.len() < usize::MAX,
        follow(msg@, e, a as int, b as int).1 != Ending::Aborted,
    ensures
        lines_view(final(lines)@) == lines_view(old(lines)@) + follow(msg@, e, a as int, b as int).0,
        end == follow(msg@, e, a as int, b as int).1,
        end == Ending::Exited(256),
{
    proof {
        crate::dns_walk::lemma_walk_ends_in_exit(msg@, e, a as int, b as int, walk_fuel(msg@.len()));
    }
    walk_name(msg, e, a, b, lines)
}

} // verus!
