use vstd::prelude::*;
use crate::dns::{
    Ending,
    dns_report,
    flag_lines,
    out,
    raw_lines,
    rcode_meaning,
};
use crate::text::decimal;

verus! {

/// The description of a message whose declared length fits in it begins with one line
/// per declared byte and then the nine lines of the flags.
proof fn lemma_head_lines(msg_len: nat, msg: Seq<u8>)
    requires
        12 <= msg_len <= msg.len(),
    ensures
        dns_report(msg_len, msg).0.len() >= msg_len + 9,
        forall|i: int|
            0 <= i < 9 ==> #[trigger] dns_report(msg_len, msg).0[msg_len as int + i] == flag_lines(msg)[i],
{
    let head = raw_lines(msg, msg_len) + flag_lines(msg);
    assert(raw_lines(msg, msg_len).len() == msg_len);
    assert(head.len() == msg_len + 9);
    let lines = dns_report(msg_len, msg).0;
    assert(forall|i: int| 0 <= i < head.len() ==> lines[i] == #[trigger] head[i]);
}

/// The response code is the low three bits of the fourth header byte. Its line gives it in
/// decimal, and the next line says what it means: `Success` for 0. A nonzero response
/// code ends the description right after its meaning.
pub proof fn lemma_response_code_lines(msg_len: nat, msg: Seq<u8>)
    requires
        12 <= msg_len <= msg.len(),
    ensures
        dns_report(msg_len, msg).0.len() >= msg_len + 9,
        dns_report(msg_len, msg).0[msg_len as int + 7] == out("RCODE: "@ + decimal((msg[3] & 7u8) as nat)),
        msg[3] & 7u8 == 0 ==> dns_report(msg_len, msg).0[msg_len as int + 8] == out("Success"@),
        msg[3] & 7u8 != 0 ==> {
            &&& dns_report(msg_len, msg).0.len() == msg_len + 9
            &&& dns_report(msg_len, msg).1 == Ending::Completed
            &&& dns_report(msg_len, msg).0[msg_len as int + 8] != out("Success"@)
        },
{
    lemma_head_lines(msg_len, msg);
    assert(dns_report(msg_len, msg).0[msg_len as int + 7] == flag_lines(msg)[7]);
    assert(dns_report(msg_len, msg).0[msg_len as int + 8] == flag_lines(msg)[8]);
    lemma_response_code_meanings();
    if msg[3] & 7u8 != 0 {
        let b: u8 = msg[3];
        assert(b & 7u8 < 8) by (bit_vector);
        assert(rcode_meaning(msg[3] & 7u8) != rcode_meaning(0));
    }
}

/// Response codes 0 to 5 each have a meaning of their own, none of them the catch-all
/// `error End`, which codes 6 and 7 share; code 0 means `Success`.
pub proof fn lemma_response_code_meanings()
    ensures
        rcode_meaning(0) == "Success"@,
        forall|c: u8, d: u8|
            c < 6 && d < 6 && c != d ==> #[trigger] rcode_meaning(c) != #[trigger] rcode_meaning(d),
        forall|c: u8| c < 6 ==> #[trigger] rcode_meaning(c) != "error End"@,
        forall|c: u8| 6 <= c < 8 ==> #[trigger] rcode_meaning(c) == "error End"@,
{
    reveal_strlit("Success");
    reveal_strlit("format error");
    reveal_strlit("Server failure");
    reveal_strlit("name error");
    reveal_strlit("Not Implemented");
    reveal_strlit("Refused");
    reveal_strlit("error End");
    assert("Success"@[0] != "Refused"@[0]);
    assert forall|c: u8, d: u8| c < 6 && d < 6 && c != d implies #[trigger] rcode_meaning(c)
        != #[trigger] rcode_meaning(d) by {
        if c == 0 && d == 5 || c == 5 && d == 0 {
            assert(rcode_meaning(c)[0] != rcode_meaning(d)[0]);
        } else {
            assert(rcode_meaning(c).len() != rcode_meaning(d).len());
        }
    }
    assert forall|c: u8| c < 6 implies #[trigger] rcode_meaning(c) != "error End"@ by {
        assert(rcode_meaning(c).len() != "error End"@.len());
    }
}

/// The big-endian number in two header bytes, high byte first.
pub open spec fn big_endian(hi: u8, lo: u8) -> nat {
    (hi as nat) * 256 + lo as nat
}

/// After a zero response code comes the line of the four counts of the header: each the
/// big-endian 16-bit number in its two bytes (bytes 4 and 5, 6 and 7, 8 and 9, 10 and 11),
/// in decimal. The question count decides whether a question follows; without questions,
/// record counts that sum past 65535 stop the description before anything more is written.
pub proof fn lemma_counts_are_big_endian(msg_len: nat, msg: Seq<u8>)
    requires
        12 <= msg_len <= msg.len(),
        msg[3] & 7u8 == 0,
    ensures
        dns_report(msg_len, msg).0.len() >= msg_len + 10,
        dns_report(msg_len, msg).0[msg_len as int + 9] == out(
            "QDCOUNT: "@ + decimal(big_endian(msg[4], msg[5])) + "\nANCOUNT: "@ + decimal(
                big_endian(msg[6], msg[7]),
            ) + "\nNSCOUNT: "@ + decimal(big_endian(msg[8], msg[9])) + "\nARCOUNT: "@ + decimal(
                big_endian(msg[10], msg[11]),
            ) + "\n"@,
        ),
        msg.len() + msg_len <= 255 && big_endian(msg[4], msg[5]) != 0 ==> {
            ||| dns_report(msg_len, msg).0[msg_len as int + 10] == out("Query: 1"@)
            ||| dns_report(msg_len, msg).0[msg_len as int + 11] == out("Query: 1"@)
        },
        msg.len() + msg_len <= 255 && big_endian(msg[4], msg[5]) == 0 && big_endian(msg[6], msg[7])
            + big_endian(msg[8], msg[9]) + big_endian(msg[10], msg[11]) == 0 ==> dns_report(
            msg_len,
            msg,
        ).1 == Ending::Completed,
        msg.len() + msg_len <= 255 && big_endian(msg[4], msg[5]) == 0 ==> if big_endian(
            msg[6],
            msg[7],
        ) + big_endian(msg[8], msg[9]) + big_endian(msg[10], msg[11]) > 0xFFFF {
            &&& dns_report(msg_len, msg).1 == Ending::Aborted
            &&& dns_report(msg_len, msg).0.len() == msg_len + 10
        } else {
            dns_report(msg_len, msg).0.len() > msg_len + 10
        },
{
    let head = raw_lines(msg, msg_len) + flag_lines(msg);
    assert(raw_lines(msg, msg_len).len() == msg_len);
    let head2 = head.push(crate::dns::counts_line(msg));
    let lines = dns_report(msg_len, msg).0;
    assert(forall|i: int| 0 <= i < head2.len() ==> lines[i] == #[trigger] head2[i]);
    assert(lines[msg_len as int + 9] == head2[msg_len as int + 9]);
    if msg.len() + msg_len <= 255 {
        let e = (msg.len() + msg_len) as u8;
        let (ls, end) = crate::dns::records_report(msg, e);
        assert(lines == head2 + ls);
        if big_endian(msg[4], msg[5]) != 0 {
            assert(lines[msg_len as int + 10] == ls[0]);
            assert(lines[msg_len as int + 11] == ls[1]);
        }
    }
}

} // verus!
