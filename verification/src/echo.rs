use vstd::prelude::*;
use vstd::slice::slice_to_vec;
use vstd::utf8::{decode_utf8, encode_utf8, valid_utf8};
use crate::text::has_prefix;

verus! {

/// The text that `String::from_utf8_lossy` makes of some bytes.
pub uninterp spec fn lossy_text(bytes: Seq<u8>) -> Seq<char>;

/// The text that `str::to_uppercase` makes of a text.
pub uninterp spec fn uppercase(s: Seq<char>) -> Seq<char>;

/// A character with the Unicode property White_Space, the white space that `str::trim`
/// takes off.
pub open spec fn is_white_space(c: char) -> bool {
    let u = c as u32;
    ||| 0x09 <= u <= 0x0D
    ||| u == 0x20
    ||| u == 0x85
    ||| u == 0xA0
    ||| u == 0x1680
    ||| 0x2000 <= u <= 0x200A
    ||| u == 0x2028
    ||| u == 0x2029
    ||| u == 0x202F
    ||| u == 0x205F
    ||| u == 0x3000
}

/// A text without its leading white space.
pub open spec fn trim_start(s: Seq<char>) -> Seq<char>
    decreases s.len(),
{
    if s.len() > 0 && is_white_space(s[0]) {
        trim_start(s.drop_first())
    } else {
        s
    }
}

/// A text without its trailing white space.
pub open spec fn trim_end(s: Seq<char>) -> Seq<char>
    decreases s.len(),
{
    if s.len() > 0 && is_white_space(s.last()) {
        trim_end(s.drop_last())
    } else {
        s
    }
}

/// A text without its leading and trailing white space.
pub open spec fn trimmed(s: Seq<char>) -> Seq<char> {
    trim_end(trim_start(s))
}

/// Decodes bytes as UTF-8 with `String::from_utf8_lossy`, which puts U+FFFD in place of each
/// sequence that is not UTF-8. The result is named `lossy_text`; of valid UTF-8 it is the
/// decoded text, as the documentation of `from_utf8_lossy` says. What it is of other bytes
/// is not stated.
#[verifier::external_body]
fn decode_lossy(bytes: &[u8]) -> (s: String)
    ensures
        s@ == lossy_text(bytes@),
        valid_utf8(bytes@) ==> s@ == decode_utf8(bytes@),
{
    String::from_utf8_lossy(bytes).into_owned()
}

/// Maps a text to upper case with `str::to_uppercase`, after the Unicode case tables.
/// The result is named `uppercase`; no more of it is stated.
#[verifier::external_body]
fn to_uppercase(s: &str) -> (r: String)
    ensures
        r@ == uppercase(s@),
{
    s.to_uppercase()
}

/// Takes leading and trailing white space off a text with `str::trim`, white space being
/// the characters with the Unicode property White_Space, as its documentation says.
#[verifier::external_body]
fn trim(s: &str) -> (r: &str)
    ensures
        r@ == trimmed(s@),
{
    s.trim()
}

/// Reads bytes as UTF-8 with `std::str::from_utf8`: the text when they are valid UTF-8,
/// else nothing, as its documentation says.
#[verifier::external_body]
fn utf8_text(bytes: &[u8]) -> (r: Option<&str>)
    ensures
        r is Some <==> valid_utf8(bytes@),
        r matches Some(s) ==> s@ == decode_utf8(bytes@),
{
    std::str::from_utf8(bytes).ok()
}

fn utf8_bytes(s: &str) -> (r: Vec<u8>)
    ensures
        r@ == encode_utf8(s@),
{
    slice_to_vec(s.as_bytes())
}

/// The reply to a request of a client: its bytes read as UTF-8, sequences that are not
/// UTF-8 replaced, and set in upper case.
pub fn uppercase_reply(request: &[u8]) -> (r: Vec<u8>)
    ensures
        r@ == encode_utf8(uppercase(lossy_text(request@))),
{
    let text = decode_lossy(request);
    let upper = to_uppercase(text.as_str());
    utf8_bytes(upper.as_str())
}

/// The reply to a datagram: its text in upper case, or `None` when it is not UTF-8.
pub fn uppercase_datagram(datagram: &[u8]) -> (r: Option<Vec<u8>>)
    ensures
        match r {
            Some(bytes) => valid_utf8(datagram@) && bytes@ == encode_utf8(
                uppercase(decode_utf8(datagram@)),
            ),
            None => !valid_utf8(datagram@),
        },
{
    match utf8_text(datagram) {
        Some(text) => {
            let upper = to_uppercase(text);
            Some(utf8_bytes(upper.as_str()))
        },
        None => None,
    }
}

/// `exit` as bytes.
pub open spec fn exit_bytes() -> Seq<u8> {
    seq![101u8, 120u8, 105u8, 116u8]
}

/// `exit` as characters.
pub open spec fn exit_word() -> Seq<char> {
    seq!['e', 'x', 'i', 't']
}

/// Whether a datagram asks the server to stop: it begins with the bytes of `exit`.
pub fn is_exit_datagram(datagram: &[u8]) -> (r: bool)
    ensures
        r == (datagram@.len() >= 4 && datagram@.subrange(0, 4) == exit_bytes()),
{
    let r = datagram.len() >= 4 && datagram[0] == 101 && datagram[1] == 120 && datagram[2] == 105
        && datagram[3] == 116;
    if datagram.len() >= 4 {
        assert(r == (datagram@.subrange(0, 4) =~= exit_bytes()));
    }
    r
}

/// Whether a line typed by the user asks the client to stop: without its surrounding white
/// space it is `exit`.
pub fn is_exit_command(line: &str) -> (r: bool)
    ensures
        r == (trimmed(line@) == exit_word()),
{
    let t = trim(line);
    let r = t.unicode_len() == 4 && has_prefix(t, &['e', 'x', 'i', 't']);
    assert(r == (t@ =~= exit_word()));
    r
}

} // verus!
