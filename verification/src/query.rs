use vstd::prelude::*;
use vstd::utf8::encode_utf8;
use crate::text::has_prefix;

verus! {

/// The code of the record type that a name on the command line asks for: `a`, `mx`, `txt`,
/// `aaaa` or `any`; `None` for any other name.
pub open spec fn record_type(name: Seq<char>) -> Option<u8> {
    if name == seq!['a'] {
        Some(1)
    } else if name == seq!['m', 'x'] {
        Some(15)
    } else if name == seq!['t', 'x', 't'] {
        Some(16)
    } else if name == seq!['a', 'a', 'a', 'a'] {
        Some(28)
    } else if name == seq!['a', 'n', 'y'] {
        Some(255)
    } else {
        None
    }
}

fn is_text(s: &str, word: &[char]) -> (r: bool)
    ensures
        r == (s@ == word@),
{
    let r = s.unicode_len() == word.len() && has_prefix(s, word);
    assert(r == (s@ =~= word@));
    r
}

/// The code of the record type named `name`, if it is one of those a query can ask for.
pub fn record_type_code(name: &str) -> (r: Option<u8>)
    ensures
        r == record_type(name@),
{
    let a = ['a'];
    let mx = ['m', 'x'];
    let txt = ['t', 'x', 't'];
    let aaaa = ['a', 'a', 'a', 'a'];
    let any = ['a', 'n', 'y'];
    assert(a@ =~= seq!['a']);
    assert(mx@ =~= seq!['m', 'x']);
    assert(txt@ =~= seq!['t', 'x', 't']);
    assert(aaaa@ =~= seq!['a', 'a', 'a', 'a']);
    assert(any@ =~= seq!['a', 'n', 'y']);
    if is_text(name, &a) {
        Some(1)
    } else if is_text(name, &mx) {
        Some(15)
    } else if is_text(name, &txt) {
        Some(16)
    } else if is_text(name, &aaaa) {
        Some(28)
    } else if is_text(name, &any) {
        Some(255)
    } else {
        None
    }
}

/// Whether a host name is too long to be asked for: more than 255 bytes in UTF-8.
pub fn hostname_too_long(host: &str) -> (r: bool)
    ensures
        r == (encode_utf8(host@).len() > 255),
{
    host.as_bytes().len() > 255
}

/// The header of a query: identifier `0xABCD`, recursion desired, one question, no records.
pub open spec fn query_header_bytes() -> Seq<u8> {
    seq![0xABu8, 0xCDu8, 0x01u8, 0x00u8, 0x00u8, 0x01u8, 0x00u8, 0x00u8, 0x00u8, 0x00u8, 0x00u8, 0x00u8]
}

/// The header of the query that is sent.
pub fn query_header() -> (r: Vec<u8>)
    ensures
        r@ == query_header_bytes(),
{
    let r = vec![0xABu8, 0xCD, 0x01, 0x00, 0x00, 0x01, 0x00, 0x00, 0x00, 0x00, 0x00, 0x00];
    assert(r@ =~= query_header_bytes());
    r
}

} // verus!
