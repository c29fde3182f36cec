use vstd::prelude::*;
use crate::text::{find_from, find_in, lemma_find_from};

verus! {

/// `\r\n\r\n`, which ends the head of an HTTP message.
pub open spec fn head_terminator() -> Seq<char> {
    seq!['\r', '\n', '\r', '\n']
}

/// Headers and body of a response, or `None` when it holds no `\r\n\r\n`.
///
/// The headers are what precedes the first `\r\n\r\n`; the body is what follows it, up
/// to the next `\r\n\r\n` or the end.
pub open spec fn response_parts(r: Seq<char>) -> Option<(Seq<char>, Seq<char>)> {
    match find_from(r, head_terminator(), 0) {
        None => None,
        Some(i) => {
            let start = i + 4;
            let end = match find_from(r, head_terminator(), start) {
                Some(j) => j,
                None => r.len() as int,
            };
            Some((r.subrange(0, i), r.subrange(start, end)))
        },
    }
}

/// Splits a response into its headers and its body.
pub fn get_response(response: &str) -> (r: Option<(String, String)>)
    ensures
        match response_parts(response@) {
            None => r is None,
            Some((headers, body)) => r matches Some((h, b)) && h@ == headers && b@ == body,
        },
{
    let n = response.unicode_len();
    let sep = ['\r', '\n', '\r', '\n'];
    assert(sep@ =~= head_terminator());
    let i = match find_in(response, &sep, 0) {
        Some(i) => i,
        None => {
            return None;
        },
    };
    proof {
        lemma_find_from(response@, head_terminator(), 0);
    }
    let start = i + 4;
    let end = match find_in(response, &sep, start) {
        Some(j) => j,
        None => n,
    };
    proof {
        lemma_find_from(response@, head_terminator(), start as int);
    }
    let headers = response.substring_char(0, i).to_owned();
    let body = response.substring_char(start, end).to_owned();
    Some((headers, body))
}

/// Headers, the separator and the body, put back together, begin the response; they are
/// the whole response when it holds one `\r\n\r\n` only. The headers hold no `\r\n\r\n`.
pub proof fn lemma_response_recomposes(r: Seq<char>)
    ensures
        match response_parts(r) {
            None => forall|j: int|
                0 <= j && j + 4 <= r.len() ==> !(#[trigger] r.subrange(j, j + 4)
                    =~= head_terminator()),
            Some((headers, body)) => {
                let whole = headers + head_terminator() + body;
                &&& whole.len() <= r.len()
                &&& r.subrange(0, whole.len() as int) == whole
                &&& (find_from(r, head_terminator(), headers.len() + 4int) is None ==> whole == r)
                &&& find_from(headers, head_terminator(), 0) is None
            },
        },
{
    lemma_find_from(r, head_terminator(), 0);
    if let Some(i) = find_from(r, head_terminator(), 0) {
        lemma_find_from(r, head_terminator(), i + 4);
        let (headers, body) = response_parts(r).unwrap();
        let whole = headers + head_terminator() + body;
        assert(r.subrange(0, whole.len() as int) =~= whole);
        lemma_find_from(headers, head_terminator(), 0);
        if let Some(k) = find_from(headers, head_terminator(), 0) {
            assert(headers.subrange(k, k + 4) =~= r.subrange(k, k + 4));
        }
    }
}

/// Text in which `\r\n\r\n` does not occur.
pub open spec fn without_terminator(t: Seq<char>) -> bool {
    forall|j: int| 0 <= j && j + 4 <= t.len() ==> !(#[trigger] t.subrange(j, j + 4) =~= head_terminator())
}

/// A response splits at its blank lines: the headers run up to the first `\r\n\r\n`,
/// and the body from there up to the next `\r\n\r\n` or the end. Neither holds a
/// `\r\n\r\n`; headers, `\r\n\r\n` and body make up the whole response or are
/// followed in it by another `\r\n\r\n`. Without a `\r\n\r\n` there is no split.
pub proof fn lemma_response_splits_at_blank_lines(r: Seq<char>)
    ensures
        response_parts(r) is None <==> without_terminator(r),
        response_parts(r) matches Some((headers, body)) ==> {
            let whole = headers + head_terminator() + body;
            &&& without_terminator(headers)
            &&& without_terminator(body)
            &&& (whole == r || (whole.len() + 4 <= r.len() && r.subrange(0, whole.len() + 4int)
                == whole + head_terminator()))
        },
{
    let sep = head_terminator();
    lemma_find_from(r, sep, 0);
    if let Some(i) = find_from(r, sep, 0) {
        let start = i + 4;
        lemma_find_from(r, sep, start);
        let (headers, body) = response_parts(r).unwrap();
        let whole = headers + sep + body;
        assert(!without_terminator(r)) by {
            assert(r.subrange(i, i + 4) =~= sep);
        }
        assert forall|j: int| 0 <= j && j + 4 <= headers.len() implies !(#[trigger] headers.subrange(
            j,
            j + 4,
        ) =~= sep) by {
            assert(headers.subrange(j, j + 4) =~= r.subrange(j, j + 4));
        }
        assert forall|j: int| 0 <= j && j + 4 <= body.len() implies !(#[trigger] body.subrange(
            j,
            j + 4,
        ) =~= sep) by {
            assert(body.subrange(j, j + 4) =~= r.subrange(start + j, start + j + 4));
        }
        match find_from(r, sep, start) {
            Some(k) => {
                assert(r.subrange(0, whole.len() + 4int) =~= whole + sep);
            },
            None => {
                assert(whole =~= r);
            },
        }
    }
}

} // verus!
