use vstd::prelude::*;
use vstd::slice::slice_to_vec;
use vstd::utf8::encode_utf8;
use crate::request::{
    Method,
    Request,
    RequestView,
    content_length,
    enumerates,
    header_map,
    keys_behave,
    method_name,
};
use crate::text::{decimal, decimal_string, digits_value, lemma_decimal_value};
use crate::url::ParsedUrl;

verus! {

/// The header lines for the given name/value pairs, in their order.
pub open spec fn header_lines(headers: Seq<(Seq<char>, Seq<char>)>) -> Seq<char>
    decreases headers.len(),
{
    if headers.len() == 0 {
        Seq::empty()
    } else {
        header_lines(headers.drop_last()) + headers.last().0 + ": "@ + headers.last().1 + "\r\n"@
    }
}

/// The `Range` header line for a byte range, or nothing.
pub open spec fn range_line(range: Option<(usize, usize)>) -> Seq<char> {
    match range {
        Some((start, end)) => "Range: bytes="@ + decimal(start as nat) + "-"@ + decimal(
            end as nat,
        ) + "\r\n"@,
        None => ""@,
    }
}

/// The head of a request sent with the given method to the path and host of a URL: the
/// request line, the host, the headers in the given order, the content length, the content
/// type when the request carries JSON, the byte range when it asks for one, and the line
/// that asks the server to close the connection, with the empty line that ends the head.
pub open spec fn request_head(
    method: Method,
    host: Seq<char>,
    path: Seq<char>,
    headers: Seq<(Seq<char>, Seq<char>)>,
    request: RequestView,
    json: bool,
) -> Seq<char> {
    method_name(method) + " "@ + path + " HTTP/1.1\r\n"@ + "HOST: "@ + host + "\r\n"@
        + header_lines(headers) + "Content-Length: "@ + decimal(content_length(request.body))
        + "\r\n"@ + (if json {
        "Content-type: application/json\r\n"@
    } else {
        ""@
    }) + range_line(request.range) + "Connection: Close\r\n"@ + "\r\n"@
}

/// The bytes of a request: its head, its body if any, an empty line twice, and then the
/// JSON data when there is some.
pub open spec fn request_bytes(
    method: Method,
    host: Seq<char>,
    path: Seq<char>,
    headers: Seq<(Seq<char>, Seq<char>)>,
    request: RequestView,
    data: Option<Seq<char>>,
) -> Seq<u8> {
    encode_utf8(request_head(method, host, path, headers, request, data is Some)) + match request.body {
        Some(b) => b,
        None => Seq::empty(),
    } + encode_utf8("\r\n\r\n"@) + match data {
        Some(d) => encode_utf8(d),
        None => Seq::empty(),
    }
}

/// Name/value pairs as characters.
pub open spec fn pairs_view(pairs: Seq<(String, String)>) -> Seq<(Seq<char>, Seq<char>)> {
    pairs.map_values(|p: (String, String)| (p.0@, p.1@))
}

fn append_str(out: &mut Vec<u8>, s: &str)
    ensures
        final(out)@ == old(out)@ + encode_utf8(s@),
{
    let mut bytes = slice_to_vec(s.as_bytes());
    out.append(&mut bytes);
}

/// Writes the bytes of a request sent with `method` to the URL, with the headers
/// given as name/value pairs in the order in which they are written, and with `data`,
/// when there is some, sent as JSON after the request.
pub fn request_message(
    method: &Method,
    url: &ParsedUrl,
    request: &Request,
    headers: &Vec<(String, String)>,
    data: Option<&str>,
) -> (r: Vec<u8>)
    ensures
        r@ == request_bytes(
            *method,
            url.host@,
            url.path@,
            pairs_view(headers@),
            request@,
            match data {
                Some(d) => Some(d@),
                None => None,
            },
        ),
{
    let mut head = method.to_string();
    head.append(" ");
    head.append(url.path.as_str());
    head.append(" HTTP/1.1\r\n");
    head.append("HOST: ");
    head.append(url.host.as_str());
    head.append("\r\n");
    let mut i: usize = 0;
    let ghost before = head@;
    while i < headers.len()
        invariant
            i <= headers@.len(),
            head@ == before + header_lines(pairs_view(headers@.subrange(0, i as int))),
        decreases headers.len() - i,
    {
        head.append(headers[i].0.as_str());
        head.append(": ");
        head.append(headers[i].1.as_str());
        head.append("\r\n");
        assert(pairs_view(headers@.subrange(0, i + 1)).drop_last() =~= pairs_view(
            headers@.subrange(0, i as int),
        ));
        i += 1;
    }
    assert(headers@.subrange(0, headers@.len() as int) =~= headers@);
    head.append("Content-Length: ");
    head.append(decimal_string(request.get_content_length() as u64).as_str());
    head.append("\r\n");
    if data.is_some() {
        head.append("Content-type: application/json\r\n");
    } else {
        head.append("");
    }
    match request.get_range() {
        Some(range) => {
            head.append("Range: bytes=");
            head.append(decimal_string(range.start as u64).as_str());
            head.append("-");
            head.append(decimal_string(range.end as u64).as_str());
            head.append("\r\n");
        },
        None => {
            head.append("");
        },
    }
    head.append("Connection: Close\r\n");
    head.append("\r\n");
    assert(head@ =~= request_head(*method, url.host@, url.path@, pairs_view(headers@), request@, data is Some));
    let mut out: Vec<u8> = Vec::new();
    append_str(&mut out, head.as_str());
    let ghost with_head = out@;
    match request.get_body() {
        Some(body) => {
            let mut b = slice_to_vec(body.as_slice());
            out.append(&mut b);
        },
        None => {},
    }
    assert(out@ =~= encode_utf8(head@) + match request@.body {
        Some(b) => b,
        None => Seq::empty(),
    });
    append_str(&mut out, "\r\n\r\n");
    match data {
        Some(d) => {
            append_str(&mut out, d);
        },
        None => {},
    }
    assert(out@ =~= request_bytes(
        *method,
        url.host@,
        url.path@,
        pairs_view(headers@),
        request@,
        match data {
            Some(d) => Some(d@),
            None => None,
        },
    ));
    out
}

/// The bytes that fetch the URL with `request`: a `GET` request, with the headers of
/// `request` in the order in which its map yields them.
pub fn get_request_bytes(url: &ParsedUrl, request: &Request) -> (r: Vec<u8>)
    ensures
        header_map(request@) == Map::<String, String>::empty() ==> r@ == request_bytes(
            Method::GET,
            url.host@,
            url.path@,
            Seq::empty(),
            request@,
            None,
        ),
        exists|hs: Seq<(String, String)>|
            #![trigger pairs_view(hs)]
            {
                &&& r@ == request_bytes(
                    Method::GET,
                    url.host@,
                    url.path@,
                    pairs_view(hs),
                    request@,
                    None,
                )
                &&& keys_behave() ==> enumerates(hs, header_map(request@))
            },
{
    let headers = request.header_pairs();
    assert(header_map(request@) == Map::<String, String>::empty() ==> pairs_view(headers@) =~= Seq::empty());
    let r = request_message(&Method::GET, url, request, &headers, None);
    assert(r@ == request_bytes(
        Method::GET,
        url.host@,
        url.path@,
        pairs_view(headers@),
        request@,
        None,
    ) && (keys_behave() ==> enumerates(headers@, header_map(request@))));
    r
}

/// The bytes that post the JSON text `data` to the URL with `request`: a `POST` request
/// that says it carries JSON, with the headers of `request` in the order in which its
/// map yields them, followed by `data`.
pub fn post_request_bytes(url: &ParsedUrl, request: &Request, data: &str) -> (r: Vec<u8>)
    ensures
        header_map(request@) == Map::<String, String>::empty() ==> r@ == request_bytes(
            Method::POST,
            url.host@,
            url.path@,
            Seq::empty(),
            request@,
            Some(data@),
        ),
        exists|hs: Seq<(String, String)>|
            #![trigger pairs_view(hs)]
            {
                &&& r@ == request_bytes(
                    Method::POST,
                    url.host@,
                    url.path@,
                    pairs_view(hs),
                    request@,
                    Some(data@),
                )
                &&& keys_behave() ==> enumerates(hs, header_map(request@))
            },
{
    let headers = request.header_pairs();
    assert(header_map(request@) == Map::<String, String>::empty() ==> pairs_view(headers@) =~= Seq::empty());
    let r = request_message(&Method::POST, url, request, &headers, Some(data));
    assert(r@ == request_bytes(
        Method::POST,
        url.host@,
        url.path@,
        pairs_view(headers@),
        request@,
        Some(data@),
    ) && (keys_behave() ==> enumerates(headers@, header_map(request@))));
    r
}

/// `host:port`, the address to connect to.
pub fn host_port(host: &str, port: &str) -> (r: String)
    ensures
        r@ == host@ + ":"@ + port@,
{
    let mut r = String::from_str(host);
    r.append(":");
    r.append(port);
    r
}

/// A request that asks for the byte range `start..end` says so in the last header line
/// before `Connection: Close`: `Range: bytes=`, the start in decimal, `-`, and the end in
/// decimal, as the range was given (`get_range`), not its length.
pub proof fn lemma_range_line_gives_bounds(
    method: Method,
    host: Seq<char>,
    path: Seq<char>,
    headers: Seq<(Seq<char>, Seq<char>)>,
    request: RequestView,
    json: bool,
    start: usize,
    end: usize,
)
    requires
        request.range == Some((start, end)),
    ensures
        ({
            let head = request_head(method, host, path, headers, request, json);
            let tail = "Range: bytes="@ + decimal(start as nat) + "-"@ + decimal(end as nat)
                + "\r\n"@ + "Connection: Close\r\n"@ + "\r\n"@;
            &&& tail.len() <= head.len()
            &&& head.subrange(head.len() - tail.len(), head.len() as int) == tail
        }),
        digits_value(decimal(start as nat)) == start,
        digits_value(decimal(end as nat)) == end,
{
    lemma_decimal_value(start as nat);
    lemma_decimal_value(end as nat);
    let head = request_head(method, host, path, headers, request, json);
    let tail = "Range: bytes="@ + decimal(start as nat) + "-"@ + decimal(end as nat) + "\r\n"@
        + "Connection: Close\r\n"@ + "\r\n"@;
    let front = method_name(method) + " "@ + path + " HTTP/1.1\r\n"@ + "HOST: "@ + host + "\r\n"@
        + header_lines(headers) + "Content-Length: "@ + decimal(content_length(request.body))
        + "\r\n"@ + (if json {
        "Content-type: application/json\r\n"@
    } else {
        ""@
    });
    assert(head =~= front + tail);
    assert(head.subrange(head.len() - tail.len(), head.len() as int) =~= tail);
}

} // verus!
