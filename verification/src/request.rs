use std::collections::HashMap;
use std::hash::RandomState;
use vstd::std_specs::hash::{builds_valid_hashers, obeys_key_model};
use vstd::std_specs::iter::IteratorSpec;
use std::ops::Range;
use vstd::prelude::*;

verus! {

/// The method of an HTTP request.
#[derive(Debug, Clone, Copy)]
pub enum Method {
    GET,
    POST,
    PUT,
    DELETE,
}

/// The name under which a method is written in a request line.
pub open spec fn method_name(m: Method) -> Seq<char> {
    match m {
        Method::GET => "GET"@,
        Method::POST => "POST"@,
        Method::PUT => "PUT"@,
        Method::DELETE => "DELETE"@,
    }
}

impl Method {
    /// The name under which this method is written in a request line.
    pub fn to_string(&self) -> (s: String)
        ensures
            s@ == method_name(*self),
    {
        match self {
            Method::GET => String::from_str("GET"),
            Method::POST => String::from_str("POST"),
            Method::PUT => String::from_str("PUT"),
            Method::DELETE => String::from_str("DELETE"),
        }
    }
}

/// What a request holds: its method, its headers (`None` while they were never set, when
/// there are none), its query string, the byte range it asks for and its body.
pub struct RequestView {
    pub method: Method,
    pub headers: Option<Map<String, String>>,
    pub query_strings: Seq<char>,
    pub range: Option<(usize, usize)>,
    pub body: Option<Seq<u8>>,
}

/// The bounds of a range, start first.
pub open spec fn range_bounds(r: Range<usize>) -> (usize, usize) {
    (r.start, r.end)
}

/// The bounds of an optional range.
pub open spec fn optional_range(r: Option<Range<usize>>) -> Option<(usize, usize)> {
    match r {
        Some(r) => Some(range_bounds(r)),
        None => None,
    }
}

/// The bytes of an optional body.
pub open spec fn optional_body(b: Option<Vec<u8>>) -> Option<Seq<u8>> {
    match b {
        Some(b) => Some(b@),
        None => None,
    }
}

/// The headers of a request: none when they were never set.
pub open spec fn header_map(v: RequestView) -> Map<String, String> {
    match v.headers {
        Some(m) => m,
        None => Map::empty(),
    }
}

/// An HTTP request under construction.
#[derive(Debug)]
pub struct Request {
    method: Method,
    headers: HashMap<String, String>,
    headers_set: bool,
    query_strings: String,
    range: Option<Range<usize>>,
    body: Option<Vec<u8>>,
}

impl View for Request {
    type V = RequestView;

    closed spec fn view(&self) -> RequestView {
        RequestView {
            method: self.method,
            headers: if self.headers_set {
                Some(self.headers@)
            } else {
                None
            },
            query_strings: self.query_strings@,
            range: optional_range(self.range),
            body: optional_body(self.body),
        }
    }
}

/// The length of a body as the `Content-Length` header gives it: 0 when there is none.
pub open spec fn content_length(body: Option<Seq<u8>>) -> nat {
    match body {
        Some(b) => b.len(),
        None => 0,
    }
}

/// Header names hash and compare as keys should, so that the map of headers walks as
/// its contents say.
pub open spec fn keys_behave() -> bool {
    obeys_key_model::<String>() && builds_valid_hashers::<RandomState>()
}

/// `pairs` lists the entries of `m`, each once.
pub open spec fn enumerates(pairs: Seq<(String, String)>, m: Map<String, String>) -> bool {
    &&& pairs.len() == m.len()
    &&& forall|i: int|
        0 <= i < pairs.len() ==> m.contains_key(#[trigger] pairs[i].0) && m[pairs[i].0]
            == pairs[i].1
    &&& forall|k: String| #[trigger] m.contains_key(k) ==> exists|i: int| 0 <= i < pairs.len() && pairs[i].0 == k
}

/// The next item of an iterator that keeps to the laws of iteration.
fn next_item<I: Iterator>(it: &mut I) -> (r: Option<I::Item>)
    ensures
        (*old(it)).obeys_prophetic_iter_laws() ==> (*final(it)).obeys_prophetic_iter_laws() && if (
        *old(it)).remaining().len() > 0 {
            &&& (*final(it)).remaining() == (*old(it)).remaining().drop_first()
            &&& r == Some((*old(it)).remaining()[0])
        } else {
            r is None
        },
{
    it.next()
}

impl Request {
    /// Until headers are set, the map holds none.
    #[verifier::type_invariant]
    spec fn unset_headers_are_empty(self) -> bool {
        !self.headers_set ==> self.headers@ == Map::<String, String>::empty()
    }

    /// A `GET` request with no headers, no query string, no range and no body.
    pub fn new() -> (r: Request)
        ensures
            r@ == new_request(),
    {
        Request {
            method: Method::GET,
            headers: HashMap::new(),
            headers_set: false,
            query_strings: String::new(),
            range: None,
            body: None,
        }
    }

    /// The same request with another method.
    pub fn set_method(self, method: Method) -> (r: Request)
        ensures
            r@ == with_method(self@, method),
    {
        proof {
            use_type_invariant(&self);
        }
        let mut r = self;
        r.method = method;
        r
    }

    /// The method of this request.
    pub fn get_method(&self) -> (m: &Method)
        ensures
            *m == self@.method,
    {
        &self.method
    }

    /// The same request with other headers.
    pub fn set_headers(self, headers: HashMap<String, String>) -> (r: Request)
        ensures
            r@ == with_headers(self@, headers@),
    {
        let mut r = self;
        r.headers_set = true;
        r.headers = headers;
        r
    }

    /// The headers of this request.
    pub fn get_headers(&self) -> (h: &HashMap<String, String>)
        ensures
            h@ == header_map(self@),
    {
        proof {
            use_type_invariant(self);
        }
        &self.headers
    }

    /// The same request, asking for the given byte range.
    pub fn set_range(self, range: Range<usize>) -> (r: Request)
        ensures
            r@ == with_range(self@, range_bounds(range)),
    {
        proof {
            use_type_invariant(&self);
        }
        let mut r = self;
        r.range = Some(range);
        r
    }

    /// The byte range this request asks for, if any.
    pub fn get_range(&self) -> (r: &Option<Range<usize>>)
        ensures
            optional_range(*r) == self@.range,
    {
        &self.range
    }

    /// The query string of this request.
    pub fn get_query_strings(&self) -> (q: &String)
        ensures
            q@ == self@.query_strings,
    {
        &self.query_strings
    }

    /// The body of this request, if any.
    pub fn get_body(&self) -> (b: &Option<Vec<u8>>)
        ensures
            optional_body(*b) == self@.body,
    {
        &self.body
    }

    /// The headers of this request as name/value pairs, in the order in which the map
    /// yields them: none when the request has no headers. Where names behave as keys
    /// should, each header comes once.
    pub fn header_pairs(&self) -> (r: Vec<(String, String)>)
        ensures
            header_map(self@) == Map::<String, String>::empty() ==> r@.len() == 0,
            keys_behave() ==> enumerates(r@, header_map(self@)),
    {
        broadcast use vstd::std_specs::hash::group_hash_axioms;

        proof {
            use_type_invariant(self);
        }
        if self.headers.is_empty() {
            assert(self.headers@ =~= Map::<String, String>::empty());
            let r: Vec<(String, String)> = Vec::new();
            assert(enumerates(r@, header_map(self@)));
            return r;
        }
        let mut r: Vec<(String, String)> = Vec::new();
        let n = self.headers.len();
        let mut it = self.headers.iter();
        let ghost items = it.remaining();
        let ghost lawful = obeys_key_model::<String>() && builds_valid_hashers::<RandomState>();
        let mut i: usize = 0;
        while i < n
            invariant
                i <= n,
                r@.len() == i,
                lawful ==> {
                    &&& it.obeys_prophetic_iter_laws()
                    &&& items.len() == n
                    &&& it.remaining() == items.skip(i as int)
                    &&& forall|j: int| 0 <= j < i ==> #[trigger] r@[j] == (*items[j].0, *items[j].1)
                },
            ensures
                lawful ==> i == n,
            decreases n - i,
        {
            match next_item(&mut it) {
                Some((k, v)) => {
                    r.push((k.clone(), v.clone()));
                    i += 1;
                },
                None => {
                    break;
                },
            }
        }
        proof {
            if lawful {
                assert(items == vstd::std_specs::hash::spec_hash_map_iter(&self.headers).remaining());
                assert forall|k: String| #[trigger] self.headers@.contains_key(k) implies exists|j: int|
                    0 <= j < r@.len() && r@[j].0 == k by {
                    assert(items.contains((&k, &self.headers@[k])));
                    let j = choose|j: int| 0 <= j < items.len() && items[j] == (&k, &self.headers@[k]);
                    assert(r@[j] == (*items[j].0, *items[j].1));
                }
                assert forall|j: int| 0 <= j < r@.len() implies self.headers@.contains_key(#[trigger] r@[j].0)
                        && self.headers@[r@[j].0] == r@[j].1 by {
                    assert(r@[j] == (*items[j].0, *items[j].1));
                }
            }
        }
        r
    }

    /// The number of bytes in the body: 0 when there is none.
    pub fn get_content_length(&self) -> (n: usize)
        ensures
            n == content_length(self@.body),
    {
        if let Some(body) = &self.body {
            body.len()
        } else {
            0
        }
    }
}

impl Clone for Request {
    /// A copy of this request, holding the same parts.
    fn clone(&self) -> (r: Self)
        ensures
            r@ == self@,
    {
        proof {
            use_type_invariant(self);
        }
        let range = match &self.range {
            Some(range) => Some(range.start..range.end),
            None => None,
        };
        let body = match &self.body {
            Some(body) => Some(vstd::slice::slice_to_vec(body.as_slice())),
            None => None,
        };
        Request {
            method: self.method,
            headers: self.headers.clone(),
            headers_set: self.headers_set,
            query_strings: self.query_strings.clone(),
            range,
            body,
        }
    }
}

/// What can be done to a request after it is made: set its method, headers or range, or
/// copy it.
pub enum RequestStep {
    SetMethod(Method),
    SetHeaders(Map<String, String>),
    SetRange((usize, usize)),
    Copy,
}

/// A request after the given steps, in order.
pub open spec fn after_steps(v: RequestView, steps: Seq<RequestStep>) -> RequestView
    decreases steps.len(),
{
    if steps.len() == 0 {
        v
    } else {
        let v2 = match steps[0] {
            RequestStep::SetMethod(m) => with_method(v, m),
            RequestStep::SetHeaders(h) => with_headers(v, h),
            RequestStep::SetRange(r) => with_range(v, r),
            RequestStep::Copy => v,
        };
        after_steps(v2, steps.drop_first())
    }
}

/// A new request, as `Request::new` makes it.
pub open spec fn new_request() -> RequestView {
    RequestView {
        method: Method::GET,
        headers: None,
        query_strings: Seq::empty(),
        range: None,
        body: None,
    }
}

/// No step changes the query string or the body: a request made by `Request::new` keeps an
/// empty query string and no body whatever is done to it.
pub proof fn lemma_query_and_body_never_change(v: RequestView, steps: Seq<RequestStep>)
    ensures
        after_steps(v, steps).query_strings == v.query_strings,
        after_steps(v, steps).body == v.body,
        after_steps(new_request(), steps).query_strings == Seq::<char>::empty(),
        after_steps(new_request(), steps).body is None,
    decreases steps.len(),
{
    if steps.len() > 0 {
        let v2 = match steps[0] {
            RequestStep::SetMethod(m) => with_method(v, m),
            RequestStep::SetHeaders(h) => with_headers(v, h),
            RequestStep::SetRange(r) => with_range(v, r),
            RequestStep::Copy => v,
        };
        lemma_query_and_body_never_change(v2, steps.drop_first());
        let n2 = match steps[0] {
            RequestStep::SetMethod(m) => with_method(new_request(), m),
            RequestStep::SetHeaders(h) => with_headers(new_request(), h),
            RequestStep::SetRange(r) => with_range(new_request(), r),
            RequestStep::Copy => new_request(),
        };
        lemma_query_and_body_never_change(n2, steps.drop_first());
    }
}

/// A request with its method set.
pub open spec fn with_method(v: RequestView, m: Method) -> RequestView {
    RequestView { method: m, ..v }
}

/// A request with its headers set.
pub open spec fn with_headers(v: RequestView, h: Map<String, String>) -> RequestView {
    RequestView { headers: Some(h), ..v }
}

/// A request with its byte range set.
pub open spec fn with_range(v: RequestView, r: (usize, usize)) -> RequestView {
    RequestView { range: Some(r), ..v }
}

/// Each setter changes only the part it sets, so that its getter gives back what was set
/// and the others give what they gave before; two setters give the same request in either
/// order.
pub proof fn lemma_setters_independent(
    v: RequestView,
    m: Method,
    h: Map<String, String>,
    r: (usize, usize),
)
    ensures
        with_method(v, m).method == m,
        header_map(with_headers(v, h)) == h,
        with_range(v, r).range == Some(r),
        with_method(v, m).body == v.body && with_headers(v, h).body == v.body && with_range(
            v,
            r,
        ).body == v.body,
        with_method(with_headers(v, h), m) == with_headers(with_method(v, m), h),
        with_method(with_range(v, r), m) == with_range(with_method(v, m), r),
        with_headers(with_range(v, r), h) == with_range(with_headers(v, h), r),
{
}

} // verus!
