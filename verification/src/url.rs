use vstd::prelude::*;
use crate::text::{find_from, lemma_find_from, lemma_find_from_none, lemma_find_from_some, find_in, has_prefix, starts_with};

verus! {

/// Why a URL could not be taken apart.
#[derive(Debug)]
pub enum Error {
    ParseUrlError,
}

impl Error {
    /// The message that describes this error.
    pub fn to_string(&self) -> (s: String)
        ensures
            s@ == url_error_message(),
    {
        String::from_str("URL parsing error")
    }
}

/// The text of a URL parsing error.
pub open spec fn url_error_message() -> Seq<char> {
    "URL parsing error"@
}

/// A URL taken apart into scheme, host and path.
#[derive(Debug, PartialEq)]
pub struct ParsedUrl {
    pub scheme: String,
    pub host: String,
    pub path: String,
}

/// `http`: a URL that begins with it is taken as it stands.
pub open spec fn http_prefix() -> Seq<char> {
    seq!['h', 't', 't', 'p']
}

/// `://`, which ends the scheme.
pub open spec fn scheme_separator() -> Seq<char> {
    seq![':', '/', '/']
}

/// `/`, which ends the host.
pub open spec fn path_separator() -> Seq<char> {
    seq!['/']
}

/// The address that is taken apart: the URL itself when it begins with `http`,
/// else the URL behind `http://`.
pub open spec fn url_address(url: Seq<char>) -> Seq<char> {
    if starts_with(url, http_prefix()) {
        url
    } else {
        http_prefix() + scheme_separator() + url
    }
}

/// Scheme, host and path of an address, or `None` when it holds no `://`.
///
/// The scheme is what precedes the first `://`. What follows it, up to the next `://`
/// or the end, is split at its first `/`: the host is what precedes that `/`, the path
/// is the rest from that `/` on, or `/` alone when there is no rest.
pub open spec fn address_parts(addr: Seq<char>) -> Option<(Seq<char>, Seq<char>, Seq<char>)> {
    match find_from(addr, scheme_separator(), 0) {
        None => None,
        Some(i) => {
            let start = i + 3;
            let seg_end = match find_from(addr, scheme_separator(), start) {
                Some(j) => j,
                None => addr.len() as int,
            };
            let (host, path) = host_and_path(addr.subrange(start, seg_end));
            Some((addr.subrange(0, i), host, path))
        },
    }
}

/// Scheme, host and path of a URL, or `None` when it cannot be taken apart.
pub open spec fn url_parts(url: Seq<char>) -> Option<(Seq<char>, Seq<char>, Seq<char>)> {
    address_parts(url_address(url))
}

/// Host and path of the part of an address that follows the scheme.
pub open spec fn host_and_path(seg: Seq<char>) -> (Seq<char>, Seq<char>) {
    let host_end = match find_from(seg, path_separator(), 0) {
        Some(h) => h,
        None => seg.len() as int,
    };
    let rest = seg.subrange(host_end, seg.len() as int);
    (seg.subrange(0, host_end), if rest.len() == 0 {
        path_separator()
    } else {
        rest
    })
}

fn split_host_path(seg: &str) -> (r: (String, String))
    ensures
        (r.0@, r.1@) == host_and_path(seg@),
{
    let seg_len = seg.unicode_len();
    let slash = ['/'];
    assert(slash@ =~= path_separator());
    proof {
        lemma_find_from(seg@, path_separator(), 0);
    }
    let host_end = match find_in(seg, &slash, 0) {
        Some(h) => h,
        None => seg_len,
    };
    let host = seg.substring_char(0, host_end).to_owned();
    let path = if host_end == seg_len {
        proof {
            reveal_strlit("/");
        }
        String::from_str("/")
    } else {
        seg.substring_char(host_end, seg_len).to_owned()
    };
    (host, path)
}

fn split_address(a: &str) -> (r: Result<ParsedUrl, Error>)
    ensures
        match address_parts(a@) {
            None => r matches Err(Error::ParseUrlError),
            Some((scheme, host, path)) => r matches Ok(p) && p.scheme@ == scheme && p.host@
                == host && p.path@ == path,
        },
{
    let n = a.unicode_len();
    let sep = [':', '/', '/'];
    assert(sep@ =~= scheme_separator());
    let i = match find_in(a, &sep, 0) {
        Some(i) => i,
        None => {
            return Err(Error::ParseUrlError);
        },
    };
    proof {
        lemma_find_from(a@, scheme_separator(), 0);
        lemma_find_from(a@, scheme_separator(), i + 3);
    }
    let start = i + 3;
    let seg_end = match find_in(a, &sep, start) {
        Some(j) => j,
        None => n,
    };
    let scheme = a.substring_char(0, i).to_owned();
    let seg = a.substring_char(start, seg_end);
    let (host, path) = split_host_path(seg);
    Ok(ParsedUrl { scheme, host, path })
}

impl ParsedUrl {
    /// Takes a URL apart into scheme, host and path.
    pub fn from(url: &str) -> (r: Result<ParsedUrl, Error>)
        ensures
            match url_parts(url@) {
                None => r matches Err(Error::ParseUrlError),
                Some((scheme, host, path)) => r matches Ok(p) && p.scheme@ == scheme
                    && p.host@ == host && p.path@ == path,
            },
    {
        let addr: String = if has_prefix(url, &['h', 't', 't', 'p']) {
            url.to_owned()
        } else {
            proof {
                reveal_strlit("http://");
            }
            String::from_str("http://").concat(url)
        };
        assert(addr@ =~= url_address(url@));
        split_address(addr.as_str())
    }
}

/// A URL that does not begin with `http` is read as `http://` followed by the URL: it can
/// always be taken apart, and its scheme is `http`.
pub proof fn lemma_bare_url_is_http(url: Seq<char>)
    requires
        !starts_with(url, http_prefix()),
    ensures
        url_parts(url) is Some,
        url_parts(url).unwrap().0 == http_prefix(),
{
    let addr = url_address(url);
    assert(addr[0] == 'h' && addr[1] == 't' && addr[2] == 't' && addr[3] == 'p');
    assert(addr[4] == ':' && addr[5] == '/' && addr[6] == '/');
    assert(!(addr.subrange(0, 3) =~= scheme_separator())) by {
        assert(addr.subrange(0, 3)[0] == 'h');
    }
    assert(!(addr.subrange(1, 4) =~= scheme_separator())) by {
        assert(addr.subrange(1, 4)[0] == 't');
    }
    assert(!(addr.subrange(2, 5) =~= scheme_separator())) by {
        assert(addr.subrange(2, 5)[0] == 't');
    }
    assert(!(addr.subrange(3, 6) =~= scheme_separator())) by {
        assert(addr.subrange(3, 6)[0] == 'p');
    }
    assert(addr.subrange(4, 7) =~= scheme_separator());
    assert(find_from(addr, scheme_separator(), 4) == Some(4int));
    assert(find_from(addr, scheme_separator(), 3) == Some(4int));
    assert(find_from(addr, scheme_separator(), 2) == Some(4int));
    assert(find_from(addr, scheme_separator(), 1) == Some(4int));
    assert(find_from(addr, scheme_separator(), 0) == Some(4int));
    assert(addr.subrange(0, 4) =~= http_prefix());
}

/// The host of a URL holds no `/`, and its path begins with `/`.
pub proof fn lemma_host_and_path_shape(url: Seq<char>)
    requires
        url_parts(url) is Some,
    ensures
        forall|k: int|
            0 <= k < url_parts(url).unwrap().1.len() ==> #[trigger] url_parts(url).unwrap().1[k]
                != '/',
        url_parts(url).unwrap().2.len() > 0,
        url_parts(url).unwrap().2[0] == '/',
{
    let addr = url_address(url);
    let i = find_from(addr, scheme_separator(), 0).unwrap();
    lemma_find_from(addr, scheme_separator(), 0);
    let start = i + 3;
    lemma_find_from(addr, scheme_separator(), start);
    let seg_end = match find_from(addr, scheme_separator(), start) {
        Some(j) => j,
        None => addr.len() as int,
    };
    let seg = addr.subrange(start, seg_end);
    lemma_find_from(seg, path_separator(), 0);
    let (host, path) = host_and_path(seg);
    assert forall|k: int| 0 <= k < host.len() implies #[trigger] host[k] != '/' by {
        assert(seg.subrange(k, k + 1)[0] == seg[k]);
        if seg[k] == '/' {
            assert(seg.subrange(k, k + 1) =~= path_separator());
        }
    }
    if let Some(h) = find_from(seg, path_separator(), 0) {
        assert(seg.subrange(h, h + 1)[0] == '/');
    }
}

/// Taking a URL apart loses nothing when its address holds a single `://`: scheme, `://`,
/// host and path put together give the address back, leaving out the path `/` that stands
/// for an empty one.
pub proof fn lemma_url_recomposes(url: Seq<char>)
    requires
        url_parts(url) is Some,
        find_from(
            url_address(url),
            scheme_separator(),
            find_from(url_address(url), scheme_separator(), 0).unwrap() + 3,
        ) is None,
    ensures
        ({
            let (scheme, host, path) = url_parts(url).unwrap();
            let addr = url_address(url);
            ||| addr == scheme + scheme_separator() + host + path
            ||| addr == scheme + scheme_separator() + host && path == path_separator()
        }),
{
    let addr = url_address(url);
    let i = find_from(addr, scheme_separator(), 0).unwrap();
    lemma_find_from(addr, scheme_separator(), 0);
    let seg = addr.subrange(i + 3, addr.len() as int);
    let (scheme, host, path) = url_parts(url).unwrap();
    let host_end = match find_from(seg, path_separator(), 0) {
        Some(h) => h,
        None => seg.len() as int,
    };
    lemma_find_from(seg, path_separator(), 0);
    let rest = seg.subrange(host_end, seg.len() as int);
    if rest.len() == 0 {
        assert(addr =~= scheme + scheme_separator() + host);
    } else {
        assert(addr =~= scheme + scheme_separator() + host + path);
    }
}

/// A URL put back together from scheme, host and path.
pub open spec fn rebuilt_url(parts: (Seq<char>, Seq<char>, Seq<char>)) -> Seq<char> {
    parts.0 + scheme_separator() + parts.1 + parts.2
}

/// Text in which `://` does not occur.
pub open spec fn without_separator(t: Seq<char>) -> bool {
    forall|j: int| 0 <= j && j + 3 <= t.len() ==> !(#[trigger] t.subrange(j, j + 3) =~= scheme_separator())
}

proof fn lemma_rebuilt_separators(sc: Seq<char>, t: Seq<char>)
    requires
        without_separator(sc),
        without_separator(t),
    ensures
        find_from(sc + scheme_separator() + t, scheme_separator(), 0) == Some(sc.len() as int),
        find_from(sc + scheme_separator() + t, scheme_separator(), sc.len() + 3int) is None,
{
    let sep = scheme_separator();
    let r = sc + sep + t;
    let n = sc.len() as int;
    assert(r.subrange(n, n + 3) =~= sep);
    assert forall|j: int| 0 <= j < n implies !(#[trigger] r.subrange(j, j + 3) =~= sep) by {
        if j + 3 <= n {
            assert(r.subrange(j, j + 3) =~= sc.subrange(j, j + 3));
        } else if r.subrange(j, j + 3) =~= sep {
            assert(r.subrange(j, j + 3)[n - j] == r[n]);
        }
    }
    lemma_find_from_some(r, sep, 0, n);
    assert forall|j: int| n + 3 <= j && j + 3 <= r.len() implies !(#[trigger] r.subrange(j, j + 3)
        =~= sep) by {
        assert(r.subrange(j, j + 3) =~= t.subrange(j - n - 3, (j - n - 3) + 3));
    }
    lemma_find_from_none(r, sep, n + 3);
}

proof fn lemma_host_path_split(h: Seq<char>, pa: Seq<char>)
    requires
        forall|k: int| 0 <= k < h.len() ==> #[trigger] h[k] != '/',
        pa.len() > 0,
        pa[0] == '/',
    ensures
        host_and_path(h + pa) == (h, pa),
{
    let t = h + pa;
    let n = h.len() as int;
    assert(t.subrange(n, n + 1) =~= path_separator()) by {
        assert(t.subrange(n, n + 1)[0] == pa[0]);
    }
    assert forall|k: int| 0 <= k < n implies !(#[trigger] t.subrange(k, k + 1) =~= path_separator()) by {
        assert(t.subrange(k, k + 1)[0] == h[k]);
    }
    lemma_find_from_some(t, path_separator(), 0, n);
    assert(t.subrange(0, n) =~= h);
    assert(t.subrange(n, t.len() as int) =~= pa);
}

/// The scheme of a URL begins with `http`, and holds no `://`.
proof fn lemma_scheme_shape(url: Seq<char>)
    requires
        url_parts(url) is Some,
    ensures
        starts_with(url_parts(url).unwrap().0, http_prefix()),
        without_separator(url_parts(url).unwrap().0),
{
    let addr = url_address(url);
    let sep = scheme_separator();
    lemma_find_from(addr, sep, 0);
    let i = find_from(addr, sep, 0).unwrap();
    let sc = url_parts(url).unwrap().0;
    assert(sc == addr.subrange(0, i));
    if starts_with(url, http_prefix()) {
        if i < 4 {
            assert(addr.subrange(i, i + 3)[0] == addr[i]);
            assert(addr.subrange(0, 4)[i] == addr[i]);
        }
        assert(sc.subrange(0, 4) =~= addr.subrange(0, 4));
    } else {
        lemma_bare_url_is_http(url);
    }
    assert forall|j: int| 0 <= j && j + 3 <= sc.len() implies !(#[trigger] sc.subrange(j, j + 3)
        =~= sep) by {
        assert(sc.subrange(j, j + 3) =~= addr.subrange(j, j + 3));
    }
}

/// What follows the first `://` of a URL's address, up to the next `://` or the end.
spec fn url_segment(url: Seq<char>) -> Seq<char> {
    let addr = url_address(url);
    let start = find_from(addr, scheme_separator(), 0).unwrap() + 3;
    let seg_end = match find_from(addr, scheme_separator(), start) {
        Some(j) => j,
        None => addr.len() as int,
    };
    addr.subrange(start, seg_end)
}

proof fn lemma_segment_without_separator(url: Seq<char>)
    requires
        url_parts(url) is Some,
    ensures
        without_separator(url_segment(url)),
        (url_parts(url).unwrap().1, url_parts(url).unwrap().2) == host_and_path(url_segment(url)),
{
    let addr = url_address(url);
    let sep = scheme_separator();
    lemma_find_from(addr, sep, 0);
    let i = find_from(addr, sep, 0).unwrap();
    let start = i + 3;
    lemma_find_from(addr, sep, start);
    let seg = url_segment(url);
    assert forall|j: int| 0 <= j && j + 3 <= seg.len() implies !(#[trigger] seg.subrange(j, j + 3)
        =~= sep) by {
        assert(seg.subrange(j, j + 3) =~= addr.subrange(start + j, start + j + 3));
    }
}

/// Host and path together hold no `://`.
proof fn lemma_host_path_without_separator(url: Seq<char>)
    requires
        url_parts(url) is Some,
    ensures
        without_separator(url_parts(url).unwrap().1 + url_parts(url).unwrap().2),
{
    let sep = scheme_separator();
    lemma_segment_without_separator(url);
    let seg = url_segment(url);
    lemma_find_from(seg, path_separator(), 0);
    let (sc, h, pa) = url_parts(url).unwrap();
    let t = h + pa;
    let host_end = match find_from(seg, path_separator(), 0) {
        Some(k) => k,
        None => seg.len() as int,
    };
    let rest = seg.subrange(host_end, seg.len() as int);
    if rest.len() > 0 {
        assert(t =~= seg);
    } else {
        assert(t =~= seg + path_separator());
        assert(find_from(seg, path_separator(), 0) is None);
        assert forall|j: int| 0 <= j && j + 3 <= t.len() implies !(#[trigger] t.subrange(j, j + 3)
            =~= sep) by {
            if j + 3 <= seg.len() {
                assert(t.subrange(j, j + 3) =~= seg.subrange(j, j + 3));
            } else if t.subrange(j, j + 3) =~= sep {
                assert(t.subrange(j, j + 3)[1] == seg[j + 1]);
                assert(seg.subrange(j + 1, (j + 1) + 1)[0] == seg[j + 1]);
                assert(seg.subrange(j + 1, (j + 1) + 1) =~= path_separator());
            }
        }
    }
}

/// Putting a URL back together from its parts, as `scheme://host` followed by the path, and
/// taking that apart again gives the same parts.
pub proof fn lemma_url_reparses(url: Seq<char>)
    requires
        url_parts(url) is Some,
    ensures
        url_parts(rebuilt_url(url_parts(url).unwrap())) == url_parts(url),
{
    let (sc, h, pa) = url_parts(url).unwrap();
    lemma_scheme_shape(url);
    lemma_host_path_without_separator(url);
    lemma_host_and_path_shape(url);
    let t = h + pa;
    let r = rebuilt_url((sc, h, pa));
    assert(r =~= sc + scheme_separator() + t);
    assert(r.subrange(0, 4) =~= sc.subrange(0, 4));
    assert(url_address(r) == r);
    lemma_rebuilt_separators(sc, t);
    assert(r.subrange(sc.len() + 3int, r.len() as int) =~= t);
    assert(r.subrange(0, sc.len() as int) =~= sc);
    lemma_host_path_split(h, pa);
}

/// A URL given without a scheme, and holding no `://`, is read as `http://` followed by
/// the whole URL: its scheme is `http`, and its host followed by its path is the URL
/// itself (with the path `/` standing for an empty one), so that nothing of it is lost.
pub proof fn lemma_bare_url_keeps_everything(url: Seq<char>)
    requires
        !starts_with(url, http_prefix()),
        without_separator(url),
    ensures
        url_parts(url) is Some,
        url_parts(url).unwrap().0 == seq!['h', 't', 't', 'p'],
        ({
            let (scheme, host, path) = url_parts(url).unwrap();
            ||| host + path == url
            ||| host == url && path == seq!['/']
        }),
{
    lemma_bare_url_is_http(url);
    let pre = http_prefix();
    let sep = scheme_separator();
    assert forall|j: int| 0 <= j && j + 3 <= pre.len() implies !(#[trigger] pre.subrange(j, j + 3)
        =~= sep) by {
        assert(pre.subrange(j, j + 3)[0] != sep[0]);
    }
    lemma_rebuilt_separators(pre, url);
    let addr = url_address(url);
    assert(addr == pre + sep + url);
    lemma_url_recomposes(url);
    let (scheme, host, path) = url_parts(url).unwrap();
    assert(scheme =~= pre);
    if addr == scheme + sep + host + path {
        assert(url =~= addr.subrange(7, addr.len() as int));
        assert(host + path =~= (scheme + sep + host + path).subrange(7, addr.len() as int));
    } else {
        assert(url =~= addr.subrange(7, addr.len() as int));
        assert(host =~= (scheme + sep + host).subrange(7, addr.len() as int));
    }
}

} // verus!
