//! What a reverse proxy sends on: the back-end URL of a request, the request
//! headers it passes (all but the hop-by-hop ones), and the `X-Forwarded-*`
//! headers a location asks for.

use vstd::prelude::*;
use crate::text::{
    chars_of, lowercase_of, push_str, str_eq, string_from_chars, to_lowercase, trim_end_char,
    trim_end_char_spec,
};

verus! {

/// The URL a request goes to at a back end: the back end's URL without trailing
/// `/`s, then the request's path and query (`/` when it has none).
pub open spec fn target_url_spec(base: Seq<char>, path_and_query: Option<Seq<char>>) -> Seq<char> {
    trim_end_char_spec(base, '/') + match path_and_query {
        Some(pq) => pq,
        None => "/"@,
    }
}

/// The URL a request goes to at the back end `base`.
pub fn target_url(base: &str, path_and_query: Option<&str>) -> (r: String)
    ensures
        r@ == target_url_spec(
            base@,
            match path_and_query {
                Some(pq) => Some(pq@),
                None => None,
            },
        ),
{
    let b = chars_of(base);
    let t = trim_end_char(b.as_slice(), '/');
    let mut out = string_from_chars(t.as_slice());
    match path_and_query {
        Some(pq) => push_str(&mut out, pq),
        None => push_str(&mut out, "/"),
    }
    out
}

/// The headers that concern one connection only, and are not passed on.
pub open spec fn hop_by_hop(name: Seq<char>) -> bool {
    name == "connection"@ || name == "keep-alive"@ || name == "proxy-authenticate"@ || name
        == "proxy-authorization"@ || name == "te"@ || name == "trailers"@ || name
        == "transfer-encoding"@ || name == "upgrade"@
}

/// Whether a header name, in lower case, is hop-by-hop.
pub fn is_hop_by_hop(name: &str) -> (b: bool)
    ensures
        b == hop_by_hop(name@),
{
    str_eq(name, "connection") || str_eq(name, "keep-alive") || str_eq(name, "proxy-authenticate")
        || str_eq(name, "proxy-authorization") || str_eq(name, "te") || str_eq(name, "trailers")
        || str_eq(name, "transfer-encoding") || str_eq(name, "upgrade")
}

/// The headers passed on, in order: those whose name, in lower case, is not
/// hop-by-hop.
pub open spec fn passed_headers(h: Seq<(Seq<char>, Seq<u8>)>) -> Seq<(Seq<char>, Seq<u8>)> {
    h.filter(|p: (Seq<char>, Seq<u8>)| !hop_by_hop(lowercase_of(p.0)))
}

/// The view of a list of headers.
pub open spec fn header_views(h: Seq<(String, Vec<u8>)>) -> Seq<(Seq<char>, Seq<u8>)> {
    h.map_values(|p: (String, Vec<u8>)| (p.0@, p.1@))
}

/// The request headers passed on to a back end.
pub fn forward_headers(headers: &[(String, Vec<u8>)]) -> (r: Vec<(String, Vec<u8>)>)
    ensures
        header_views(r@) == passed_headers(header_views(headers@)),
{
    let mut out: Vec<(String, Vec<u8>)> = Vec::new();
    let n = headers.len();
    let mut i: usize = 0;
    while i < n
        invariant
            n == headers@.len(),
            i <= n,
            header_views(out@) == passed_headers(header_views(headers@).take(i as int)),
        decreases n - i,
    {
        let ghost before = out@;
        let ghost hv = header_views(headers@);
        assert(hv.take(i + 1).drop_last() =~= hv.take(i as int));
        assert(hv.take(i + 1).last() == hv[i as int]);
        let lower = to_lowercase(headers[i].0.as_str());
        assert(hv[i as int].0 == headers@[i as int].0@);
        proof {
            reveal(Seq::filter);
        }
        assert(passed_headers(hv.take(i + 1)) == if !hop_by_hop(lowercase_of(hv[i as int].0)) {
            passed_headers(hv.take(i as int)).push(hv[i as int])
        } else {
            passed_headers(hv.take(i as int))
        });
        if !is_hop_by_hop(lower.as_str()) {
            out.push((headers[i].0.clone(), headers[i].1.clone()));
            assert(header_views(out@) =~= header_views(before).push(hv[i as int]));
        }
        i += 1;
    }
    proof {
        assert(header_views(headers@).take(n as int) =~= header_views(headers@));
    }
    assert(header_views(out@) == passed_headers(header_views(headers@)));
    out
}

/// The view of a list of strings.
pub open spec fn texts(v: Seq<String>) -> Seq<Seq<char>> {
    v.map_values(|s: String| s@)
}

/// The `X-Forwarded-*` headers added for a request whose URI names `host`, with
/// the scheme `scheme` (`http` when it has none): `X-Forwarded-For` and
/// `X-Forwarded-Proto`, each when the location lists it; none without a host.
pub open spec fn forwarded_spec(wanted: Seq<Seq<char>>, host: Option<Seq<char>>, scheme: Option<Seq<char>>) -> Seq<(Seq<char>, Seq<char>)> {
    match host {
        None => Seq::empty(),
        Some(h) => {
            let a = if wanted.contains("X-Forwarded-For"@) {
                seq![("X-Forwarded-For"@, h)]
            } else {
                Seq::empty()
            };
            let b = if wanted.contains("X-Forwarded-Proto"@) {
                seq![
                    ("X-Forwarded-Proto"@, match scheme {
                        Some(s) => s,
                        None => "http"@,
                    }),
                ]
            } else {
                Seq::empty()
            };
            a + b
        },
    }
}

fn lists(v: &[String], s: &str) -> (b: bool)
    ensures
        b == texts(v@).contains(s@),
{
    let n = v.len();
    let mut i: usize = 0;
    while i < n
        invariant
            n == v@.len(),
            i <= n,
            forall|j: int| 0 <= j < i ==> #[trigger] v@[j]@ != s@,
        decreases n - i,
    {
        if str_eq(v[i].as_str(), s) {
            assert(texts(v@)[i as int] == s@);
            return true;
        }
        i += 1;
    }
    assert(!texts(v@).contains(s@)) by {
        if texts(v@).contains(s@) {
            let j = choose|j: int| 0 <= j < texts(v@).len() && texts(v@)[j] == s@;
            assert(v@[j]@ == s@);
        }
    }
    false
}

/// The view of a list of pairs of strings.
pub open spec fn pairs(v: Seq<(String, String)>) -> Seq<(Seq<char>, Seq<char>)> {
    v.map_values(|p: (String, String)| (p.0@, p.1@))
}

/// The `X-Forwarded-*` headers a location asks for.
pub fn forwarded_headers(proxy_headers: &[String], host: Option<&str>, scheme: Option<&str>) -> (r:
    Vec<(String, String)>)
    ensures
        pairs(r@) == forwarded_spec(
            texts(proxy_headers@),
            match host {
                Some(h) => Some(h@),
                None => None,
            },
            match scheme {
                Some(s) => Some(s@),
                None => None,
            },
        ),
{
    let mut out: Vec<(String, String)> = Vec::new();
    let h = match host {
        Some(h) => h,
        None => {
            return out;
        },
    };
    if lists(proxy_headers, "X-Forwarded-For") {
        out.push(("X-Forwarded-For".to_owned(), h.to_owned()));
    }
    if lists(proxy_headers, "X-Forwarded-Proto") {
        let sch: &str = match scheme {
            Some(s) => s,
            None => "http",
        };
        out.push(("X-Forwarded-Proto".to_owned(), sch.to_owned()));
    }
    assert(pairs(out@) =~= forwarded_spec(
        texts(proxy_headers@),
        Some(h@),
        match scheme {
            Some(s) => Some(s@),
            None => None,
        },
    ));
    out
}

} // verus!
