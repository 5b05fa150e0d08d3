use vstd::prelude::*;
use vstd::string::*;
use crate::body::{encode_body, form_encoded_of, get_body_contenttype, Body};
use crate::errors::HttpError;
use crate::ip::{domain_is_ipaddr, is_ipv4_literal, is_ipv6_literal, parse_ip_literal, spec_ip_of};
use crate::resolver::IpAddress;
use crate::multimap::{
    add_kv, set_kv, spec_add_kv, spec_contains, spec_flatten, spec_get, spec_set_kv, Multimap,
};
use crate::numbers::{
    all_digits, lemma_u64_string_value, spec_dec_value, spec_u64_string, u64_to_string,
};
use crate::options::RequestOptions;
use crate::urlinfo::{
    full_path, get_port, parse_url_parts, url_has_host_of, url_host_of, url_parses, url_path_of,
    url_port_of, url_query_of, url_scheme_of, UrlParts,
};

verus! {

/// The header lines one entry contributes: one `key: value` line per
/// value, in order.
pub open spec fn spec_value_lines(k: Seq<char>, vs: Seq<Seq<char>>) -> Seq<char>
    decreases vs.len(),
{
    if vs.len() == 0 {
        Seq::empty()
    } else {
        spec_value_lines(k, vs.drop_last()) + k + ": "@ + vs.last() + "\r\n"@
    }
}

/// The whole header block: each entry's lines, in entry order.
pub open spec fn spec_header_lines(m: Seq<(Seq<char>, Seq<Seq<char>>)>) -> Seq<char>
    decreases m.len(),
{
    if m.len() == 0 {
        Seq::empty()
    } else {
        spec_header_lines(m.drop_last()) + spec_value_lines(m.last().0, m.last().1)
    }
}

/// A whole request head: the request line with the fixed protocol
/// version, the header block, and the blank line that ends it.
pub open spec fn spec_request_head(
    method: Seq<char>,
    path: Seq<char>,
    m: Seq<(Seq<char>, Seq<Seq<char>>)>,
) -> Seq<char> {
    method + " "@ + path + " HTTP/1.0\r\n"@ + spec_header_lines(m) + "\r\n"@
}

/// The headers that go on the wire, derived from the caller's: a
/// Content-Type from the body's kind is added only when the caller set
/// none; Content-Length is set from the body's exact byte count,
/// overriding any caller-supplied value.
pub open spec fn spec_wire_headers(
    m: Seq<(Seq<char>, Seq<Seq<char>>)>,
    ctype: Option<Seq<char>>,
    body_len: Option<nat>,
) -> Seq<(Seq<char>, Seq<Seq<char>>)> {
    let m1 = match ctype {
        Some(c) => if !spec_contains(m, "Content-Type"@) {
            spec_add_kv(m, "Content-Type"@, c)
        } else {
            m
        },
        None => m,
    };
    match body_len {
        Some(n) => spec_set_kv(m1, "Content-Length"@, spec_u64_string(n)),
        None => m1,
    }
}

/// The Content-Type value a body kind calls for.
pub open spec fn spec_body_ctype(data: Option<Body>) -> Option<Seq<char>> {
    match data {
        None => None,
        Some(Body::FormUrlEncoded(_)) => Some("application/x-www-formurlencoded"@),
        Some(Body::JSON(_)) => Some("application/json"@),
    }
}

/// Serialize the header block of a multimap, entry by entry, one line
/// per value.
fn build_header_lines(headers: &Multimap) -> (r: String)
    ensures
        r@ == spec_header_lines(headers@),
{
    let mut out = String::new();
    proof {
        assert(out@ =~= Seq::<char>::empty());
        assert(headers@.take(0) =~= Seq::<(Seq<char>, Seq<Seq<char>>)>::empty());
    }
    let n = headers.entries.len();
    let mut i: usize = 0;
    while i < n
        invariant
            0 <= i <= n,
            n == headers.entries@.len(),
            n == headers@.len(),
            out@ == spec_header_lines(headers@.take(i as int)),
        decreases n - i,
    {
        let key = &headers.entries[i].0;
        let vals = &headers.entries[i].1;
        let vn = vals.len();
        let mut j: usize = 0;
        proof {
            assert(headers@[i as int].0 == headers.entries@[i as int].0@);
            assert(headers@[i as int].1.take(0) =~= Seq::<Seq<char>>::empty());
        }
        while j < vn
            invariant
                0 <= j <= vn,
                0 <= i < n,
                n == headers.entries@.len(),
                n == headers@.len(),
                vn == headers@[i as int].1.len(),
                key@ == headers@[i as int].0,
                vals@.len() == vn,
                vals == &headers.entries@[i as int].1,
                out@ == spec_header_lines(headers@.take(i as int)) + spec_value_lines(
                    headers@[i as int].0,
                    headers@[i as int].1.take(j as int),
                ),
            decreases vn - j,
        {
            out.append(key.as_str());
            out.append(": ");
            out.append(vals[j].as_str());
            out.append("\r\n");
            proof {
                let e = headers@[i as int];
                let tk = e.1.take(j as int + 1);
                assert(tk.drop_last() =~= e.1.take(j as int));
                assert(tk.last() == e.1[j as int]);
                assert(e.1[j as int] == headers.entries@[i as int].1.deep_view()[j as int]);
                assert(e.1[j as int] == vals@[j as int]@);
                assert(spec_value_lines(e.0, tk) == spec_value_lines(e.0, e.1.take(j as int)) + e.0
                    + ": "@ + e.1[j as int] + "\r\n"@);
            }
            j += 1;
        }
        proof {
            let tk = headers@.take(i as int + 1);
            assert(tk.drop_last() =~= headers@.take(i as int));
            assert(tk.last() == headers@[i as int]);
            assert(headers@[i as int].1.take(vn as int) =~= headers@[i as int].1);
            assert(spec_header_lines(tk) == spec_header_lines(headers@.take(i as int))
                + spec_value_lines(headers@[i as int].0, headers@[i as int].1));
        }
        i += 1;
    }
    proof {
        assert(headers@.take(n as int) =~= headers@);
    }
    out
}

/// Serialize a whole request head: request line, header block, blank
/// line. The protocol version on the wire is always 1.0.
pub fn build_request_head(method: &str, path: &str, headers: &Multimap) -> (r: String)
    ensures
        r@ == spec_request_head(method@, path@, headers@),
{
    let mut out = String::new();
    proof {
        assert(out@ =~= Seq::<char>::empty());
    }
    out.append(method);
    out.append(" ");
    out.append(path);
    out.append(" HTTP/1.0\r\n");
    let lines = build_header_lines(headers);
    out.append(lines.as_str());
    out.append("\r\n");
    out
}

/// Derive the headers that go on the wire from the caller's headers
/// and what is known of the body.
pub fn wire_headers(headers: Multimap, ctype: Option<&str>, body_len: Option<u64>) -> (r: Multimap)
    ensures
        r@ == spec_wire_headers(
            headers@,
            match ctype {
                Some(c) => Some(c@),
                None => None,
            },
            match body_len {
                Some(n) => Some(n as nat),
                None => None,
            },
        ),
{
    let mut hdrs = headers;
    match ctype {
        Some(c) => {
            if !hdrs.contains_key("Content-Type") {
                add_kv(&mut hdrs, "Content-Type".to_owned(), c.to_owned());
            }
        },
        None => {},
    }
    match body_len {
        Some(n) => {
            set_kv(&mut hdrs, "Content-Length".to_owned(), u64_to_string(n));
        },
        None => {},
    }
    hdrs
}

/// After setting a key, reading it back gives exactly the one value.
proof fn lemma_set_get(m: Seq<(Seq<char>, Seq<Seq<char>>)>, k: Seq<char>, v: Seq<char>)
    ensures
        spec_get(spec_set_kv(m, k, v), k) == Some(seq![v]),
    decreases m.len(),
{
    if m.len() == 0 {
        let r = spec_set_kv(m, k, v);
        assert(r[0] == (k, seq![v]));
    } else if m[0].0 == k {
        let r = spec_set_kv(m, k, v);
        assert(r[0] == (m[0].0, seq![v]));
    } else {
        lemma_set_get(m.drop_first(), k, v);
        let r = spec_set_kv(m, k, v);
        assert(r[0] == m[0]);
        assert(r.drop_first() =~= spec_set_kv(m.drop_first(), k, v));
    }
}

/// Law: build a request with a body, then read the Content-Length
/// header back and parse it as a decimal number; the result is exactly
/// the byte length of the serialized body, for every header map and
/// every body length.
pub proof fn lemma_content_length_round_trip(
    m: Seq<(Seq<char>, Seq<Seq<char>>)>,
    ctype: Option<Seq<char>>,
    n: nat,
)
    ensures
        spec_get(spec_wire_headers(m, ctype, Some(n)), "Content-Length"@) == Some(
            seq![spec_u64_string(n)],
        ),
        all_digits(spec_u64_string(n)),
        spec_dec_value(spec_u64_string(n)) == n,
{
    let m1 = match ctype {
        Some(c) => if !spec_contains(m, "Content-Type"@) {
            spec_add_kv(m, "Content-Type"@, c)
        } else {
            m
        },
        None => m,
    };
    lemma_set_get(m1, "Content-Length"@, spec_u64_string(n));
    lemma_u64_string_value(n);
}

/// Everything the pipeline needs once the URL is parsed and the body
/// is serialized: where to connect, what to send, which timeouts hold.
#[derive(Debug)]
pub struct PreparedRequest {
    pub host: String,
    pub host_is_ip: bool,
    pub host_addr: Option<IpAddress>,
    pub port: u16,
    pub head: String,
    pub body: Vec<u8>,
    pub connect_timeout_ms: u64,
    pub dns_timeout_ms: u64,
}

/// How a prepared request relates to the parts of its URL — scheme,
/// written port, host, path, query — and to the options it was made
/// from.
pub open spec fn spec_prepared(
    method: Seq<char>,
    scheme: Seq<char>,
    port: Option<u16>,
    host: Seq<char>,
    path: Seq<char>,
    query: Option<Seq<char>>,
    ro: RequestOptions,
    p: PreparedRequest,
) -> bool {
    let pathq = match query {
        Some(q) => path + "?"@ + q,
        None => path,
    };
    let body_len = match ro.data {
        Some(_) => Some(p.body@.len()),
        None => None,
    };
    &&& p.host@ == host
    &&& p.host_is_ip == (is_ipv4_literal(host) || is_ipv6_literal(host))
    &&& p.host_addr == spec_ip_of(host)
    &&& p.host_is_ip == (p.host_addr is Some)
    &&& (port matches Some(q) ==> p.port == q)
    &&& (port is None && scheme == "https"@ ==> p.port == 443)
    &&& (port is None && scheme != "https"@ ==> p.port == 80)
    &&& p.head@ == spec_request_head(
        method,
        pathq,
        spec_wire_headers(ro.headers@, spec_body_ctype(ro.data), body_len),
    )
    &&& (ro.data matches Some(Body::FormUrlEncoded(mm)) ==> p.body@ == form_encoded_of(
        spec_flatten(mm@),
    ))
    &&& (ro.data is None ==> p.body@ == Seq::<u8>::empty())
    &&& p.connect_timeout_ms == ro.connect_timeout_ms
    &&& p.dns_timeout_ms == ro.dns_timeout_ms
}

/// The query of a parts value, as a sequence of characters.
pub open spec fn spec_query_view(q: Option<String>) -> Option<Seq<char>> {
    match q {
        Some(s) => Some(s@),
        None => None,
    }
}

/// Assemble a request from parsed URL parts: derive the port, decide
/// whether the host is a literal address, serialize the body, fix the
/// wire headers, and lay out the head. This never fails: every parsed
/// URL with a host can be framed.
pub fn prepare_from_parts(method: &str, parts: UrlParts, ro: RequestOptions) -> (p:
    PreparedRequest)
    ensures
        spec_prepared(
            method@,
            parts.scheme@,
            parts.port,
            parts.host@,
            parts.path@,
            spec_query_view(parts.query),
            ro,
            p,
        ),
{
    let port = get_port(&parts);
    let host_is_ip = domain_is_ipaddr(parts.host.as_str());
    let host_addr = parse_ip_literal(parts.host.as_str());
    let pathq = full_path(&parts);
    let ctype = get_body_contenttype(&ro.data);
    let connect_timeout_ms = ro.connect_timeout_ms;
    let dns_timeout_ms = ro.dns_timeout_ms;
    let (body, body_len): (Vec<u8>, Option<u64>) = match ro.data {
        Some(b) => {
            let bytes = encode_body(b);
            let len = bytes.len() as u64;
            (bytes, Some(len))
        },
        None => (Vec::new(), None),
    };
    let hdrs = wire_headers(ro.headers, ctype, body_len);
    let head = build_request_head(method, pathq.as_str(), &hdrs);
    proof {
        if body_len is None {
            assert(body@ =~= Seq::<u8>::empty());
        }
    }
    PreparedRequest {
        host: parts.host,
        host_is_ip,
        host_addr,
        port,
        head,
        body,
        connect_timeout_ms,
        dns_timeout_ms,
    }
}

/// Parse the URL text and assemble the request. Success comes exactly
/// when the text parses as an absolute URL with a host: then the head,
/// port, host and body all follow from the text's named parts and the
/// options. Text that does not parse is a bad URL, a host-less URL a
/// bad domain; nothing else fails here.
pub fn prepare_request(method: &str, raw_url: &str, ro: RequestOptions) -> (r: Result<
    PreparedRequest,
    HttpError,
>)
    ensures
        r is Ok <==> url_parses(raw_url@) && url_has_host_of(raw_url@),
        r matches Ok(p) ==> spec_prepared(
            method@,
            url_scheme_of(raw_url@),
            url_port_of(raw_url@),
            url_host_of(raw_url@),
            url_path_of(raw_url@),
            url_query_of(raw_url@),
            ro,
            p,
        ),
        !url_parses(raw_url@) ==> r == Err::<PreparedRequest, HttpError>(HttpError::BadURL),
        url_parses(raw_url@) && !url_has_host_of(raw_url@) ==> r == Err::<
            PreparedRequest,
            HttpError,
        >(HttpError::BadDomain),
{
    let parts = match parse_url_parts(raw_url) {
        Ok(parts) => parts,
        Err(e) => {
            return Err(e);
        },
    };
    let ghost gparts = parts;
    let p = prepare_from_parts(method, parts, ro);
    proof {
        assert(spec_query_view(gparts.query) == url_query_of(raw_url@));
    }
    Ok(p)
}

} // verus!
