use vstd::prelude::*;
use vstd::string::*;
use crate::errors::HttpError;
use crate::strutil::str_eq;

verus! {

#[verifier::external_type_specification]
#[verifier::external_body]
pub struct ExUrl(url::Url);

/// The parts of a request URL that this client reads, as plain values:
/// scheme, explicit port if one was written, host text, path, query.
#[derive(Debug)]
pub struct UrlParts {
    pub scheme: String,
    pub port: Option<u16>,
    pub host: String,
    pub path: String,
    pub query: Option<String>,
}

/// What parsing URL text can come to: the parts, a parsed URL without
/// a host, or text that is no absolute URL at all.
pub enum UrlOutcome {
    Parsed(UrlParts),
    NoHost,
    Unparsable,
}

/// Whether the text parses as an absolute URL.
pub uninterp spec fn url_parses(s: Seq<char>) -> bool;

/// Whether the parsed URL has a host. Meaningful where `url_parses`.
pub uninterp spec fn url_has_host_of(s: Seq<char>) -> bool;

/// The scheme of the parsed URL, lowercased.
pub uninterp spec fn url_scheme_of(s: Seq<char>) -> Seq<char>;

/// The port written in the URL text; a scheme's default port counts
/// as not written.
pub uninterp spec fn url_port_of(s: Seq<char>) -> Option<u16>;

/// The host text of the parsed URL.
pub uninterp spec fn url_host_of(s: Seq<char>) -> Seq<char>;

/// The path of the parsed URL.
pub uninterp spec fn url_path_of(s: Seq<char>) -> Seq<char>;

/// The query string of the parsed URL, without its `?`, if one is
/// there.
pub uninterp spec fn url_query_of(s: Seq<char>) -> Option<Seq<char>>;

/// Relies on url::Url::parse and the accessors scheme, port, host_str,
/// path and query of the parsed URL: each is a function of the URL
/// text alone, and none panics. The outcomes are disjoint: parse
/// failure, a parsed URL without a host, or every part as plain
/// values.
#[verifier::external_body]
fn parse_url_fields(raw_url: &str) -> (r: UrlOutcome)
    ensures
        !url_parses(raw_url@) ==> r matches UrlOutcome::Unparsable,
        url_parses(raw_url@) && !url_has_host_of(raw_url@) ==> r matches UrlOutcome::NoHost,
        r matches UrlOutcome::Unparsable ==> !url_parses(raw_url@),
        r matches UrlOutcome::NoHost ==> url_parses(raw_url@) && !url_has_host_of(raw_url@),
        r matches UrlOutcome::Parsed(p) ==> url_parses(raw_url@) && url_has_host_of(raw_url@)
            && p.scheme@ == url_scheme_of(raw_url@) && p.port == url_port_of(raw_url@)
            && p.host@ == url_host_of(raw_url@) && p.path@ == url_path_of(raw_url@) && (
        p.query matches Some(q) ==> url_query_of(raw_url@) == Some(q@)) && (p.query is None
            ==> url_query_of(raw_url@) is None),
{
    let u = match url::Url::parse(raw_url) {
        Err(_) => return UrlOutcome::Unparsable,
        Ok(u) => u,
    };
    let host = match u.host_str() {
        None => return UrlOutcome::NoHost,
        Some(h) => h.to_string(),
    };
    UrlOutcome::Parsed(UrlParts {
        scheme: u.scheme().to_string(),
        port: u.port(),
        host,
        path: u.path().to_string(),
        query: u.query().map(str::to_string),
    })
}

/// How a parts value relates to the URL text it was read from.
pub open spec fn parts_of_url(raw: Seq<char>, p: UrlParts) -> bool {
    &&& p.scheme@ == url_scheme_of(raw)
    &&& p.port == url_port_of(raw)
    &&& p.host@ == url_host_of(raw)
    &&& p.path@ == url_path_of(raw)
    &&& (p.query matches Some(q) ==> url_query_of(raw) == Some(q@))
    &&& (p.query is None ==> url_query_of(raw) is None)
}

/// Parse URL text into the parts this client works on. Success comes
/// exactly when the text parses as an absolute URL with a host; text
/// that does not parse is a bad URL, and a host-less URL, such as a
/// data or mailto URL, is a bad domain.
pub fn parse_url_parts(raw_url: &str) -> (r: Result<UrlParts, HttpError>)
    ensures
        r is Ok <==> url_parses(raw_url@) && url_has_host_of(raw_url@),
        r matches Ok(p) ==> parts_of_url(raw_url@, p),
        !url_parses(raw_url@) ==> r == Err::<UrlParts, HttpError>(HttpError::BadURL),
        url_parses(raw_url@) && !url_has_host_of(raw_url@) ==> r == Err::<UrlParts, HttpError>(
            HttpError::BadDomain,
        ),
{
    match parse_url_fields(raw_url) {
        UrlOutcome::Parsed(p) => Ok(p),
        UrlOutcome::NoHost => Err(HttpError::BadDomain),
        UrlOutcome::Unparsable => Err(HttpError::BadURL),
    }
}

/// The port a request to this URL goes to: the explicit port when one
/// was written, else 443 for the secure scheme, else 80.
pub fn get_port(url: &UrlParts) -> (r: u16)
    ensures
        url.port matches Some(p) ==> r == p,
        url.port is None && url.scheme@ == "https"@ ==> r == 443,
        url.port is None && url.scheme@ != "https"@ ==> r == 80,
{
    match url.port {
        Some(port) => port,
        None => {
            if str_eq(url.scheme.as_str(), "https") {
                443
            } else {
                80
            }
        },
    }
}

/// The path with the query appended after `?`, when there is a query.
pub fn full_path(parts: &UrlParts) -> (r: String)
    ensures
        parts.query matches Some(q) ==> r@ == parts.path@ + "?"@ + q@,
        parts.query is None ==> r@ == parts.path@,
{
    match &parts.query {
        Some(q) => {
            let mut s = parts.path.clone();
            s.append("?");
            s.append(q.as_str());
            s
        },
        None => parts.path.clone(),
    }
}

} // verus!
