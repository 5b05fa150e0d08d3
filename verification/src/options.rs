use vstd::prelude::*;
use vstd::string::*;
use crate::body::Body;
use crate::multimap::{add_kv, Multimap};

verus! {

/// Per-request configuration. A value is made once for a request and
/// not shared; the verb entry points derive a copy with `data` set.
/// The three timeouts are independent: the whole request, one connect
/// attempt, and the name lookup, each in milliseconds. `verify` asks
/// for TLS certificate verification; this core carries the flag but
/// does not implement TLS.
pub struct RequestOptions {
    pub headers: Multimap,
    pub verify: bool,
    pub data: Option<Body>,
    pub params: Option<Multimap>,
    pub auth: Option<Vec<String>>,
    pub timeout_ms: u64,
    pub connect_timeout_ms: u64,
    pub dns_timeout_ms: u64,
}

impl Default for RequestOptions {
    /// The defaults: one User-Agent header naming this client, TLS
    /// verification on, no body, no params, no auth, thirty seconds
    /// for each timeout.
    fn default() -> (r: RequestOptions)
        ensures
            r.headers@ == seq![("User-Agent"@, seq!["rustclient/0.0.1"@])],
            r.verify == true,
            r.data is None,
            r.params is None,
            r.auth is None,
            r.timeout_ms == 30000,
            r.connect_timeout_ms == 30000,
            r.dns_timeout_ms == 30000,
    {
        let mut h = Multimap::new();
        add_kv(&mut h, "User-Agent".to_owned(), "rustclient/0.0.1".to_owned());
        proof {
            assert(h@ =~= seq![("User-Agent"@, seq!["rustclient/0.0.1"@])]);
        }
        RequestOptions {
            headers: h,
            verify: true,
            data: None,
            params: None,
            auth: None,
            timeout_ms: 30000,
            connect_timeout_ms: 30000,
            dns_timeout_ms: 30000,
        }
    }
}

} // verus!
