pub mod body;
pub mod builder;
pub mod errors;
pub mod ip;
pub mod multimap;
pub mod numbers;
pub mod options;
pub mod resolver;
pub mod status;
pub mod strutil;
pub mod urlinfo;

pub use body::Body;
pub use builder::{
    build_request_head, prepare_from_parts, prepare_request, wire_headers, PreparedRequest,
};
pub use errors::HttpError;
pub use ip::{domain_is_ipaddr, parse_ip_literal};
pub use multimap::{add_kv, map_to_vec, set_kv, Multimap};
pub use options::RequestOptions;
pub use resolver::{
    connect_failed, connect_init, connect_next, first_reachable, resolve_outcome, ConnectAction,
    ConnectState, IpAddress, ResolveEvent,
};
pub use status::{is_last, parse_response_headers, parse_topline, parse_version, Response};
pub use strutil::{str_eq, trim_crlf};
pub use urlinfo::{get_port, parse_url_parts, UrlParts};
