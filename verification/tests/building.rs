use rustc_serialize::json::Json;
use rustclient::body::{encode_body, get_body_contenttype};
use rustclient::builder::{build_request_head, prepare_from_parts, prepare_request, wire_headers};
use rustclient::errors::HttpError;
use rustclient::numbers::parse_u16;
use rustclient::{
    add_kv, get_port, map_to_vec, parse_response_headers, parse_url_parts, Body, Multimap,
    RequestOptions,
};

fn parts(raw: &str) -> rustclient::UrlParts {
    parse_url_parts(raw).unwrap()
}

#[test]
fn test_get_port() {
    let httpsuri = parts("https://api.twilio.com");
    assert_eq!(get_port(&httpsuri), 443);

    let httpsuriport = parts("https://api.twilio.com:5678");
    assert_eq!(get_port(&httpsuriport), 5678);

    let httpuriport = parts("http://api.twilio.com:5678");
    assert_eq!(get_port(&httpuriport), 5678);

    let httpuri = parts("http://api.twilio.com");
    assert_eq!(get_port(&httpuri), 80);
}

#[test]
fn test_parse_url_parts() {
    let p = parts("https://h.example:5678/a/b?x=1");
    assert_eq!(p.scheme, "https");
    assert_eq!(p.port, Some(5678));
    assert_eq!(p.host, "h.example");
    assert_eq!(p.path, "/a/b");
    assert_eq!(p.query, Some("x=1".to_string()));

    assert_eq!(
        parse_url_parts("not a url").unwrap_err(),
        HttpError::BadURL
    );
    assert_eq!(
        parse_url_parts("mailto:someone@example.com").unwrap_err(),
        HttpError::BadDomain
    );
}

#[test]
fn test_multimap_append_on_duplicate() {
    let mut m = Multimap::new();
    add_kv(&mut m, "Accept".to_string(), "text/html".to_string());
    add_kv(&mut m, "Accept".to_string(), "text/plain".to_string());
    add_kv(&mut m, "Host".to_string(), "h".to_string());
    assert_eq!(m.len(), 2);
    assert_eq!(
        m.get_values("Accept").unwrap(),
        &vec!["text/html".to_string(), "text/plain".to_string()]
    );
    assert_eq!(m.get_values("Host").unwrap(), &vec!["h".to_string()]);
    assert!(m.contains_key("Accept"));
    assert!(!m.contains_key("accept"));
}

#[test]
fn test_map_to_vec() {
    let mut m = Multimap::new();
    add_kv(&mut m, "a".to_string(), "1".to_string());
    add_kv(&mut m, "a".to_string(), "2".to_string());
    add_kv(&mut m, "b".to_string(), "3".to_string());
    let v = map_to_vec(m);
    assert_eq!(
        v,
        vec![
            ("a".to_string(), "1".to_string()),
            ("a".to_string(), "2".to_string()),
            ("b".to_string(), "3".to_string()),
        ]
    );
}

#[test]
fn test_default_options() {
    let ro = RequestOptions::default();
    assert_eq!(
        ro.headers.get_values("User-Agent").unwrap(),
        &vec!["rustclient/0.0.1".to_string()]
    );
    assert!(ro.verify);
    assert!(ro.data.is_none());
    assert!(ro.params.is_none());
    assert!(ro.auth.is_none());
    assert_eq!(ro.timeout_ms, 30000);
    assert_eq!(ro.connect_timeout_ms, 30000);
    assert_eq!(ro.dns_timeout_ms, 30000);
}

#[test]
fn test_encode_form_body() {
    let mut b = Multimap::new();
    add_kv(&mut b, "foo".to_string(), "bar".to_string());
    add_kv(&mut b, "baz".to_string(), "a b".to_string());
    let bytes = encode_body(Body::FormUrlEncoded(b));
    assert_eq!(bytes, b"foo=bar&baz=a+b".to_vec());
}

#[test]
fn test_encode_json_body() {
    let j = Json::from_str("{\"foo\": \"bar\", \"n\": 7}").unwrap();
    let bytes = encode_body(Body::JSON(j));
    assert_eq!(bytes, b"{\"foo\":\"bar\",\"n\":7}".to_vec());
}

#[test]
fn test_build_request_head() {
    let mut m = Multimap::new();
    add_kv(&mut m, "Host".to_string(), "h.example".to_string());
    let head = build_request_head("GET", "/a?x=1", &m);
    assert_eq!(head, "GET /a?x=1 HTTP/1.0\r\nHost: h.example\r\n\r\n");
}

#[test]
fn test_wire_headers_content_type_not_overridden() {
    let mut m = Multimap::new();
    add_kv(&mut m, "Content-Type".to_string(), "text/csv".to_string());
    let out = wire_headers(m, Some("application/json"), None);
    assert_eq!(
        out.get_values("Content-Type").unwrap(),
        &vec!["text/csv".to_string()]
    );
}

#[test]
fn test_wire_headers_content_length_overridden() {
    let mut m = Multimap::new();
    add_kv(&mut m, "Content-Length".to_string(), "999".to_string());
    let out = wire_headers(m, None, Some(7));
    assert_eq!(
        out.get_values("Content-Length").unwrap(),
        &vec!["7".to_string()]
    );
}

#[test]
fn test_content_length_round_trip() {
    let mut b = Multimap::new();
    add_kv(&mut b, "foo".to_string(), "bar baz".to_string());
    let ro = RequestOptions {
        data: Some(Body::FormUrlEncoded(b)),
        ..RequestOptions::default()
    };
    let p = prepare_from_parts("POST", parts("http://h.example/submit"), ro);
    // re-parse the head's header block with the response parser
    let mut lines: Vec<String> = Vec::new();
    for line in p.head.split_inclusive("\r\n").skip(1) {
        lines.push(line.to_string());
    }
    let headers = parse_response_headers(&lines).unwrap();
    let cl = headers.get_values("Content-Length").unwrap();
    let digits = cl[0].trim_end_matches("\r\n");
    assert_eq!(
        parse_u16(digits),
        Some(u16::try_from(p.body.len()).unwrap())
    );
    assert_eq!(p.body, b"foo=bar+baz".to_vec());
    assert_eq!(digits, "11");
}

#[test]
fn test_prepare_request_get() {
    let ro = RequestOptions::default();
    let p = prepare_request("GET", "http://api.twilio.com", ro).unwrap();
    assert_eq!(p.host, "api.twilio.com");
    assert!(!p.host_is_ip);
    assert_eq!(p.host_addr, None);
    assert_eq!(p.port, 80);
    assert_eq!(
        p.head,
        "GET / HTTP/1.0\r\nUser-Agent: rustclient/0.0.1\r\n\r\n"
    );
    assert!(p.body.is_empty());
    assert_eq!(p.connect_timeout_ms, 30000);
    assert_eq!(p.dns_timeout_ms, 30000);
}

#[test]
fn test_prepare_request_ip_host() {
    let ro = RequestOptions::default();
    let p = prepare_request("GET", "http://96.126.98.124", ro).unwrap();
    assert_eq!(p.host, "96.126.98.124");
    assert!(p.host_is_ip);
    assert_eq!(
        p.host_addr,
        Some(rustclient::IpAddress::V4(96, 126, 98, 124))
    );
    assert_eq!(p.port, 80);
}

#[test]
fn test_prepare_request_bad_url() {
    let ro = RequestOptions::default();
    let e = prepare_request("GET", "::::", ro).unwrap_err();
    assert_eq!(e, HttpError::BadURL);
    assert_eq!(e.message(), "bad url");
}

#[test]
fn test_get_body_contenttype() {
    let mut b = Multimap::new();
    add_kv(&mut b, "foo".to_string(), "bar".to_string());
    assert_eq!(
        get_body_contenttype(&Some(Body::FormUrlEncoded(b))),
        Some("application/x-www-formurlencoded")
    );
    let j = Json::from_str("null").unwrap();
    assert_eq!(
        get_body_contenttype(&Some(Body::JSON(j))),
        Some("application/json")
    );
    assert_eq!(get_body_contenttype(&None), None);
}

#[test]
fn test_prepare_request_json_body() {
    let j = Json::from_str("{\"a\": 1}").unwrap();
    let ro = RequestOptions {
        data: Some(Body::JSON(j)),
        ..RequestOptions::default()
    };
    let p = prepare_request("PUT", "https://h.example/x", ro).unwrap();
    assert_eq!(p.port, 443);
    assert_eq!(p.body, b"{\"a\":1}".to_vec());
    assert!(p.head.contains("Content-Type: application/json\r\n"));
    assert!(p.head.contains("Content-Length: 7\r\n"));
    assert!(p.head.starts_with("PUT /x HTTP/1.0\r\n"));
    assert!(p.head.ends_with("\r\n\r\n"));
}

#[test]
fn test_prepare_request_query() {
    let ro = RequestOptions::default();
    let p = prepare_request("GET", "http://h.example/p?a=1&b=2", ro).unwrap();
    assert!(p.head.starts_with("GET /p?a=1&b=2 HTTP/1.0\r\n"));
}

#[test]
fn test_parse_u16_values() {
    assert_eq!(parse_u16("0"), Some(0));
    assert_eq!(parse_u16("301"), Some(301));
    assert_eq!(parse_u16("65535"), Some(65535));
    assert_eq!(parse_u16("65536"), None);
    assert_eq!(parse_u16(""), None);
    assert_eq!(parse_u16("12a"), None);
    assert_eq!(parse_u16(" 1"), None);
}
