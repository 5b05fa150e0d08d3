use rustclient::errors::HttpError;
use rustclient::{
    is_last, parse_response_headers, parse_topline, parse_version, trim_crlf, Response,
};

#[test]
fn test_parse_version() {
    assert_eq!(parse_version("HTTP/0.9"), Ok(9));
    assert_eq!(parse_version("HTTP/1.0"), Ok(10));
    assert_eq!(parse_version("HTTP/1.1"), Ok(11));
    assert_eq!(
        parse_version(" HTTP/1.0").unwrap_err().message(),
        "Bad status line:  HTTP/1.0"
    );
    assert_eq!(
        parse_version("HTTP/1.5").unwrap_err().message(),
        "Bad status line: HTTP/1.5"
    );
    assert_eq!(parse_version("").unwrap_err().message(), "Bad status line: ");
}

#[test]
fn test_parse_topline() {
    assert_eq!(
        parse_topline("HTTP/1.1 301 Moved"),
        Ok((11, 301, "Moved".to_string()))
    );
    assert_eq!(
        parse_topline("HTTP/0.9 301 Moved Permanently"),
        Ok((9, 301, "Moved Permanently".to_string()))
    );
}

#[test]
fn test_parse_topline_errors() {
    assert_eq!(parse_topline("HTTP/1.1"), Err(HttpError::TooFewValues));
    assert_eq!(parse_topline(""), Err(HttpError::TooFewValues));
    assert_eq!(
        parse_topline("HTTP/2.0 200 OK"),
        Err(HttpError::BadStatusLine("HTTP/2.0".to_string()))
    );
    assert_eq!(
        parse_topline("HTTP/1.1 abc OK"),
        Err(HttpError::BadStatusLine("HTTP/1.1 abc OK".to_string()))
    );
    assert_eq!(
        parse_topline("HTTP/1.1 99999 OK"),
        Err(HttpError::BadStatusLine("HTTP/1.1 99999 OK".to_string()))
    );
    assert_eq!(parse_topline("HTTP/1.1 200"), Ok((11, 200, "".to_string())));
}

#[test]
fn test_is_last() {
    assert_eq!(is_last(&"\r\n".to_string()), true);
    assert_eq!(is_last(&"\n".to_string()), true);
    assert_eq!(is_last(&"foo".to_string()), false);
    assert_eq!(is_last(&"\n ".to_string()), false);
    assert_eq!(is_last(&" \n".to_string()), false);
}

#[test]
fn test_parse_response_headers() {
    let lines = vec![
        "Content-Type: text/html\r\n".to_string(),
        "Set-Cookie: a=1\r\n".to_string(),
        "Set-Cookie: b=2\r\n".to_string(),
        "\r\n".to_string(),
    ];
    let headers = parse_response_headers(&lines).unwrap();
    let ct = headers.get_values("Content-Type").unwrap();
    assert_eq!(ct, &vec!["text/html\r\n".to_string()]);
    let sc = headers.get_values("Set-Cookie").unwrap();
    assert_eq!(
        sc,
        &vec!["a=1\r\n".to_string(), "b=2\r\n".to_string()]
    );
    assert!(headers.get_values("Missing").is_none());
}

#[test]
fn test_parse_response_headers_trimming() {
    let lines = vec![
        "Key   :  \t value\n".to_string(),
        "\n".to_string(),
    ];
    let headers = parse_response_headers(&lines).unwrap();
    let vals = headers.get_values("Key").unwrap();
    assert_eq!(vals, &vec!["value\n".to_string()]);
}

#[test]
fn test_parse_response_headers_malformed() {
    let lines = vec!["no colon here\r\n".to_string(), "\r\n".to_string()];
    let err = parse_response_headers(&lines).unwrap_err();
    assert_eq!(err, HttpError::MalformedHeader("no colon here\r\n".to_string()));
    assert_eq!(
        err.message(),
        "malformed HTTP header line: no colon here\r\n"
    );
}

#[test]
fn test_parse_response_headers_truncated() {
    let lines = vec!["Content-Type: text/html\r\n".to_string()];
    assert_eq!(
        parse_response_headers(&lines).unwrap_err(),
        HttpError::ReadFailed
    );
}

#[test]
fn test_trim_crlf() {
    assert_eq!(trim_crlf("HTTP/1.1 200 OK\r\n"), "HTTP/1.1 200 OK");
    assert_eq!(trim_crlf("x\n"), "x");
    assert_eq!(trim_crlf("x"), "x");
    assert_eq!(trim_crlf("\r\n"), "");
    assert_eq!(trim_crlf("a\nb\r\n"), "a\nb");
}

#[test]
fn test_response_from_parsed_parts() {
    let (version, status, reason) = parse_topline("HTTP/1.0 404 Not Found").unwrap();
    let lines = vec!["Server: test\r\n".to_string(), "\r\n".to_string()];
    let headers = parse_response_headers(&lines).unwrap();
    let r = Response {
        status,
        status_description: reason,
        version,
        headers,
    };
    assert_eq!(r.status, 404);
    assert_eq!(r.status_description, "Not Found");
    assert_eq!(r.version, 10);
    assert_eq!(
        r.headers.get_values("Server").unwrap(),
        &vec!["test\r\n".to_string()]
    );
}

#[test]
fn test_error_messages() {
    assert_eq!(HttpError::BadURL.message(), "bad url");
    assert_eq!(HttpError::BadPath.message(), "bad path");
    assert_eq!(HttpError::BadDomain.message(), "bad domain");
    assert_eq!(
        HttpError::ResolveFailed {
            host: "api.twilio.com".to_string()
        }
        .message(),
        "bad address"
    );
    assert_eq!(
        HttpError::ResolveTimedOut {
            host: "api.twilio.com".to_string(),
            timeout_ms: 1500
        }
        .message(),
        "Failed to resolve api.twilio.com after 1500 milliseconds"
    );
    assert_eq!(HttpError::TooFewValues.message(), "Too few values");
    assert_eq!(HttpError::TooManyValues.message(), "Too many values");
}
