use vstd::prelude::*;
use vstd::string::*;
use crate::numbers::{spec_u64_string, u64_to_string};

verus! {

/// The ways a request can fail. Each failure is terminal for the request
/// that raised it; nothing is retried. A variant carries whatever a caller
/// needs to diagnose the failure: the hostname and timeout for a
/// resolution timeout, the offending line for a parse failure.
#[derive(Debug, PartialEq)]
pub enum HttpError {
    /// The request URL could not be parsed.
    BadURL,
    /// The parsed URL carries no usable path.
    BadPath,
    /// The parsed URL carries no usable host.
    BadDomain,
    /// Name resolution did not answer within the configured timeout.
    ResolveTimedOut { host: String, timeout_ms: u64 },
    /// Name resolution answered with a failure.
    ResolveFailed { host: String },
    /// Every candidate address refused the connection, or there was none.
    NoReachableAddress,
    /// The request bytes could not be written to the connection.
    WriteFailed,
    /// A line could not be read from the connection.
    ReadFailed,
    /// The status line held fewer than two space-delimited tokens.
    TooFewValues,
    /// The status line held more tokens than the parser accepts.
    TooManyValues,
    /// The status line carried an unrecognized version or status token.
    BadStatusLine(String),
    /// A header line carried no colon.
    MalformedHeader(String),
}

impl HttpError {
    /// A human-readable description of the failure.
    pub fn message(&self) -> (r: String)
        ensures
            self matches HttpError::BadURL ==> r@ == "bad url"@,
            self matches HttpError::BadPath ==> r@ == "bad path"@,
            self matches HttpError::BadDomain ==> r@ == "bad domain"@,
            self matches HttpError::ResolveTimedOut { host: h, timeout_ms: t } ==> r@
                == "Failed to resolve "@ + h@ + " after "@ + spec_u64_string(t as nat)
                + " milliseconds"@,
            self matches HttpError::ResolveFailed { host: h } ==> r@ == "bad address"@,
            self matches HttpError::NoReachableAddress ==> r@ == "could not establish connection"@,
            self matches HttpError::WriteFailed ==> r@ == "could not write request"@,
            self matches HttpError::ReadFailed ==> r@ == "couldnt read a line"@,
            self matches HttpError::TooFewValues ==> r@ == "Too few values"@,
            self matches HttpError::TooManyValues ==> r@ == "Too many values"@,
            self matches HttpError::BadStatusLine(l) ==> r@ == "Bad status line: "@ + l@,
            self matches HttpError::MalformedHeader(l) ==> r@ == "malformed HTTP header line: "@
                + l@,
    {
        match self {
            HttpError::BadURL => "bad url".to_owned(),
            HttpError::BadPath => "bad path".to_owned(),
            HttpError::BadDomain => "bad domain".to_owned(),
            HttpError::ResolveTimedOut { host, timeout_ms } => {
                let mut s = "Failed to resolve ".to_owned();
                s.append(host.as_str());
                s.append(" after ");
                let ms = u64_to_string(*timeout_ms);
                s.append(ms.as_str());
                s.append(" milliseconds");
                s
            },
            HttpError::ResolveFailed { host: _ } => "bad address".to_owned(),
            HttpError::NoReachableAddress => "could not establish connection".to_owned(),
            HttpError::WriteFailed => "could not write request".to_owned(),
            HttpError::ReadFailed => "couldnt read a line".to_owned(),
            HttpError::TooFewValues => "Too few values".to_owned(),
            HttpError::TooManyValues => "Too many values".to_owned(),
            HttpError::BadStatusLine(line) => {
                let mut s = "Bad status line: ".to_owned();
                s.append(line.as_str());
                s
            },
            HttpError::MalformedHeader(line) => {
                let mut s = "malformed HTTP header line: ".to_owned();
                s.append(line.as_str());
                s
            },
        }
    }
}

} // verus!
