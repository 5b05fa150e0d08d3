use vstd::prelude::*;
use vstd::string::*;
use crate::errors::HttpError;
use crate::multimap::{add_kv, spec_add_kv, Multimap};
use crate::numbers::{all_digits, spec_dec_value, parse_u16};
use crate::strutil::{
    lemma_find_props, lemma_trim_end, lemma_trim_start, spec_find, str_eq, trim_end_spaces,
    trim_start_ws,
};

verus! {

/// A parsed response: status code, protocol version, reason phrase and
/// header multimap. The unread body stays with the connection that the
/// caller reads on; it is not part of this value.
#[derive(Debug)]
pub struct Response {
    pub status: u16,
    pub status_description: String,
    pub version: u8,
    pub headers: Multimap,
}

/// The three version tokens the parser recognizes.
pub open spec fn is_version_token(v: Seq<char>) -> bool {
    v == "HTTP/0.9"@ || v == "HTTP/1.0"@ || v == "HTTP/1.1"@
}

/// The compact number for a recognized version token: major times ten
/// plus minor.
pub open spec fn spec_version_value(v: Seq<char>) -> u8 {
    if v == "HTTP/0.9"@ {
        9u8
    } else if v == "HTTP/1.0"@ {
        10u8
    } else {
        11u8
    }
}

/// Turn a protocol version token into its compact number. Anything but
/// the three exact tokens is refused, with the token handed back.
pub fn parse_version(httpvsn: &str) -> (r: Result<u8, HttpError>)
    ensures
        is_version_token(httpvsn@) ==> r == Ok::<u8, HttpError>(spec_version_value(httpvsn@)),
        !is_version_token(httpvsn@) ==> (r matches Err(HttpError::BadStatusLine(t)) && t@
            == httpvsn@),
{
    if str_eq(httpvsn, "HTTP/0.9") {
        Ok(9)
    } else if str_eq(httpvsn, "HTTP/1.0") {
        Ok(10)
    } else if str_eq(httpvsn, "HTTP/1.1") {
        Ok(11)
    } else {
        Err(HttpError::BadStatusLine(httpvsn.to_owned()))
    }
}

/// Whether a line read from the connection ends the header block.
pub fn is_last(c: &String) -> (r: bool)
    ensures
        r == (c@ == "\r\n"@ || c@ == "\n"@),
{
    let s: &str = c.as_str();
    str_eq(s, "\r\n") || str_eq(s, "\n")
}

/// Split a status line into version number, status code and reason
/// phrase. The line splits at its first space; the remainder splits at
/// its own first space; a missing second part is too few values, an
/// unrecognized version token or a non-numeric status is a bad status
/// line. The offending text carried by the error is the version token
/// when the version is at fault, the whole line when the status is.
pub fn parse_topline(topline: &str) -> (r: Result<(u8, u16, String), HttpError>)
    ensures
        ({
            let s = topline@;
            let i1 = spec_find(s, ' ');
            if i1 == -1 {
                r matches Err(HttpError::TooFewValues)
            } else {
                let v = s.subrange(0, i1);
                let rest = s.subrange(i1 + 1, s.len() as int);
                let i2 = spec_find(rest, ' ');
                let st = if i2 == -1 {
                    rest
                } else {
                    rest.subrange(0, i2)
                };
                let reason = if i2 == -1 {
                    Seq::<char>::empty()
                } else {
                    rest.subrange(i2 + 1, rest.len() as int)
                };
                if !is_version_token(v) {
                    r matches Err(HttpError::BadStatusLine(t)) && t@ == v
                } else if !(st.len() > 0 && all_digits(st) && spec_dec_value(st) <= u16::MAX) {
                    r matches Err(HttpError::BadStatusLine(t)) && t@ == s
                } else {
                    r matches Ok(p) && p.0 == spec_version_value(v) && p.1 == spec_dec_value(st)
                        && p.2@ == reason
                }
            }
        }),
{
    let n = topline.unicode_len();
    let i1 = match crate::strutil::find_char(topline, ' ') {
        Some(i) => i,
        None => {
            return Err(HttpError::TooFewValues);
        },
    };
    proof {
        lemma_find_props(topline@, ' ');
    }
    let vsn_str = topline.substring_char(0, i1);
    let rest = topline.substring_char(i1 + 1, n);
    let i2 = crate::strutil::find_char(rest, ' ');
    proof {
        lemma_find_props(rest@, ' ');
    }
    let (status_str, reason): (&str, &str) = match i2 {
        Some(i) => (rest.substring_char(0, i), rest.substring_char(i + 1, rest.unicode_len())),
        None => (rest, ""),
    };
    proof {
        reveal_strlit("");
        assert(""@ =~= Seq::<char>::empty());
    }
    let vsn = match parse_version(vsn_str) {
        Ok(vsn) => vsn,
        Err(e) => {
            return Err(e);
        },
    };
    let status = match parse_u16(status_str) {
        Some(status) => status,
        None => {
            return Err(HttpError::BadStatusLine(topline.to_owned()));
        },
    };
    Ok((vsn, status, reason.to_owned()))
}

/// Whether a line is the header-block terminator.
pub open spec fn is_terminator(l: Seq<char>) -> bool {
    l == "\r\n"@ || l == "\n"@
}

/// The key of a header line with a colon: everything before the first
/// colon, trailing spaces trimmed.
pub open spec fn spec_header_key(l: Seq<char>) -> Seq<char> {
    trim_end_spaces(l.subrange(0, spec_find(l, ':')))
}

/// The value of a header line with a colon: everything after the first
/// colon, leading spaces and tabs trimmed.
pub open spec fn spec_header_value(l: Seq<char>) -> Seq<char> {
    trim_start_ws(l.subrange(spec_find(l, ':') + 1, l.len() as int))
}

/// Split one header line at its first colon into trimmed key and value.
/// A line without a colon is malformed and handed back in the error.
pub fn parse_header_line(line: &str) -> (r: Result<(String, String), HttpError>)
    ensures
        spec_find(line@, ':') != -1 ==> (r matches Ok(kv) && kv.0@ == spec_header_key(line@)
            && kv.1@ == spec_header_value(line@)),
        spec_find(line@, ':') == -1 ==> (r matches Err(HttpError::MalformedHeader(l)) && l@
            == line@),
{
    let n = line.unicode_len();
    let i = match crate::strutil::find_char(line, ':') {
        Some(i) => i,
        None => {
            return Err(HttpError::MalformedHeader(line.to_owned()));
        },
    };
    proof {
        lemma_find_props(line@, ':');
    }
    // scan back over trailing spaces of the key part
    let mut end_key: usize = i;
    while end_key > 0 && line.get_char(end_key - 1) == ' '
        invariant
            0 <= end_key <= i < n == line@.len(),
            forall|t: int| end_key <= t < i ==> line@[t] == ' ',
        decreases end_key,
    {
        end_key -= 1;
    }
    let key = line.substring_char(0, end_key);
    proof {
        let kp = line@.subrange(0, i as int);
        assert(forall|t: int| end_key <= t < kp.len() ==> kp[t] == line@[t]);
        assert(end_key == 0 || kp[end_key - 1] != ' ');
        lemma_trim_end(kp, end_key as int);
        assert(kp.subrange(0, end_key as int) =~= line@.subrange(0, end_key as int));
    }
    // scan forward over leading blanks of the value part
    let mut start_val: usize = i + 1;
    while start_val < n && (line.get_char(start_val) == ' ' || line.get_char(start_val) == '\t')
        invariant
            i + 1 <= start_val <= n == line@.len(),
            forall|t: int| i + 1 <= t < start_val ==> line@[t] == ' ' || line@[t] == '\t',
        decreases n - start_val,
    {
        start_val += 1;
    }
    let value = line.substring_char(start_val, n);
    proof {
        let vp = line@.subrange(i as int + 1, n as int);
        assert(forall|t: int| 0 <= t < start_val - i - 1 ==> vp[t] == line@[t + i + 1]);
        assert forall|t: int| 0 <= t < start_val - i - 1 implies vp[t] == ' ' || vp[t] == '\t' by {
            assert(vp[t] == line@[t + i + 1]);
        }
        assert(start_val - i - 1 == vp.len() || !(vp[start_val - i - 1] == ' ' || vp[start_val - i
            - 1] == '\t'));
        lemma_trim_start(vp, start_val - i - 1);
        assert(vp.subrange(start_val - i - 1, vp.len() as int) =~= line@.subrange(
            start_val as int,
            n as int,
        ));
    }
    Ok((key.to_owned(), value.to_owned()))
}

/// What parsing a header block yields.
pub enum HeaderOutcome {
    /// The terminator was reached; these are the headers before it.
    Parsed { headers: Seq<(Seq<char>, Seq<Seq<char>>)> },
    /// A line without a colon was reached.
    Malformed { line: Seq<char> },
    /// The lines ran out before any terminator.
    Truncated,
}

/// Parse header lines in order, adding each key and value to the map,
/// until the terminator line; repeated keys append, in order.
pub open spec fn spec_parse_headers(
    acc: Seq<(Seq<char>, Seq<Seq<char>>)>,
    lines: Seq<Seq<char>>,
) -> HeaderOutcome
    decreases lines.len(),
{
    if lines.len() == 0 {
        HeaderOutcome::Truncated
    } else if is_terminator(lines[0]) {
        HeaderOutcome::Parsed { headers: acc }
    } else if spec_find(lines[0], ':') == -1 {
        HeaderOutcome::Malformed { line: lines[0] }
    } else {
        spec_parse_headers(
            spec_add_kv(acc, spec_header_key(lines[0]), spec_header_value(lines[0])),
            lines.drop_first(),
        )
    }
}

/// Parse a header block from the lines read off the connection, the
/// terminator line included. Each line before the terminator is split
/// at its first colon; repeated keys append to the key's value list.
/// A line without a colon is a malformed header; lines running out
/// before a terminator is a read failure, as on a closed connection.
pub fn parse_response_headers(lines: &Vec<String>) -> (r: Result<Multimap, HttpError>)
    ensures
        ({
            match spec_parse_headers(Seq::empty(), lines.deep_view()) {
                HeaderOutcome::Parsed { headers } => r matches Ok(h) && h@ == headers,
                HeaderOutcome::Malformed { line } => r matches Err(HttpError::MalformedHeader(l))
                    && l@ == line,
                HeaderOutcome::Truncated => r matches Err(HttpError::ReadFailed),
            }
        }),
{
    let ghost all = lines.deep_view();
    let mut response_headers = Multimap::new();
    proof {
        assert(all.skip(0) =~= all);
    }
    let n = lines.len();
    let mut idx: usize = 0;
    while idx < n
        invariant
            0 <= idx <= n == lines@.len(),
            all == lines.deep_view(),
            spec_parse_headers(Seq::empty(), all) == spec_parse_headers(
                response_headers@,
                all.skip(idx as int),
            ),
        decreases n - idx,
    {
        let line = &lines[idx];
        proof {
            assert(all.skip(idx as int)[0] == all[idx as int]);
            assert(all[idx as int] == lines@[idx as int]@);
            assert(all.skip(idx as int).drop_first() =~= all.skip(idx as int + 1));
        }
        if is_last(line) {
            return Ok(response_headers);
        }
        match parse_header_line(line.as_str()) {
            Ok((key, value)) => {
                add_kv(&mut response_headers, key, value);
            },
            Err(e) => {
                return Err(e);
            },
        }
        idx += 1;
    }
    proof {
        assert(all.skip(n as int) =~= Seq::<Seq<char>>::empty());
    }
    Err(HttpError::ReadFailed)
}

} // verus!
