use crate::err::HttpError;
use crate::headers::{spec_get_ci, spec_insert, HeaderMap};
use crate::text::{
    bytes_eq, find_byte, parse_usize_bytes, seq_views, spec_find_byte, spec_lines,
    spec_parse_usize, spec_tokens, spec_trim, split_lines, split_tokens, trim_bytes, utf8_valid,
};
use vstd::prelude::*;
use vstd::string::StringSliceAdditionalSpecFns;

verus! {

/// A recognized HTTP request method.
#[derive(Clone, Copy, Debug, PartialEq, Eq, Structural)]
pub enum Method {
    Connect,
    Delete,
    Get,
    Head,
    Options,
    Patch,
    Post,
    Put,
    Trace,
}

/// The method a token names, if it matches one of the nine recognized
/// literals exactly.
pub open spec fn spec_method_of(tok: Seq<u8>) -> Option<Method> {
    if tok == "CONNECT".spec_bytes() {
        Some(Method::Connect)
    } else if tok == "DELETE".spec_bytes() {
        Some(Method::Delete)
    } else if tok == "GET".spec_bytes() {
        Some(Method::Get)
    } else if tok == "HEAD".spec_bytes() {
        Some(Method::Head)
    } else if tok == "OPTIONS".spec_bytes() {
        Some(Method::Options)
    } else if tok == "PATCH".spec_bytes() {
        Some(Method::Patch)
    } else if tok == "POST".spec_bytes() {
        Some(Method::Post)
    } else if tok == "PUT".spec_bytes() {
        Some(Method::Put)
    } else if tok == "TRACE".spec_bytes() {
        Some(Method::Trace)
    } else {
        None
    }
}

/// The method a token names, as [`spec_method_of`] describes.
pub fn method_of(tok: &[u8]) -> (r: Option<Method>)
    ensures
        r == spec_method_of(tok@),
{
    if bytes_eq(tok, "CONNECT".as_bytes()) {
        Some(Method::Connect)
    } else if bytes_eq(tok, "DELETE".as_bytes()) {
        Some(Method::Delete)
    } else if bytes_eq(tok, "GET".as_bytes()) {
        Some(Method::Get)
    } else if bytes_eq(tok, "HEAD".as_bytes()) {
        Some(Method::Head)
    } else if bytes_eq(tok, "OPTIONS".as_bytes()) {
        Some(Method::Options)
    } else if bytes_eq(tok, "PATCH".as_bytes()) {
        Some(Method::Patch)
    } else if bytes_eq(tok, "POST".as_bytes()) {
        Some(Method::Post)
    } else if bytes_eq(tok, "PUT".as_bytes()) {
        Some(Method::Put)
    } else if bytes_eq(tok, "TRACE".as_bytes()) {
        Some(Method::Trace)
    } else {
        None
    }
}

// ---------------------------------------------------------------------------
// Request targets
// ---------------------------------------------------------------------------

/// Length of the path component of an origin-form target: everything before
/// the first query (`?`) or fragment (`#`) delimiter.
pub open spec fn spec_path_len(t: Seq<u8>) -> nat
    decreases t.len(),
{
    if t.len() == 0 || t[0] == 63 || t[0] == 35 {
        0
    } else {
        1 + spec_path_len(t.drop_first())
    }
}

/// The path component never reaches past the end of the target.
pub proof fn lemma_path_len_le(t: Seq<u8>)
    ensures
        spec_path_len(t) <= t.len(),
    decreases t.len(),
{
    if t.len() > 0 && !(t[0] == 63 || t[0] == 35) {
        lemma_path_len_le(t.drop_first());
    }
}

/// The path component of a request target. Only origin-form targets — those
/// that begin with a slash — have one; the path is everything before the
/// first query or fragment delimiter.
pub open spec fn spec_target_path(t: Seq<u8>) -> Option<Seq<u8>> {
    if t.len() > 0 && t[0] == 47 {
        let stop = if spec_path_len(t) <= t.len() {
            spec_path_len(t) as int
        } else {
            t.len() as int
        };
        Some(t.subrange(0, stop))
    } else {
        None
    }
}

fn path_len_from(t: &[u8], i: usize) -> (r: usize)
    requires
        i <= t@.len(),
    ensures
        i <= r <= t@.len(),
        spec_path_len(t@.skip(i as int)) == r - i,
    decreases t@.len() - i,
{
    if i < t.len() {
        let b = t[i];
        if !(b == 63 || b == 35) {
            proof {
                assert(t@.skip(i as int).drop_first() =~= t@.skip(i as int + 1));
            }
            return path_len_from(t, i + 1);
        }
    }
    i
}

/// The path component of a request target, as [`spec_target_path`]
/// describes.
pub fn target_path(t: &[u8]) -> (r: Option<Vec<u8>>)
    ensures
        match r {
            Some(p) => spec_target_path(t@) == Some(p@),
            None => spec_target_path(t@) is None,
        },
{
    if t.len() == 0 || t[0] != 47 {
        return None;
    }
    let stop = path_len_from(t, 0);
    proof {
        assert(t@.skip(0) =~= t@);
        lemma_path_len_le(t@);
    }
    Some(vstd::slice::slice_to_vec(vstd::slice::slice_subrange(t, 0, stop)))
}

// ---------------------------------------------------------------------------
// The request model
// ---------------------------------------------------------------------------

/// A fully parsed request: the five pieces the request reader recovers from
/// the byte stream.
pub struct Request {
    pub method: Method,
    pub path: Vec<u8>,
    pub version: Vec<u8>,
    pub headers: HeaderMap,
    pub body: Option<Vec<u8>>,
}

/// The mathematical shape of a [`Request`].
pub struct RequestView {
    pub method: Method,
    pub path: Seq<u8>,
    pub version: Seq<u8>,
    pub headers: Seq<(Seq<u8>, Seq<u8>)>,
    pub body: Option<Seq<u8>>,
}

impl View for Request {
    type V = RequestView;

    open spec fn view(&self) -> RequestView {
        RequestView {
            method: self.method,
            path: self.path@,
            version: self.version@,
            headers: self.headers@,
            body: match self.body {
                Some(b) => Some(b@),
                None => None,
            },
        }
    }
}

// ---------------------------------------------------------------------------
// The request line
// ---------------------------------------------------------------------------

/// The request line split on whitespace: exactly three tokens — method,
/// target, version — the method recognized, anything else rejected.
pub open spec fn spec_parse_request_line(line: Seq<u8>) -> Result<
    (Method, Seq<u8>, Seq<u8>),
    HttpError,
> {
    let toks = spec_tokens(line);
    if toks.len() != 3 {
        Err(HttpError::InvalidFormat)
    } else {
        match spec_method_of(toks[0]) {
            Some(m) => Ok((m, toks[1], toks[2])),
            None => Err(HttpError::InvalidMethod),
        }
    }
}

// ---------------------------------------------------------------------------
// Header lines
// ---------------------------------------------------------------------------

/// Folds the header lines from position `i` into the accumulated map: a
/// blank line stops the fold, a line without a colon is rejected, any other
/// line is split at its first colon and both halves are trimmed.
pub open spec fn spec_parse_header_lines(
    lines: Seq<Seq<u8>>,
    i: int,
    acc: Seq<(Seq<u8>, Seq<u8>)>,
) -> Result<Seq<(Seq<u8>, Seq<u8>)>, HttpError>
    decreases lines.len() - i,
{
    if i < 0 || i >= lines.len() {
        Ok(acc)
    } else if lines[i].len() == 0 {
        Ok(acc)
    } else {
        match spec_find_byte(lines[i], 58) {
            None => Err(HttpError::InvalidHeader),
            Some(c) => spec_parse_header_lines(
                lines,
                i + 1,
                spec_insert(
                    acc,
                    spec_trim(lines[i].subrange(0, c)),
                    spec_trim(lines[i].subrange(c + 1, lines[i].len() as int)),
                ),
            ),
        }
    }
}

// ---------------------------------------------------------------------------
// The whole header block
// ---------------------------------------------------------------------------

/// What a successfully parsed header block yields.
pub struct HeadView {
    pub method: Method,
    pub path: Seq<u8>,
    pub version: Seq<u8>,
    pub headers: Seq<(Seq<u8>, Seq<u8>)>,
    pub content_length: Option<usize>,
}

/// Parses a complete header block — every byte up to and including the
/// blank-line terminator. The block must decode as UTF-8; its first line is
/// the request line, whose target must have a path; the remaining lines up
/// to the first blank one form the header map; and a `Content-Length` header
/// (found ignoring ASCII case) must hold a non-negative decimal integer.
pub open spec fn spec_parse_head(block: Seq<u8>) -> Result<HeadView, HttpError> {
    if !vstd::utf8::valid_utf8(block) {
        Err(HttpError::InvalidFormat)
    } else {
        let lines = spec_lines(block);
        if lines.len() == 0 {
            Err(HttpError::InvalidFormat)
        } else {
            match spec_parse_request_line(lines[0]) {
                Err(e) => Err(e),
                Ok(rl) => match spec_target_path(rl.1) {
                    None => Err(HttpError::InvalidFormat),
                    Some(path) => match spec_parse_header_lines(lines, 1, Seq::empty()) {
                        Err(e) => Err(e),
                        Ok(hs) => match spec_get_ci(hs, "Content-Length".spec_bytes()) {
                            None => Ok(
                                HeadView {
                                    method: rl.0,
                                    path,
                                    version: rl.2,
                                    headers: hs,
                                    content_length: None,
                                },
                            ),
                            Some(cv) => match spec_parse_usize(cv) {
                                None => Err(HttpError::InvalidFormat),
                                Some(n) => Ok(
                                    HeadView {
                                        method: rl.0,
                                        path,
                                        version: rl.2,
                                        headers: hs,
                                        content_length: Some(n),
                                    },
                                ),
                            },
                        },
                    },
                },
            }
        }
    }
}

impl Request {
    /// Splits a request line into its method, target and version, as
    /// [`spec_parse_request_line`] describes.
    pub fn parse_request_line(line: &[u8]) -> (r: Result<(Method, Vec<u8>, Vec<u8>), HttpError>)
        ensures
            (match r {
                Ok(p) => spec_parse_request_line(line@) matches Ok(q) && q.0 == p.0 && q.1 == p.1@
                    && q.2 == p.2@,
                Err(e) => spec_parse_request_line(line@) == Err::<
                    (Method, Seq<u8>, Seq<u8>),
                    HttpError,
                >(e),
            }),
    {
        let mut toks = split_tokens(line);
        let ghost tv = seq_views(toks@);
        if toks.len() != 3 {
            return Err(HttpError::InvalidFormat);
        }
        let ver = toks.pop().unwrap();
        let tgt = toks.pop().unwrap();
        let tok0 = toks.pop().unwrap();
        proof {
            assert(tok0@ == tv[0]);
            assert(tgt@ == tv[1]);
            assert(ver@ == tv[2]);
        }
        match method_of(tok0.as_slice()) {
            Some(m) => Ok((m, tgt, ver)),
            None => Err(HttpError::InvalidMethod),
        }
    }
}

/// Parses a complete header block, as [`spec_parse_head`] describes: on
/// success the method, path, version, header map and declared content
/// length.
#[verifier::loop_isolation(false)]
pub fn parse_head(block: &[u8]) -> (r: Result<
    (Method, Vec<u8>, Vec<u8>, HeaderMap, Option<usize>),
    HttpError,
>)
    ensures
        (match r {
            Ok(h) => spec_parse_head(block@) matches Ok(hv) && hv.method == h.0 && hv.path == h.1@
                && hv.version == h.2@ && hv.headers == h.3@ && hv.content_length == h.4,
            Err(e) => spec_parse_head(block@) == Err::<HeadView, HttpError>(e),
        }),
{
    if !utf8_valid(block) {
        return Err(HttpError::InvalidFormat);
    }
    let lines = split_lines(block);
    let ghost lv = seq_views(lines@);
    if lines.len() == 0 {
        return Err(HttpError::InvalidFormat);
    }
    proof {
        assert(lv[0] == lines@[0]@);
    }
    let rl = Request::parse_request_line(lines[0].as_slice());
    let (m, tgt, ver) = match rl {
        Ok(x) => x,
        Err(e) => {
            return Err(e);
        },
    };
    let path = match target_path(tgt.as_slice()) {
        Some(p) => p,
        None => {
            return Err(HttpError::InvalidFormat);
        },
    };
    let mut hs = HeaderMap::new();
    let n = lines.len();
    let mut i: usize = 1;
    let mut stop: bool = false;
    while i < n && !stop
        invariant
            n == lines@.len(),
            lv == seq_views(lines@),
            1 <= i <= n,
            spec_parse_header_lines(lv, 1, Seq::empty()) == spec_parse_header_lines(
                lv,
                i as int,
                hs@,
            ),
            stop ==> i < n && lv[i as int].len() == 0,
        decreases n - i + (if stop {
            0int
        } else {
            1int
        }),
    {
        proof {
            assert(lv[i as int] == lines@[i as int]@);
        }
        if lines[i].len() == 0 {
            stop = true;
        } else {
            let line = lines[i].as_slice();
            let ln = line.len();
            match find_byte(line, 58) {
                None => {
                    return Err(HttpError::InvalidHeader);
                },
                Some(c) => {
                    let key = trim_bytes(vstd::slice::slice_subrange(line, 0, c));
                    let val = trim_bytes(vstd::slice::slice_subrange(line, c + 1, ln));
                    hs.insert(key, val);
                    i += 1;
                },
            }
        }
    }
    let content_length: Option<usize> = match hs.get_ci("Content-Length".as_bytes()) {
        Some(v) => match parse_usize_bytes(v.as_slice()) {
            Some(cl) => Some(cl),
            None => {
                return Err(HttpError::InvalidFormat);
            },
        },
        None => None,
    };
    Ok((m, path, ver, hs, content_length))
}

} // verus!
