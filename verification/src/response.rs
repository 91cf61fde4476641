use crate::headers::{spec_insert, HeaderMap};
use crate::request::{Method, Request, RequestView};
use crate::text::{
    bytes_eq, rfind_byte, seq_views, spec_rfind_byte, spec_split, split_at_byte,
};
use vstd::prelude::*;
use vstd::string::StringSliceAdditionalSpecFns;

verus! {

// ---------------------------------------------------------------------------
// Path resolution
// ---------------------------------------------------------------------------

/// The request path without its single leading slash.
pub open spec fn spec_strip_slash(p: Seq<u8>) -> Seq<u8> {
    if p.len() > 0 && p[0] == 47 {
        p.drop_first()
    } else {
        p
    }
}

/// What a path segment does to the depth below the root: nothing for an
/// empty segment or `.`, one step up for `..`, one step down otherwise.
pub open spec fn spec_seg_weight(seg: Seq<u8>) -> int {
    if seg.len() == 0 {
        0
    } else if seg == seq![46u8] {
        0
    } else if seg == seq![46u8, 46u8] {
        -1
    } else {
        1
    }
}

/// Walking the segments from position `i` at the given depth, the depth at
/// some point drops below zero.
pub open spec fn spec_escapes_from(segs: Seq<Seq<u8>>, i: int, depth: int) -> bool
    decreases segs.len() - i,
{
    if i < 0 || i >= segs.len() {
        false
    } else {
        let d = depth + spec_seg_weight(segs[i]);
        d < 0 || spec_escapes_from(segs, i + 1, d)
    }
}

/// The relative path climbs out of its base: scanning its slash-separated
/// segments, the `..` segments at some point outnumber the real ones.
pub open spec fn spec_escapes(rel: Seq<u8>) -> bool {
    spec_escapes_from(spec_split(rel, 47), 0, 0)
}

/// The relative path joined onto the root, with exactly one slash between.
pub open spec fn spec_join(root: Seq<u8>, rel: Seq<u8>) -> Seq<u8> {
    if root.len() > 0 && root[root.len() - 1] == 47 {
        root + rel
    } else {
        root + seq![47u8] + rel
    }
}

/// The file a request path names under the root: the path, less its leading
/// slash, joined onto the root — unless it escapes the root, which yields
/// nothing.
pub open spec fn spec_resolve(root: Seq<u8>, path: Seq<u8>) -> Option<Seq<u8>> {
    let rel = spec_strip_slash(path);
    if spec_escapes(rel) {
        None
    } else {
        Some(spec_join(root, rel))
    }
}

/// Whether a relative path escapes its base, as [`spec_escapes`] describes.
#[verifier::loop_isolation(false)]
pub fn path_escapes(rel: &[u8]) -> (r: bool)
    ensures
        r == spec_escapes(rel@),
{
    let segs = split_at_byte(rel, 47);
    let ghost sv = seq_views(segs@);
    let n = segs.len();
    let mut depth: usize = 0;
    let mut i: usize = 0;
    while i < n
        invariant
            i <= n,
            depth <= i,
            spec_escapes_from(sv, 0, 0) == spec_escapes_from(sv, i as int, depth as int),
        decreases n - i,
    {
        proof {
            assert(sv[i as int] == segs@[i as int]@);
        }
        let seg = segs[i].as_slice();
        if seg.len() == 0 {
            proof {
                assert(spec_seg_weight(sv[i as int]) == 0);
            }
        } else if seg.len() == 1 && seg[0] == 46 {
            proof {
                assert(seg@ =~= seq![46u8]);
            }
        } else if seg.len() == 2 && seg[0] == 46 && seg[1] == 46 {
            proof {
                assert(seg@ =~= seq![46u8, 46u8]);
            }
            if depth == 0 {
                return true;
            }
            depth = depth - 1;
        } else {
            proof {
                assert(seg@ != seq![46u8] && seg@ != seq![46u8, 46u8]);
            }
            depth = depth + 1;
        }
        i += 1;
    }
    false
}

/// The file the request path names under the root, as [`spec_resolve`]
/// describes: the joined path, or nothing where the path escapes the root.
pub fn resolve_path(root: &[u8], path: &[u8]) -> (r: Option<Vec<u8>>)
    ensures
        match r {
            Some(p) => spec_resolve(root@, path@) == Some(p@),
            None => spec_resolve(root@, path@) is None,
        },
{
    let rel: &[u8] = if path.len() > 0 && path[0] == 47 {
        vstd::slice::slice_subrange(path, 1, path.len())
    } else {
        path
    };
    proof {
        if path@.len() > 0 && path@[0] == 47 {
            assert(rel@ =~= spec_strip_slash(path@));
        }
    }
    if path_escapes(rel) {
        return None;
    }
    let mut out: Vec<u8> = vstd::slice::slice_to_vec(root);
    if !(root.len() > 0 && root[root.len() - 1] == 47) {
        out.push(47);
    }
    crate::text::append_bytes(&mut out, rel);
    proof {
        assert(out@ =~= spec_join(root@, rel@));
    }
    Some(out)
}

// ---------------------------------------------------------------------------
// File name extensions and content types
// ---------------------------------------------------------------------------

/// The final slash-separated component of a path.
pub open spec fn spec_file_name(p: Seq<u8>) -> Seq<u8> {
    match spec_rfind_byte(p, 47) {
        Some(i) => p.subrange(i + 1, p.len() as int),
        None => p,
    }
}

/// The extension of a path: whatever follows the last dot of its file name,
/// unless that dot is the file name's first byte or there is none.
pub open spec fn spec_ext(p: Seq<u8>) -> Option<Seq<u8>> {
    let f = spec_file_name(p);
    match spec_rfind_byte(f, 46) {
        Some(i) => if i == 0 {
            None
        } else {
            Some(f.subrange(i + 1, f.len() as int))
        },
        None => None,
    }
}

/// The extension of a path, as [`spec_ext`] describes.
pub fn file_ext(p: &[u8]) -> (r: Option<Vec<u8>>)
    ensures
        match r {
            Some(e) => spec_ext(p@) == Some(e@),
            None => spec_ext(p@) is None,
        },
{
    let pn = p.len();
    let name: &[u8] = match rfind_byte(p, 47) {
        Some(i) => vstd::slice::slice_subrange(p, i + 1, pn),
        None => p,
    };
    proof {
        assert(name@ == spec_file_name(p@));
    }
    let nn = name.len();
    match rfind_byte(name, 46) {
        Some(i) => {
            if i == 0 {
                None
            } else {
                Some(vstd::slice::slice_to_vec(vstd::slice::slice_subrange(name, i + 1, nn)))
            }
        },
        None => None,
    }
}

/// The content type registered for a file name extension; anything
/// unrecognized is served as raw bytes.
pub open spec fn spec_mime_of(e: Seq<u8>) -> Seq<u8> {
    if e == "aac".spec_bytes() {
        "audio/aac".spec_bytes()
    } else if e == "avi".spec_bytes() {
        "video/x-msvideo".spec_bytes()
    } else if e == "bin".spec_bytes() {
        "application/octet-stream".spec_bytes()
    } else if e == "bmp".spec_bytes() {
        "image/bmp".spec_bytes()
    } else if e == "bz".spec_bytes() {
        "application/x-bzip".spec_bytes()
    } else if e == "bz2".spec_bytes() {
        "application/x-bzip2".spec_bytes()
    } else if e == "css".spec_bytes() {
        "text/css".spec_bytes()
    } else if e == "csv".spec_bytes() {
        "text/csv".spec_bytes()
    } else if e == "doc".spec_bytes() {
        "application/msword".spec_bytes()
    } else if e == "docx".spec_bytes() {
        "application/vnd.openxmlformats-officedocument.wordprocessingml.document".spec_bytes()
    } else if e == "epub".spec_bytes() {
        "application/epub+zip".spec_bytes()
    } else if e == "gif".spec_bytes() {
        "image/gif".spec_bytes()
    } else if e == "htm".spec_bytes() {
        "text/html".spec_bytes()
    } else if e == "html".spec_bytes() {
        "text/html".spec_bytes()
    } else if e == "ico".spec_bytes() {
        "image/vnd.microsoft.icon".spec_bytes()
    } else if e == "jpg".spec_bytes() {
        "image/jpeg".spec_bytes()
    } else if e == "jpeg".spec_bytes() {
        "image/jpeg".spec_bytes()
    } else if e == "js".spec_bytes() {
        "text/javascript".spec_bytes()
    } else if e == "json".spec_bytes() {
        "application/json".spec_bytes()
    } else if e == "mp3".spec_bytes() {
        "audio/mpeg".spec_bytes()
    } else if e == "png".spec_bytes() {
        "image/png".spec_bytes()
    } else if e == "pdf".spec_bytes() {
        "application/pdf".spec_bytes()
    } else if e == "ppt".spec_bytes() {
        "application/vnd.ms-powerpoint".spec_bytes()
    } else if e == "pptx".spec_bytes() {
        "application/vnd.openxmlformats-officedocument.presentationml.presentation".spec_bytes()
    } else if e == "rar".spec_bytes() {
        "application/x-rar-compressed".spec_bytes()
    } else if e == "txt".spec_bytes() {
        "text/plain".spec_bytes()
    } else if e == "wav".spec_bytes() {
        "audio/wav".spec_bytes()
    } else if e == "webp".spec_bytes() {
        "image/webp".spec_bytes()
    } else if e == "xml".spec_bytes() {
        "application/xml".spec_bytes()
    } else if e == "zip".spec_bytes() {
        "application/zip".spec_bytes()
    } else {
        "application/octet-stream".spec_bytes()
    }
}

/// The content type for a resolved path: from its extension through the
/// registered table, `application/octet-stream` without one.
pub open spec fn spec_mime(ext: Option<Seq<u8>>) -> Seq<u8> {
    match ext {
        Some(e) => spec_mime_of(e),
        None => "application/octet-stream".spec_bytes(),
    }
}

fn str_bytes(s: &str) -> (r: Vec<u8>)
    ensures
        r@ == s.spec_bytes(),
{
    vstd::slice::slice_to_vec(s.as_bytes())
}

/// The content type for an extension, as [`spec_mime_of`] describes.
pub fn mime_of(e: &[u8]) -> (r: Vec<u8>)
    ensures
        r@ == spec_mime_of(e@),
{
    if bytes_eq(e, "aac".as_bytes()) {
        str_bytes("audio/aac")
    } else if bytes_eq(e, "avi".as_bytes()) {
        str_bytes("video/x-msvideo")
    } else if bytes_eq(e, "bin".as_bytes()) {
        str_bytes("application/octet-stream")
    } else if bytes_eq(e, "bmp".as_bytes()) {
        str_bytes("image/bmp")
    } else if bytes_eq(e, "bz".as_bytes()) {
        str_bytes("application/x-bzip")
    } else if bytes_eq(e, "bz2".as_bytes()) {
        str_bytes("application/x-bzip2")
    } else if bytes_eq(e, "css".as_bytes()) {
        str_bytes("text/css")
    } else if bytes_eq(e, "csv".as_bytes()) {
        str_bytes("text/csv")
    } else if bytes_eq(e, "doc".as_bytes()) {
        str_bytes("application/msword")
    } else if bytes_eq(e, "docx".as_bytes()) {
        str_bytes("application/vnd.openxmlformats-officedocument.wordprocessingml.document")
    } else if bytes_eq(e, "epub".as_bytes()) {
        str_bytes("application/epub+zip")
    } else if bytes_eq(e, "gif".as_bytes()) {
        str_bytes("image/gif")
    } else if bytes_eq(e, "htm".as_bytes()) {
        str_bytes("text/html")
    } else if bytes_eq(e, "html".as_bytes()) {
        str_bytes("text/html")
    } else if bytes_eq(e, "ico".as_bytes()) {
        str_bytes("image/vnd.microsoft.icon")
    } else if bytes_eq(e, "jpg".as_bytes()) {
        str_bytes("image/jpeg")
    } else if bytes_eq(e, "jpeg".as_bytes()) {
        str_bytes("image/jpeg")
    } else if bytes_eq(e, "js".as_bytes()) {
        str_bytes("text/javascript")
    } else if bytes_eq(e, "json".as_bytes()) {
        str_bytes("application/json")
    } else if bytes_eq(e, "mp3".as_bytes()) {
        str_bytes("audio/mpeg")
    } else if bytes_eq(e, "png".as_bytes()) {
        str_bytes("image/png")
    } else if bytes_eq(e, "pdf".as_bytes()) {
        str_bytes("application/pdf")
    } else if bytes_eq(e, "ppt".as_bytes()) {
        str_bytes("application/vnd.ms-powerpoint")
    } else if bytes_eq(e, "pptx".as_bytes()) {
        str_bytes("application/vnd.openxmlformats-officedocument.presentationml.presentation")
    } else if bytes_eq(e, "rar".as_bytes()) {
        str_bytes("application/x-rar-compressed")
    } else if bytes_eq(e, "txt".as_bytes()) {
        str_bytes("text/plain")
    } else if bytes_eq(e, "wav".as_bytes()) {
        str_bytes("audio/wav")
    } else if bytes_eq(e, "webp".as_bytes()) {
        str_bytes("image/webp")
    } else if bytes_eq(e, "xml".as_bytes()) {
        str_bytes("application/xml")
    } else if bytes_eq(e, "zip".as_bytes()) {
        str_bytes("application/zip")
    } else {
        str_bytes("application/octet-stream")
    }
}

// ---------------------------------------------------------------------------
// Responses
// ---------------------------------------------------------------------------

/// A response ready to serialize: status line pieces, headers, and an
/// optional body of raw bytes.
pub struct Response {
    pub version: Vec<u8>,
    pub status_code: Vec<u8>,
    pub status_text: Vec<u8>,
    pub headers: HeaderMap,
    pub body: Option<Vec<u8>>,
}

/// The mathematical shape of a [`Response`].
pub struct ResponseView {
    pub version: Seq<u8>,
    pub status_code: Seq<u8>,
    pub status_text: Seq<u8>,
    pub headers: Seq<(Seq<u8>, Seq<u8>)>,
    pub body: Option<Seq<u8>>,
}

impl View for Response {
    type V = ResponseView;

    open spec fn view(&self) -> ResponseView {
        ResponseView {
            version: self.version@,
            status_code: self.status_code@,
            status_text: self.status_text@,
            headers: self.headers@,
            body: match self.body {
                Some(b) => Some(b@),
                None => None,
            },
        }
    }
}

/// How the surrounding process reported reading the resolved file.
pub enum FileOutcome {
    /// The file's raw bytes.
    Content(Vec<u8>),
    NotFound,
    PermissionDenied,
    /// Any other I/O failure.
    OtherError,
}

/// The mathematical shape of a [`FileOutcome`].
pub enum FileOutcomeView {
    Content(Seq<u8>),
    NotFound,
    PermissionDenied,
    OtherError,
}

impl View for FileOutcome {
    type V = FileOutcomeView;

    open spec fn view(&self) -> FileOutcomeView {
        match self {
            FileOutcome::Content(b) => FileOutcomeView::Content(b@),
            FileOutcome::NotFound => FileOutcomeView::NotFound,
            FileOutcome::PermissionDenied => FileOutcomeView::PermissionDenied,
            FileOutcome::OtherError => FileOutcomeView::OtherError,
        }
    }
}

/// A bodiless `HTTP/1.1` response with the given status line and no
/// headers.
pub open spec fn spec_status_response(code: Seq<u8>, text: Seq<u8>) -> ResponseView {
    ResponseView {
        version: "HTTP/1.1".spec_bytes(),
        status_code: code,
        status_text: text,
        headers: Seq::empty(),
        body: None,
    }
}

fn status_response(code: &str, text: &str) -> (r: Response)
    ensures
        r@ == spec_status_response(code.spec_bytes(), text.spec_bytes()),
{
    let r = Response {
        version: str_bytes("HTTP/1.1"),
        status_code: str_bytes(code),
        status_text: str_bytes(text),
        headers: HeaderMap::new(),
        body: None,
    };
    r
}

// ---------------------------------------------------------------------------
// Planning and finishing a response
// ---------------------------------------------------------------------------

/// What serving a request requires of the surrounding process: either a
/// finished response to transmit, or a file to read first.
pub enum ServeStep {
    Respond(Response),
    ReadFile(Vec<u8>),
}

/// The mathematical shape of a [`ServeStep`].
pub enum ServeStepView {
    Respond(ResponseView),
    ReadFile(Seq<u8>),
}

/// The first step of serving a request. Only `GET` is implemented: every
/// other method is answered `501 Not Implemented` outright. A `GET` whose
/// path escapes the root is answered `404 Not Found` with no body and
/// names no file; otherwise the resolved file under the root is to be read.
pub open spec fn spec_serve_step(req: RequestView, root: Seq<u8>) -> ServeStepView {
    if req.method != Method::Get {
        ServeStepView::Respond(
            spec_status_response("501".spec_bytes(), "Not Implemented".spec_bytes()),
        )
    } else {
        match spec_resolve(root, req.path) {
            None => ServeStepView::Respond(
                spec_status_response("404".spec_bytes(), "Not Found".spec_bytes()),
            ),
            Some(p) => ServeStepView::ReadFile(p),
        }
    }
}

/// A path that escapes the root is never served: whatever the method and
/// the root, the serving step is a finished bodiless response — `404 Not
/// Found` for a `GET` — and no file path is ever produced.
pub proof fn lemma_traversal_refused(req: RequestView, root: Seq<u8>)
    requires
        spec_escapes(spec_strip_slash(req.path)),
    ensures
        spec_serve_step(req, root) matches ServeStepView::Respond(resp) && resp.body is None,
        req.method == Method::Get ==> (spec_serve_step(req, root)
            == ServeStepView::Respond(
            spec_status_response("404".spec_bytes(), "Not Found".spec_bytes()),
        )),
{
}

impl Response {
    /// The answer to a request that could not be parsed: `400 Bad Request`,
    /// with no headers and no body, sent before the connection closes.
    pub fn bad_request() -> (r: Response)
        ensures
            r@ == spec_status_response("400".spec_bytes(), "Bad Request".spec_bytes()),
    {
        status_response("400", "Bad Request")
    }
}

impl Request {
    /// The first step of serving this request against the given filesystem
    /// root, as [`spec_serve_step`] describes.
    pub fn serve_step(&self, root: &[u8]) -> (r: ServeStep)
        ensures
            (match r {
                ServeStep::Respond(resp) => spec_serve_step(self@, root@)
                    == ServeStepView::Respond(resp@),
                ServeStep::ReadFile(p) => spec_serve_step(self@, root@)
                    == ServeStepView::ReadFile(p@),
            }),
    {
        if !matches!(self.method, Method::Get) {
            return ServeStep::Respond(status_response("501", "Not Implemented"));
        }
        match resolve_path(root, self.path.as_slice()) {
            None => ServeStep::Respond(status_response("404", "Not Found")),
            Some(p) => ServeStep::ReadFile(p),
        }
    }
}

/// The response a file-read outcome yields, for the resolved path it was
/// read from: `200 OK` carrying the bytes and the content type that the
/// path's extension names; `404`, `403` or `500` with no body otherwise.
pub open spec fn spec_finish(path: Seq<u8>, f: FileOutcomeView) -> ResponseView {
    match f {
        FileOutcomeView::Content(bytes) => ResponseView {
            version: "HTTP/1.1".spec_bytes(),
            status_code: "200".spec_bytes(),
            status_text: "OK".spec_bytes(),
            headers: seq![("Content-Type".spec_bytes(), spec_mime(spec_ext(path)))],
            body: Some(bytes),
        },
        FileOutcomeView::NotFound => spec_status_response(
            "404".spec_bytes(),
            "Not Found".spec_bytes(),
        ),
        FileOutcomeView::PermissionDenied => spec_status_response(
            "403".spec_bytes(),
            "Forbidden".spec_bytes(),
        ),
        FileOutcomeView::OtherError => spec_status_response(
            "500".spec_bytes(),
            "Internal Server Error".spec_bytes(),
        ),
    }
}

impl Response {
    /// Builds the response for a file-read outcome, as [`spec_finish`]
    /// describes. `path` is the resolved path the serving step named.
    pub fn finish(path: &[u8], outcome: FileOutcome) -> (r: Response)
        ensures
            r@ == spec_finish(path@, outcome@),
    {
        match outcome {
            FileOutcome::Content(bytes) => {
                let ct: Vec<u8> = match file_ext(path) {
                    Some(e) => mime_of(e.as_slice()),
                    None => str_bytes("application/octet-stream"),
                };
                let mut hs = HeaderMap::new();
                hs.insert(str_bytes("Content-Type"), ct);
                proof {
                    assert(hs@ =~= seq![("Content-Type".spec_bytes(), spec_mime(spec_ext(path@)))]);
                }
                Response {
                    version: str_bytes("HTTP/1.1"),
                    status_code: str_bytes("200"),
                    status_text: str_bytes("OK"),
                    headers: hs,
                    body: Some(bytes),
                }
            },
            FileOutcome::NotFound => status_response("404", "Not Found"),
            FileOutcome::PermissionDenied => status_response("403", "Forbidden"),
            FileOutcome::OtherError => status_response("500", "Internal Server Error"),
        }
    }
}

} // verus!
