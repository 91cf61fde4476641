use crate::err::HttpError;
use crate::headers::HeaderMap;
use crate::request::{parse_head, spec_parse_head, HeadView, Method, Request, RequestView};
use crate::text::{append_bytes, find_term, spec_find_term, utf8_valid};
use vstd::prelude::*;

verus! {

/// What one round of feeding bytes to the reader produced.
pub enum PushOutcome {
    /// The bytes seen so far are a proper prefix of a request.
    NeedMore,
    /// The request is complete.
    Done(Request),
    /// The bytes seen so far can never grow into a well-formed request.
    Failed(HttpError),
}

/// The reading of a byte-stream prefix: not yet a whole request, a whole
/// request, or irrecoverably malformed.
pub enum ParseProgress {
    Incomplete,
    Failed(HttpError),
    Done(RequestView),
}

/// What a prefix of the byte stream denotes. The first header terminator
/// (CR LF CR LF) closes the header block, which [`spec_parse_head`] reads;
/// without a `Content-Length` header the request is complete at once, and
/// any bytes already past the terminator are ignored; with one, the request
/// is complete as soon as that many bytes follow the terminator, and those
/// bytes — decoded as UTF-8 — form the body.
pub open spec fn spec_parse_stream(bytes: Seq<u8>) -> ParseProgress {
    match spec_find_term(bytes) {
        None => ParseProgress::Incomplete,
        Some(e) => {
            let block = bytes.subrange(0, e + 4);
            match spec_parse_head(block) {
                Err(err) => ParseProgress::Failed(err),
                Ok(h) => match h.content_length {
                    None => ParseProgress::Done(
                        RequestView {
                            method: h.method,
                            path: h.path,
                            version: h.version,
                            headers: h.headers,
                            body: None,
                        },
                    ),
                    Some(n) => if bytes.len() >= e + 4 + n {
                        let body = bytes.subrange(e + 4, e + 4 + n);
                        if vstd::utf8::valid_utf8(body) {
                            ParseProgress::Done(
                                RequestView {
                                    method: h.method,
                                    path: h.path,
                                    version: h.version,
                                    headers: h.headers,
                                    body: Some(body),
                                },
                            )
                        } else {
                            ParseProgress::Failed(HttpError::InvalidFormat)
                        }
                    } else {
                        ParseProgress::Incomplete
                    },
                },
            }
        },
    }
}

/// Sorts a stream read's return value: a positive count is how many bytes
/// arrived; zero or a negative value — a closed or failed stream — ends
/// request construction with `ReceivingFailed`.
pub fn classify_read(count: isize) -> (r: Result<usize, HttpError>)
    ensures
        count > 0 ==> r == Ok::<usize, HttpError>(count as usize),
        count <= 0 ==> r == Err::<usize, HttpError>(HttpError::ReceivingFailed),
{
    if count > 0 {
        Ok(count as usize)
    } else {
        Err(HttpError::ReceivingFailed)
    }
}

/// Accumulates the bytes of one request as they arrive, in chunks cut at
/// arbitrary boundaries, and delivers the parsed request as soon as its
/// framing is complete. The outcome is a function of the concatenation of
/// the bytes fed so far alone — never of how they were split into chunks.
pub struct RequestReader {
    buf: Vec<u8>,
    head: Option<(Method, Vec<u8>, Vec<u8>, HeaderMap, usize)>,
    end: Ghost<int>,
    fed: Ghost<Seq<u8>>,
}

impl RequestReader {
    /// Every byte fed to the reader so far, in order.
    pub closed spec fn bytes_fed(self) -> Seq<u8> {
        self.fed@
    }

    /// The reader still waits for more bytes: what it has seen is a proper
    /// prefix of a request.
    pub closed spec fn wf(self) -> bool {
        match self.head {
            None => self.buf@ == self.fed@ && spec_find_term(self.fed@) is None,
            Some(h) => {
                &&& spec_find_term(self.fed@) == Some(self.end@)
                &&& 0 <= self.end@
                &&& self.end@ + 4 <= self.fed@.len()
                &&& spec_parse_head(self.fed@.subrange(0, self.end@ + 4)) == Ok::<
                    HeadView,
                    HttpError,
                >(
                    HeadView {
                        method: h.0,
                        path: h.1@,
                        version: h.2@,
                        headers: h.3@,
                        content_length: Some(h.4),
                    },
                )
                &&& self.buf@ == self.fed@.subrange(self.end@ + 4, self.fed@.len() as int)
                &&& self.buf@.len() < h.4
            },
        }
    }

    /// A reader that has seen nothing yet.
    pub fn new() -> (r: RequestReader)
        ensures
            r.wf(),
            r.bytes_fed() == Seq::<u8>::empty(),
    {
        RequestReader { buf: Vec::new(), head: None, end: Ghost(0int), fed: Ghost(Seq::empty()) }
    }

    /// Feeds the next chunk of bytes from the stream. The outcome is
    /// exactly what [`spec_parse_stream`] says of all bytes fed so far —
    /// wherever the stream was cut into chunks, the parsed request is the
    /// one the whole prefix denotes. After `Done` or `Failed` the reader is
    /// spent; while `NeedMore`, it stays well formed and can be fed again.
    pub fn push(&mut self, chunk: &[u8]) -> (r: PushOutcome)
        requires
            old(self).wf(),
        ensures
            final(self).bytes_fed() == old(self).bytes_fed() + chunk@,
            (match r {
                PushOutcome::NeedMore => final(self).wf() && spec_parse_stream(
                    final(self).bytes_fed(),
                ) is Incomplete,
                PushOutcome::Done(req) => spec_parse_stream(final(self).bytes_fed())
                    == ParseProgress::Done(req@),
                PushOutcome::Failed(e) => spec_parse_stream(final(self).bytes_fed())
                    == ParseProgress::Failed(e),
            }),
    {
        self.fed = Ghost(self.fed@ + chunk@);
        append_bytes(&mut self.buf, chunk);
        if self.head.is_none() {
            let n = self.buf.len();
            match find_term(self.buf.as_slice()) {
                None => PushOutcome::NeedMore,
                Some(e) => {
                    let block = vstd::slice::slice_subrange(self.buf.as_slice(), 0, e + 4);
                    match parse_head(block) {
                        Err(err) => PushOutcome::Failed(err),
                        Ok((m, p, v, hs, clopt)) => match clopt {
                            None => PushOutcome::Done(
                                Request {
                                    method: m,
                                    path: p,
                                    version: v,
                                    headers: hs,
                                    body: None,
                                },
                            ),
                            Some(cl) => {
                                let rest = vstd::slice::slice_to_vec(
                                    vstd::slice::slice_subrange(self.buf.as_slice(), e + 4, n),
                                );
                                self.buf = rest;
                                self.head = Some((m, p, v, hs, cl));
                                self.end = Ghost(e as int);
                                self.check_body()
                            },
                        },
                    }
                },
            }
        } else {
            proof {
                crate::text::lemma_find_term_append(old(self).fed@, chunk@);
                assert(self.fed@.subrange(0, old(self).end@ + 4) =~= old(self).fed@.subrange(
                    0,
                    old(self).end@ + 4,
                ));
                assert(self.buf@ =~= self.fed@.subrange(
                    old(self).end@ + 4,
                    self.fed@.len() as int,
                ));
            }
            self.check_body()
        }
    }

    fn check_body(&mut self) -> (r: PushOutcome)
        requires
            old(self).head is Some,
            ({
                let h = old(self).head->Some_0;
                &&& spec_find_term(old(self).fed@) == Some(old(self).end@)
                &&& 0 <= old(self).end@
                &&& old(self).end@ + 4 <= old(self).fed@.len()
                &&& spec_parse_head(old(self).fed@.subrange(0, old(self).end@ + 4)) == Ok::<
                    HeadView,
                    HttpError,
                >(
                    HeadView {
                        method: h.0,
                        path: h.1@,
                        version: h.2@,
                        headers: h.3@,
                        content_length: Some(h.4),
                    },
                )
                &&& old(self).buf@ == old(self).fed@.subrange(
                    old(self).end@ + 4,
                    old(self).fed@.len() as int,
                )
            }),
        ensures
            final(self).bytes_fed() == old(self).bytes_fed(),
            (match r {
                PushOutcome::NeedMore => final(self).wf() && spec_parse_stream(
                    final(self).bytes_fed(),
                ) is Incomplete,
                PushOutcome::Done(req) => spec_parse_stream(final(self).bytes_fed())
                    == ParseProgress::Done(req@),
                PushOutcome::Failed(e) => spec_parse_stream(final(self).bytes_fed())
                    == ParseProgress::Failed(e),
            }),
    {
        let h = self.head.take();
        match h {
            Some((m, p, v, hs, cl)) => {
                if self.buf.len() >= cl {
                    let body_slice = vstd::slice::slice_subrange(self.buf.as_slice(), 0, cl);
                    proof {
                        assert(body_slice@ =~= self.fed@.subrange(
                            self.end@ + 4,
                            self.end@ + 4 + cl,
                        ));
                    }
                    if utf8_valid(body_slice) {
                        let body = vstd::slice::slice_to_vec(body_slice);
                        PushOutcome::Done(
                            Request {
                                method: m,
                                path: p,
                                version: v,
                                headers: hs,
                                body: Some(body),
                            },
                        )
                    } else {
                        PushOutcome::Failed(HttpError::InvalidFormat)
                    }
                } else {
                    self.head = Some((m, p, v, hs, cl));
                    PushOutcome::NeedMore
                }
            },
            None => {
                proof {
                    assert(false);
                }
                PushOutcome::NeedMore
            },
        }
    }
}

} // verus!

