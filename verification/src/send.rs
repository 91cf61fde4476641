use crate::response::{Response, ResponseView};
use crate::text::append_bytes;
use vstd::prelude::*;

verus! {

// ---------------------------------------------------------------------------
// Serializing the head
// ---------------------------------------------------------------------------

/// The wire form of the headers: for each one, in map order, CR LF then
/// `name: value`.
pub open spec fn spec_header_block(hs: Seq<(Seq<u8>, Seq<u8>)>) -> Seq<u8>
    decreases hs.len(),
{
    if hs.len() == 0 {
        Seq::empty()
    } else {
        spec_header_block(hs.drop_last()) + seq![13u8, 10u8] + hs.last().0 + seq![58u8, 32u8]
            + hs.last().1
    }
}

/// The wire form of everything before the body: the status line
/// `version code text`, the headers, and the blank-line terminator.
pub open spec fn spec_head_bytes(r: ResponseView) -> Seq<u8> {
    r.version + seq![32u8] + r.status_code + seq![32u8] + r.status_text + spec_header_block(
        r.headers,
    ) + seq![13u8, 10u8, 13u8, 10u8]
}

impl Response {
    /// Serializes the status line, headers and terminator, as
    /// [`spec_head_bytes`] describes; the body is not included.
    #[verifier::loop_isolation(false)]
    pub fn head_bytes(&self) -> (r: Vec<u8>)
        ensures
            r@ == spec_head_bytes(self@),
    {
        let mut out: Vec<u8> = Vec::new();
        append_bytes(&mut out, self.version.as_slice());
        out.push(32);
        append_bytes(&mut out, self.status_code.as_slice());
        out.push(32);
        append_bytes(&mut out, self.status_text.as_slice());
        let ghost prefix: Seq<u8> = self@.version + seq![32u8] + self@.status_code + seq![32u8]
            + self@.status_text;
        proof {
            assert(out@ =~= prefix + spec_header_block(self@.headers.take(0)));
        }
        let n = self.headers.len();
        let mut i: usize = 0;
        while i < n
            invariant
                i <= n,
                out@ == prefix + spec_header_block(self@.headers.take(i as int)),
            decreases n - i,
        {
            let (k, v) = self.headers.entry_at(i);
            out.push(13);
            out.push(10);
            append_bytes(&mut out, k.as_slice());
            out.push(58);
            out.push(32);
            append_bytes(&mut out, v.as_slice());
            proof {
                assert(self@.headers.take(i as int + 1).drop_last() =~= self@.headers.take(
                    i as int,
                ));
                assert(self@.headers.take(i as int + 1).last() == self@.headers[i as int]);
                assert(out@ =~= prefix + spec_header_block(self@.headers.take(i as int + 1)));
            }
            i += 1;
        }
        proof {
            assert(self@.headers.take(n as int) =~= self@.headers);
        }
        out.push(13);
        out.push(10);
        out.push(13);
        out.push(10);
        proof {
            assert(out@ =~= spec_head_bytes(self@));
        }
        out
    }
}

// ---------------------------------------------------------------------------
// Chunking the body
// ---------------------------------------------------------------------------

/// How many chunks a body of `len` bytes makes at the given chunk size:
/// just enough to cover it, and none for an empty body.
pub open spec fn spec_chunk_count(len: int, sz: int) -> int {
    if len % sz == 0 {
        len / sz
    } else {
        len / sz + 1
    }
}

/// The half-open byte range of chunk `i`: full-sized except for a shorter
/// final chunk where the length is not an exact multiple.
pub open spec fn spec_chunk(len: int, sz: int, i: int) -> (int, int) {
    (i * sz, if (i + 1) * sz <= len {
        (i + 1) * sz
    } else {
        len
    })
}

/// Cuts a body of `len` bytes into write ranges of at most `sz` bytes, as
/// [`spec_chunk`] describes: consecutive, covering the body exactly, every
/// chunk full except possibly the last, and never an empty chunk — an
/// empty body makes no chunk at all.
#[verifier::loop_isolation(false)]
pub fn chunk_bounds(len: usize, sz: usize) -> (r: Vec<(usize, usize)>)
    requires
        sz > 0,
    ensures
        r@.len() == spec_chunk_count(len as int, sz as int),
        forall|i: int|
            0 <= i < r@.len() ==> #[trigger] r@[i] == (
                spec_chunk(len as int, sz as int, i).0 as usize,
                spec_chunk(len as int, sz as int, i).1 as usize,
            ),
{
    let mut out: Vec<(usize, usize)> = Vec::new();
    let mut s: usize = 0;
    proof {
        if len == 0 {
            assert(spec_chunk_count(0, sz as int) == 0) by (nonlinear_arith)
                requires
                    sz > 0,
            ;
        }
        assert((out@.len() as int) * (sz as int) == 0) by (nonlinear_arith)
            requires
                out@.len() == 0,
        ;
    }
    while s < len
        invariant
            s <= len,
            s < len ==> s as int == (out@.len() as int) * (sz as int),
            s == len ==> out@.len() == spec_chunk_count(len as int, sz as int),
            forall|i: int|
                0 <= i < out@.len() ==> #[trigger] out@[i] == (
                    spec_chunk(len as int, sz as int, i).0 as usize,
                    spec_chunk(len as int, sz as int, i).1 as usize,
                ),
        decreases len - s,
    {
        let ghost k: int = out@.len() as int;
        let e: usize = if len - s >= sz {
            s + sz
        } else {
            len
        };
        out.push((s, e));
        proof {
            assert((k + 1) * (sz as int) == k * (sz as int) + (sz as int)) by (nonlinear_arith);
            assert(spec_chunk(len as int, sz as int, k).0 == s);
            assert(spec_chunk(len as int, sz as int, k).1 == e);
            assert((out@.len() as int) == k + 1);
            if e == len {
                if s + sz <= len {
                    assert((len as int) % (sz as int) == 0 && (len as int) / (sz as int) == k
                        + 1) by (nonlinear_arith)
                        requires
                            sz > 0,
                            len as int == (k + 1) * (sz as int),
                            k >= 0,
                    ;
                } else {
                    assert((len as int) % (sz as int) != 0 && (len as int) / (sz as int)
                        == k) by (nonlinear_arith)
                        requires
                            sz > 0,
                            k >= 0,
                            len as int == k * (sz as int) + (len - s),
                            0 < len - s < sz,
                    ;
                }
                assert(out@.len() == spec_chunk_count(len as int, sz as int));
            }
        }
        s = e;
    }
    out
}

// ---------------------------------------------------------------------------
// The shape of the chunking
// ---------------------------------------------------------------------------

/// A body whose length is exactly `n` chunk sizes is cut into exactly `n`
/// chunks, every one full — there is no trailing empty chunk.
pub proof fn lemma_chunks_exact_multiple(n: int, sz: int)
    requires
        sz > 0,
        n >= 0,
    ensures
        spec_chunk_count(n * sz, sz) == n,
        forall|i: int|
            0 <= i < n ==> #[trigger] spec_chunk(n * sz, sz, i) == ((i * sz), (i * sz + sz)),
{
    assert((n * sz) % sz == 0 && (n * sz) / sz == n) by (nonlinear_arith)
        requires
            sz > 0,
            n >= 0,
    ;
    assert forall|i: int| 0 <= i < n implies #[trigger] spec_chunk(n * sz, sz, i) == (
        (i * sz),
        (i * sz + sz),
    ) by {
        assert((i + 1) * sz <= n * sz && (i + 1) * sz == i * sz + sz) by (nonlinear_arith)
            requires
                sz > 0,
                0 <= i < n,
        ;
    }
}

/// A body one byte longer than `n` chunk sizes is cut into `n` full chunks
/// and one final one-byte chunk.
pub proof fn lemma_chunks_one_over(n: int, sz: int)
    requires
        sz > 0,
        n >= 0,
    ensures
        spec_chunk_count(n * sz + 1, sz) == n + 1,
        forall|i: int|
            0 <= i < n ==> #[trigger] spec_chunk(n * sz + 1, sz, i) == ((i * sz), (i * sz + sz)),
        spec_chunk(n * sz + 1, sz, n) == ((n * sz), (n * sz + 1)),
{
    let len = n * sz + 1;
    if sz == 1 {
        assert(len == n + 1);
        assert(len % 1int == 0 && len / 1int == n + 1) by (nonlinear_arith)
            requires
                len == n + 1,
                n >= 0,
        ;
    } else {
        assert(len % sz == 1 && len / sz == n) by (nonlinear_arith)
            requires
                sz > 1,
                n >= 0,
                len == n * sz + 1,
        ;
    }
    assert forall|i: int| 0 <= i < n implies #[trigger] spec_chunk(len, sz, i) == (
        (i * sz),
        (i * sz + sz),
    ) by {
        assert((i + 1) * sz <= n * sz && (i + 1) * sz == i * sz + sz) by (nonlinear_arith)
            requires
                sz > 0,
                0 <= i < n,
        ;
    }
    assert((n + 1) * sz == n * sz + sz) by (nonlinear_arith);
    if sz > 1 {
        assert(n * sz + sz > len);
    }
}

/// No chunk is ever empty: every chunk of a body holds at least one byte.
pub proof fn lemma_chunks_nonempty(len: int, sz: int, i: int)
    requires
        sz > 0,
        len >= 0,
        0 <= i < spec_chunk_count(len, sz),
    ensures
        spec_chunk(len, sz, i).0 < spec_chunk(len, sz, i).1,
        spec_chunk(len, sz, i).1 <= len,
{
    assert(i * sz < len) by (nonlinear_arith)
        requires
            sz > 0,
            len >= 0,
            0 <= i < spec_chunk_count(len, sz),
            spec_chunk_count(len, sz) == (if len % sz == 0 {
                len / sz
            } else {
                len / sz + 1
            }),
    ;
    assert((i + 1) * sz == i * sz + sz) by (nonlinear_arith);
}

} // verus!
