use vstd::prelude::*;

verus! {

// ---------------------------------------------------------------------------
// Views of a list of byte vectors
// ---------------------------------------------------------------------------

/// The sequence of views of a sequence of byte vectors.
pub open spec fn seq_views(vs: Seq<Vec<u8>>) -> Seq<Seq<u8>> {
    Seq::new(vs.len(), |i: int| vs[i]@)
}

// ---------------------------------------------------------------------------
// Byte classification
// ---------------------------------------------------------------------------

/// ASCII whitespace: tab, line feed, form feed, carriage return, space.
pub open spec fn is_ws(b: u8) -> bool {
    b == 9 || b == 10 || b == 12 || b == 13 || b == 32
}

/// ASCII decimal digit.
pub open spec fn is_digit(b: u8) -> bool {
    48 <= b && b <= 57
}

/// ASCII upper-case letters mapped to lower case; all other bytes unchanged.
pub open spec fn lower_byte(b: u8) -> u8 {
    if 65 <= b && b <= 90 {
        (b + 32) as u8
    } else {
        b
    }
}

/// [`lower_byte`] applied to every byte.
pub open spec fn spec_lower(s: Seq<u8>) -> Seq<u8> {
    s.map_values(|b: u8| lower_byte(b))
}

// ---------------------------------------------------------------------------
// Searching
// ---------------------------------------------------------------------------

/// Index of the first occurrence of `x` in `s`, if any.
pub open spec fn spec_find_byte(s: Seq<u8>, x: u8) -> Option<int>
    decreases s.len(),
{
    if s.len() == 0 {
        None
    } else if s[0] == x {
        Some(0int)
    } else {
        match spec_find_byte(s.drop_first(), x) {
            Some(i) => Some(i + 1),
            None => None,
        }
    }
}

/// [`spec_find_byte`] finds the first occurrence: the returned index holds
/// `x` and nothing before it does.
pub proof fn lemma_find_byte(s: Seq<u8>, x: u8)
    ensures
        match spec_find_byte(s, x) {
            Some(i) => 0 <= i < s.len() && s[i] == x && (forall|j: int| 0 <= j < i ==> s[j] != x),
            None => forall|j: int| 0 <= j < s.len() ==> s[j] != x,
        },
    decreases s.len(),
{
    if s.len() == 0 {
    } else if s[0] == x {
    } else {
        let t = s.drop_first();
        lemma_find_byte(t, x);
        assert(forall|j: int| 0 <= j < t.len() ==> t[j] == s[j + 1]);
        match spec_find_byte(t, x) {
            Some(i) => {
                assert(spec_find_byte(s, x) == Some(i + 1));
                assert(s[i + 1] == t[i]);
                assert forall|j: int| 0 <= j < i + 1 implies s[j] != x by {
                    if j > 0 {
                        assert(t[j - 1] != x);
                        assert(t[j - 1] == s[j]);
                    }
                }
            },
            None => {
                assert forall|j: int| 0 <= j < s.len() implies s[j] != x by {
                    if j > 0 {
                        assert(t[j - 1] != x);
                        assert(t[j - 1] == s[j]);
                    }
                }
            },
        }
    }
}

/// Index of the first occurrence of `x` in `s`.
pub fn find_byte(s: &[u8], x: u8) -> (r: Option<usize>)
    ensures
        match r {
            Some(i) => i < s@.len() && spec_find_byte(s@, x) == Some(i as int),
            None => spec_find_byte(s@, x) is None,
        },
{
    let n = s.len();
    let mut i: usize = 0;
    while i < n
        invariant
            n == s@.len(),
            i <= n,
            forall|j: int| 0 <= j < i ==> s@[j] != x,
        decreases n - i,
    {
        if s[i] == x {
            proof {
                lemma_find_byte(s@, x);
            }
            return Some(i);
        }
        i += 1;
    }
    proof {
        lemma_find_byte(s@, x);
    }
    None
}

/// Index of the last occurrence of `x` in `s`, if any.
pub open spec fn spec_rfind_byte(s: Seq<u8>, x: u8) -> Option<int>
    decreases s.len(),
{
    if s.len() == 0 {
        None
    } else if s.last() == x {
        Some(s.len() - 1)
    } else {
        spec_rfind_byte(s.drop_last(), x)
    }
}

/// Index of the last occurrence of `x` in `s`.
pub fn rfind_byte(s: &[u8], x: u8) -> (r: Option<usize>)
    ensures
        match r {
            Some(i) => i < s@.len() && spec_rfind_byte(s@, x) == Some(i as int),
            None => spec_rfind_byte(s@, x) is None,
        },
{
    let n = s.len();
    proof {
        assert(s@.take(n as int) =~= s@);
    }
    let mut i: usize = n;
    while i > 0
        invariant
            n == s@.len(),
            i <= n,
            spec_rfind_byte(s@, x) == spec_rfind_byte(s@.take(i as int), x),
        decreases i,
    {
        if s[i - 1] == x {
            proof {
                assert(s@.take(i as int).last() == s@[i - 1]);
            }
            return Some(i - 1);
        }
        proof {
            assert(s@.take(i as int).drop_last() =~= s@.take(i as int - 1));
        }
        i -= 1;
    }
    proof {
        assert(s@.take(0) =~= Seq::<u8>::empty());
    }
    None
}

/// The four-byte header terminator CR LF CR LF begins at position `i`.
pub open spec fn term_at(s: Seq<u8>, i: int) -> bool {
    &&& 0 <= i
    &&& i + 4 <= s.len()
    &&& s[i] == 13
    &&& s[i + 1] == 10
    &&& s[i + 2] == 13
    &&& s[i + 3] == 10
}

/// Index of the first header terminator in `s`, if any.
pub open spec fn spec_find_term(s: Seq<u8>) -> Option<int>
    decreases s.len(),
{
    if s.len() < 4 {
        None
    } else if term_at(s, 0) {
        Some(0int)
    } else {
        match spec_find_term(s.drop_first()) {
            Some(i) => Some(i + 1),
            None => None,
        }
    }
}

/// [`spec_find_term`] finds the first terminator: the terminator stands at
/// the returned index and nowhere before it.
pub proof fn lemma_find_term(s: Seq<u8>)
    ensures
        match spec_find_term(s) {
            Some(i) => term_at(s, i) && (forall|j: int| 0 <= j < i ==> !term_at(s, j)),
            None => forall|j: int| !term_at(s, j),
        },
    decreases s.len(),
{
    if s.len() < 4 {
    } else if term_at(s, 0) {
    } else {
        let t = s.drop_first();
        lemma_find_term(t);
        assert(forall|j: int| 0 <= j < t.len() ==> t[j] == s[j + 1]);
        assert forall|j: int| 0 <= j implies (term_at(t, j) <==> term_at(s, j + 1)) by {
            if j + 4 <= t.len() {
                assert(t[j] == s[j + 1]);
                assert(t[j + 1] == s[j + 2]);
                assert(t[j + 2] == s[j + 3]);
                assert(t[j + 3] == s[j + 4]);
            }
        }
        match spec_find_term(t) {
            Some(i) => {
                assert(spec_find_term(s) == Some(i + 1));
                assert(term_at(s, i + 1));
                assert forall|j: int| 0 <= j < i + 1 implies !term_at(s, j) by {
                    if j > 0 {
                        assert(!term_at(t, j - 1));
                    }
                }
            },
            None => {
                assert forall|j: int| !term_at(s, j) by {
                    if j > 0 {
                        assert(!term_at(t, j - 1));
                    }
                }
            },
        }
    }
}

/// Once a terminator has been found, feeding more bytes does not move it:
/// the first terminator of `s + c` is the first terminator of `s`.
pub proof fn lemma_find_term_append(s: Seq<u8>, c: Seq<u8>)
    requires
        spec_find_term(s) is Some,
    ensures
        spec_find_term(s + c) == spec_find_term(s),
{
    let e = spec_find_term(s)->Some_0;
    lemma_find_term(s);
    lemma_find_term(s + c);
    assert(forall|i: int| 0 <= i < s.len() ==> (s + c)[i] == s[i]);
    assert(term_at(s + c, e));
    assert forall|j: int| 0 <= j < e implies !term_at(s + c, j) by {
        assert(j + 4 <= s.len());
        if term_at(s + c, j) {
            assert(term_at(s, j));
        }
    }
    match spec_find_term(s + c) {
        Some(k) => {
            if k < e {
                assert(!term_at(s + c, k));
                assert(false);
            }
            if k > e {
                assert(!term_at(s + c, e));
                assert(false);
            }
        },
        None => {
            assert(!term_at(s + c, e));
            assert(false);
        },
    }
}

/// Index of the first header terminator in `s`.
pub fn find_term(s: &[u8]) -> (r: Option<usize>)
    ensures
        match r {
            Some(i) => i + 4 <= s@.len() && spec_find_term(s@) == Some(i as int),
            None => spec_find_term(s@) is None,
        },
{
    let n = s.len();
    if n < 4 {
        proof {
            lemma_find_term(s@);
        }
        return None;
    }
    let mut i: usize = 0;
    while i <= n - 4
        invariant
            4 <= n == s@.len(),
            i <= n - 3,
            forall|j: int| 0 <= j < i ==> !term_at(s@, j),
        decreases n - i,
    {
        if s[i] == 13 && s[i + 1] == 10 && s[i + 2] == 13 && s[i + 3] == 10 {
            proof {
                assert(term_at(s@, i as int));
                lemma_find_term(s@);
            }
            return Some(i);
        }
        i += 1;
    }
    proof {
        lemma_find_term(s@);
        match spec_find_term(s@) {
            Some(k) => {
                assert(term_at(s@, k));
                assert(k < i);
                assert(false);
            },
            None => {},
        }
    }
    None
}

// ---------------------------------------------------------------------------
// Equality
// ---------------------------------------------------------------------------

/// Byte-for-byte equality of two slices.
pub fn bytes_eq(a: &[u8], b: &[u8]) -> (r: bool)
    ensures
        r == (a@ == b@),
{
    if a.len() != b.len() {
        return false;
    }
    let n = a.len();
    let mut i: usize = 0;
    while i < n
        invariant
            n == a@.len() && n == b@.len(),
            i <= n,
            forall|j: int| 0 <= j < i ==> a@[j] == b@[j],
        decreases n - i,
    {
        if a[i] != b[i] {
            return false;
        }
        i += 1;
    }
    proof {
        assert(a@ =~= b@);
    }
    true
}

/// Lower-cased copy of `s`.
pub fn lower_bytes(s: &[u8]) -> (r: Vec<u8>)
    ensures
        r@ == spec_lower(s@),
{
    let n = s.len();
    let mut out: Vec<u8> = Vec::new();
    let mut i: usize = 0;
    while i < n
        invariant
            n == s@.len(),
            i <= n,
            out@.len() == i,
            forall|j: int| 0 <= j < i ==> out@[j] == lower_byte(s@[j]),
        decreases n - i,
    {
        let b = s[i];
        if 65 <= b && b <= 90 {
            out.push(b + 32);
        } else {
            out.push(b);
        }
        i += 1;
    }
    proof {
        assert(out@ =~= spec_lower(s@));
    }
    out
}

/// Equality of two slices up to ASCII case.
pub fn lower_eq(a: &[u8], b: &[u8]) -> (r: bool)
    ensures
        r == (spec_lower(a@) == spec_lower(b@)),
{
    let la = lower_bytes(a);
    let lb = lower_bytes(b);
    bytes_eq(la.as_slice(), lb.as_slice())
}

// ---------------------------------------------------------------------------
// Appending
// ---------------------------------------------------------------------------

/// Appends every byte of `src` to `dst`.
pub fn append_bytes(dst: &mut Vec<u8>, src: &[u8])
    ensures
        final(dst)@ == old(dst)@ + src@,
{
    let n = src.len();
    let mut i: usize = 0;
    while i < n
        invariant
            n == src@.len(),
            i <= n,
            dst@ == old(dst)@ + src@.take(i as int),
        decreases n - i,
    {
        dst.push(src[i]);
        proof {
            assert(old(dst)@ + src@.take(i as int + 1) =~= (old(dst)@ + src@.take(i as int)).push(
                src@[i as int],
            ));
        }
        i += 1;
    }
    proof {
        assert(src@.take(n as int) =~= src@);
    }
}

// ---------------------------------------------------------------------------
// Trimming
// ---------------------------------------------------------------------------

/// `s` without its leading ASCII whitespace.
pub open spec fn spec_trim_start(s: Seq<u8>) -> Seq<u8>
    decreases s.len(),
{
    if s.len() > 0 && is_ws(s[0]) {
        spec_trim_start(s.drop_first())
    } else {
        s
    }
}

/// `s` without its trailing ASCII whitespace.
pub open spec fn spec_trim_end(s: Seq<u8>) -> Seq<u8>
    decreases s.len(),
{
    if s.len() > 0 && is_ws(s.last()) {
        spec_trim_end(s.drop_last())
    } else {
        s
    }
}

/// `s` without leading and trailing ASCII whitespace.
pub open spec fn spec_trim(s: Seq<u8>) -> Seq<u8> {
    spec_trim_end(spec_trim_start(s))
}

fn skip_ws_from(s: &[u8], i: usize) -> (r: usize)
    requires
        i <= s@.len(),
    ensures
        i <= r <= s@.len(),
        spec_trim_start(s@.skip(i as int)) == s@.skip(r as int),
    decreases s@.len() - i,
{
    if i < s.len() {
        let b = s[i];
        if b == 9 || b == 10 || b == 12 || b == 13 || b == 32 {
            proof {
                assert(s@.skip(i as int).drop_first() =~= s@.skip(i as int + 1));
            }
            return skip_ws_from(s, i + 1);
        }
    }
    i
}

fn shrink_ws_to(s: &[u8], lo: usize, hi: usize) -> (r: usize)
    requires
        lo <= hi <= s@.len(),
    ensures
        lo <= r <= hi,
        spec_trim_end(s@.subrange(lo as int, hi as int)) == s@.subrange(lo as int, r as int),
    decreases hi - lo,
{
    if hi > lo {
        let b = s[hi - 1];
        if b == 9 || b == 10 || b == 12 || b == 13 || b == 32 {
            proof {
                assert(s@.subrange(lo as int, hi as int).last() == s@[hi - 1]);
                assert(s@.subrange(lo as int, hi as int).drop_last() =~= s@.subrange(
                    lo as int,
                    hi as int - 1,
                ));
            }
            return shrink_ws_to(s, lo, hi - 1);
        }
        proof {
            assert(s@.subrange(lo as int, hi as int).last() == s@[hi - 1]);
        }
    }
    hi
}

/// Copy of `s` without leading and trailing ASCII whitespace.
pub fn trim_bytes(s: &[u8]) -> (r: Vec<u8>)
    ensures
        r@ == spec_trim(s@),
{
    let lo = skip_ws_from(s, 0);
    proof {
        assert(s@.skip(0) =~= s@);
    }
    let hi = shrink_ws_to(s, lo, s.len());
    proof {
        assert(s@.skip(lo as int) =~= s@.subrange(lo as int, s@.len() as int));
    }
    vstd::slice::slice_to_vec(vstd::slice::slice_subrange(s, lo, hi))
}

// ---------------------------------------------------------------------------
// Splitting at a separator byte
// ---------------------------------------------------------------------------

/// The pieces of `s` between occurrences of `sep`; empty pieces are kept,
/// and there is always at least one piece.
pub open spec fn spec_split(s: Seq<u8>, sep: u8) -> Seq<Seq<u8>>
    decreases s.len(),
    via spec_split_dec
{
    match spec_find_byte(s, sep) {
        Some(i) => seq![s.subrange(0, i)] + spec_split(s.subrange(i + 1, s.len() as int), sep),
        None => seq![s],
    }
}

#[via_fn]
proof fn spec_split_dec(s: Seq<u8>, sep: u8) {
    lemma_find_byte(s, sep);
}

/// The pieces of `s` between occurrences of `sep`.
pub fn split_at_byte(s: &[u8], sep: u8) -> (r: Vec<Vec<u8>>)
    ensures
        seq_views(r@) == spec_split(s@, sep),
    decreases s@.len(),
{
    let n = s.len();
    match find_byte(s, sep) {
        Some(i) => {
            let head: Vec<u8> = vstd::slice::slice_to_vec(vstd::slice::slice_subrange(s, 0, i));
            let tail: &[u8] = vstd::slice::slice_subrange(s, i + 1, n);
            let mut rest: Vec<Vec<u8>> = split_at_byte(tail, sep);
            let ghost rest_snap: Seq<Vec<u8>> = rest@;
            let mut out: Vec<Vec<u8>> = Vec::new();
            out.push(head);
            out.append(&mut rest);
            proof {
                assert(seq_views(out@) =~= seq![s@.subrange(0, i as int)] + seq_views(rest_snap));
            }
            out
        },
        None => {
            let mut out: Vec<Vec<u8>> = Vec::new();
            out.push(vstd::slice::slice_to_vec(s));
            proof {
                assert(seq_views(out@) =~= seq![s@]);
            }
            out
        },
    }
}

// ---------------------------------------------------------------------------
// Splitting into lines
// ---------------------------------------------------------------------------

/// `s` without a single trailing carriage return, if it has one.
pub open spec fn spec_strip_cr(s: Seq<u8>) -> Seq<u8> {
    if s.len() > 0 && s.last() == 13 {
        s.drop_last()
    } else {
        s
    }
}

/// The lines of `s`: pieces split at each line feed, a line feed at the very
/// end producing no empty final line, and one trailing carriage return
/// removed from each piece.
pub open spec fn spec_lines(s: Seq<u8>) -> Seq<Seq<u8>> {
    if s.len() == 0 {
        Seq::empty()
    } else if s.last() == 10 {
        spec_split(s.drop_last(), 10).map_values(|p: Seq<u8>| spec_strip_cr(p))
    } else {
        spec_split(s, 10).map_values(|p: Seq<u8>| spec_strip_cr(p))
    }
}

fn strip_cr_vec(s: Vec<u8>) -> (r: Vec<u8>)
    ensures
        r@ == spec_strip_cr(s@),
{
    let mut v = s;
    let ghost orig: Seq<u8> = v@;
    if v.len() > 0 && v[v.len() - 1] == 13 {
        let n = v.len();
        v.truncate(n - 1);
        proof {
            assert(v@ =~= orig.drop_last());
        }
    }
    v
}

/// The lines of `s`, as [`spec_lines`] describes them.
pub fn split_lines(s: &[u8]) -> (r: Vec<Vec<u8>>)
    ensures
        seq_views(r@) == spec_lines(s@),
{
    if s.len() == 0 {
        let out: Vec<Vec<u8>> = Vec::new();
        proof {
            assert(seq_views(out@) =~= spec_lines(s@));
        }
        return out;
    }
    let body: &[u8] = if s[s.len() - 1] == 10 {
        vstd::slice::slice_subrange(s, 0, s.len() - 1)
    } else {
        s
    };
    proof {
        if s@.last() == 10 {
            assert(body@ =~= s@.drop_last());
        }
    }
    let pieces = split_at_byte(body, 10);
    let ghost pieces_snap: Seq<Vec<u8>> = pieces@;
    let n = pieces.len();
    let mut out: Vec<Vec<u8>> = Vec::new();
    let mut pieces = pieces;
    let mut k: usize = 0;
    while k < n
        invariant
            n == pieces_snap.len(),
            k <= n,
            pieces@.len() == n - k,
            forall|j: int| 0 <= j < n - k ==> pieces@[j] == pieces_snap[j + k],
            out@.len() == k,
            forall|j: int| 0 <= j < k ==> out@[j]@ == spec_strip_cr(pieces_snap[j]@),
        decreases n - k,
    {
        let piece = pieces.remove(0);
        out.push(strip_cr_vec(piece));
        k += 1;
    }
    proof {
        assert(seq_views(out@) =~= seq_views(pieces_snap).map_values(
            |p: Seq<u8>| spec_strip_cr(p),
        ));
    }
    out
}

// ---------------------------------------------------------------------------
// Splitting into whitespace-separated tokens
// ---------------------------------------------------------------------------

/// Length of the leading run of non-whitespace bytes.
pub open spec fn spec_token_len(s: Seq<u8>) -> nat
    decreases s.len(),
{
    if s.len() == 0 || is_ws(s[0]) {
        0
    } else {
        1 + spec_token_len(s.drop_first())
    }
}

/// The leading token run never reaches past the end of the sequence.
pub proof fn lemma_token_len_le(s: Seq<u8>)
    ensures
        spec_token_len(s) <= s.len(),
    decreases s.len(),
{
    if s.len() > 0 && !is_ws(s[0]) {
        lemma_token_len_le(s.drop_first());
    }
}

/// The maximal runs of non-whitespace bytes of `s`, in order.
pub open spec fn spec_tokens(s: Seq<u8>) -> Seq<Seq<u8>>
    decreases s.len(),
{
    if s.len() == 0 {
        Seq::empty()
    } else if is_ws(s[0]) {
        spec_tokens(s.drop_first())
    } else {
        let t = if spec_token_len(s) <= s.len() {
            spec_token_len(s) as int
        } else {
            s.len() as int
        };
        seq![s.subrange(0, t)] + spec_tokens(s.subrange(t, s.len() as int))
    }
}

fn token_len_from(s: &[u8], i: usize) -> (r: usize)
    requires
        i <= s@.len(),
    ensures
        i <= r <= s@.len(),
        spec_token_len(s@.skip(i as int)) == r - i,
    decreases s@.len() - i,
{
    if i < s.len() {
        let b = s[i];
        if !(b == 9 || b == 10 || b == 12 || b == 13 || b == 32) {
            proof {
                assert(s@.skip(i as int).drop_first() =~= s@.skip(i as int + 1));
            }
            return token_len_from(s, i + 1);
        }
    }
    i
}

/// The whitespace-separated tokens of `s`, as [`spec_tokens`] describes them.
pub fn split_tokens(s: &[u8]) -> (r: Vec<Vec<u8>>)
    ensures
        seq_views(r@) == spec_tokens(s@),
    decreases s@.len(),
{
    if s.len() == 0 {
        let out: Vec<Vec<u8>> = Vec::new();
        proof {
            assert(seq_views(out@) =~= spec_tokens(s@));
        }
        return out;
    }
    let b = s[0];
    if b == 9 || b == 10 || b == 12 || b == 13 || b == 32 {
        let tail: &[u8] = vstd::slice::slice_subrange(s, 1, s.len());
        proof {
            assert(tail@ =~= s@.drop_first());
        }
        return split_tokens(tail);
    }
    let t = token_len_from(s, 0);
    proof {
        assert(s@.skip(0) =~= s@);
        lemma_token_len_le(s@);
    }
    let head: Vec<u8> = vstd::slice::slice_to_vec(vstd::slice::slice_subrange(s, 0, t));
    let tail: &[u8] = vstd::slice::slice_subrange(s, t, s.len());
    let mut rest: Vec<Vec<u8>> = split_tokens(tail);
    let ghost rest_snap: Seq<Vec<u8>> = rest@;
    let mut out: Vec<Vec<u8>> = Vec::new();
    out.push(head);
    out.append(&mut rest);
    proof {
        assert(seq_views(out@) =~= seq![s@.subrange(0, t as int)] + seq_views(rest_snap));
    }
    out
}

// ---------------------------------------------------------------------------
// Decimal numbers
// ---------------------------------------------------------------------------

/// The value of a string of decimal digits, most significant first.
pub open spec fn spec_digits_value(s: Seq<u8>) -> int
    decreases s.len(),
{
    if s.len() == 0 {
        0
    } else {
        spec_digits_value(s.drop_last()) * 10 + (s.last() - 48)
    }
}

/// Every byte is a decimal digit.
pub open spec fn all_digits(s: Seq<u8>) -> bool {
    forall|i: int| 0 <= i < s.len() ==> is_digit(s[i])
}

/// The non-negative integer denoted by `s`: an optional leading plus sign,
/// then at least one decimal digit, with a value that fits in `usize`.
pub open spec fn spec_parse_usize(s: Seq<u8>) -> Option<usize> {
    let d = if s.len() > 0 && s[0] == 43 {
        s.drop_first()
    } else {
        s
    };
    if d.len() > 0 && all_digits(d) && spec_digits_value(d) <= usize::MAX {
        Some(spec_digits_value(d) as usize)
    } else {
        None
    }
}

/// A digit string has a non-negative value.
pub proof fn lemma_digits_value_nonneg(s: Seq<u8>)
    requires
        all_digits(s),
    ensures
        spec_digits_value(s) >= 0,
    decreases s.len(),
{
    if s.len() > 0 {
        assert(forall|i: int| 0 <= i < s.drop_last().len() ==> s.drop_last()[i] == s[i]);
        lemma_digits_value_nonneg(s.drop_last());
    }
}

/// Extending a digit string to the right never shrinks its value.
pub proof fn lemma_digits_value_grows(s: Seq<u8>, k: int)
    requires
        0 <= k <= s.len(),
        all_digits(s),
    ensures
        spec_digits_value(s) >= spec_digits_value(s.subrange(0, k)),
    decreases s.len() - k,
{
    if k < s.len() {
        assert(s.subrange(0, k + 1).drop_last() =~= s.subrange(0, k));
        assert(forall|i: int| 0 <= i < k ==> s.subrange(0, k)[i] == s[i]);
        lemma_digits_value_nonneg(s.subrange(0, k));
        lemma_digits_value_grows(s, k + 1);
    } else {
        assert(s.subrange(0, k) =~= s);
    }
}

/// Parses `s` as a non-negative decimal integer, as [`spec_parse_usize`]
/// describes.
pub fn parse_usize_bytes(s: &[u8]) -> (r: Option<usize>)
    ensures
        r == spec_parse_usize(s@),
{
    let n = s.len();
    let start: usize = if n > 0 && s[0] == 43 {
        1
    } else {
        0
    };
    let ghost d: Seq<u8> = if s@.len() > 0 && s@[0] == 43 {
        s@.drop_first()
    } else {
        s@
    };
    proof {
        assert(d =~= s@.subrange(start as int, n as int));
    }
    if n == start {
        return None;
    }
    let mut val: usize = 0;
    let mut i: usize = start;
    while i < n
        invariant
            start <= i <= n,
            n == s@.len(),
            start == 1 || start == 0,
            d == (if s@.len() > 0 && s@[0] == 43 {
                s@.drop_first()
            } else {
                s@
            }),
            d == s@.subrange(start as int, n as int),
            d.len() > 0,
            forall|j: int| start <= j < i ==> is_digit(s@[j]),
            val == spec_digits_value(s@.subrange(start as int, i as int)),
        decreases n - i,
    {
        let b = s[i];
        if b < 48 || b > 57 {
            proof {
                assert(d[i - start] == s@[i as int]);
                assert(!is_digit(d[i - start]));
                assert(!all_digits(d));
                assert(spec_parse_usize(s@) is None);
            }
            return None;
        }
        let dd = (b - 48) as usize;
        let overflowed: bool = match val.checked_mul(10) {
            Some(v1) => match v1.checked_add(dd) {
                Some(v2) => {
                    proof {
                        assert(s@.subrange(start as int, i as int + 1).drop_last() =~= s@.subrange(
                            start as int,
                            i as int,
                        ));
                    }
                    val = v2;
                    false
                },
                None => true,
            },
            None => true,
        };
        if overflowed {
            proof {
                let pre = s@.subrange(start as int, i as int + 1);
                assert(pre.drop_last() =~= s@.subrange(start as int, i as int));
                assert(pre.last() == s@[i as int]);
                assert(spec_digits_value(pre) == val * 10 + (b - 48));
                assert(spec_digits_value(pre) > usize::MAX);
                if all_digits(d) {
                    assert(d.subrange(0, i + 1 - start) =~= pre);
                    lemma_digits_value_grows(d, i + 1 - start);
                    assert(spec_digits_value(d) > usize::MAX);
                }
                assert(spec_parse_usize(s@) is None);
            }
            return None;
        }
        i += 1;
    }
    proof {
        assert(d =~= s@.subrange(start as int, n as int));
        assert(forall|j: int| 0 <= j < d.len() ==> d[j] == s@[j + start]);
    }
    Some(val)
}

// ---------------------------------------------------------------------------
// UTF-8 validity
// ---------------------------------------------------------------------------

/// Whether `s` is a valid UTF-8 encoding, in the sense of
/// `vstd::utf8::valid_utf8`: checked scalar by scalar, each one a leading
/// byte with its continuation bytes, neither overlong nor a surrogate.
#[verifier::loop_isolation(false)]
pub fn utf8_valid(s: &[u8]) -> (r: bool)
    ensures
        r == vstd::utf8::valid_utf8(s@),
{
    let n = s.len();
    proof {
        assert(s@.skip(0) =~= s@);
    }
    let mut i: usize = 0;
    while i < n
        invariant
            i <= n,
            vstd::utf8::valid_utf8(s@) == vstd::utf8::valid_utf8(s@.skip(i as int)),
        decreases n - i,
    {
        let ghost rest = s@.skip(i as int);
        proof {
            assert(rest.len() == n - i);
            assert(rest[0] == s@[i as int]);
            if 1 < rest.len() {
                assert(rest[1] == s@[i as int + 1]);
            }
            if 2 < rest.len() {
                assert(rest[2] == s@[i as int + 2]);
            }
            if 3 < rest.len() {
                assert(rest[3] == s@[i as int + 3]);
            }
        }
        let b0 = s[i];
        let w: usize;
        if b0 <= 0x7f {
            let cp: u32 = (b0 & 0x7f) as u32;
            if 0xd800 <= cp && cp <= 0xdfff {
                proof {
                    assert(!vstd::utf8::valid_first_scalar(rest));
                }
                return false;
            }
            proof {
                assert(vstd::utf8::valid_first_scalar(rest));
                assert(vstd::utf8::length_of_first_scalar(rest) == 1);
            }
            w = 1;
        } else if b0 < 0xc0 {
            proof {
                assert(!vstd::utf8::valid_leading_and_continuation_bytes_first_codepoint(rest));
            }
            return false;
        } else if b0 <= 0xdf {
            if n - i < 2 || !(0x80 <= s[i + 1] && s[i + 1] <= 0xbf) {
                proof {
                    assert(!vstd::utf8::valid_leading_and_continuation_bytes_first_codepoint(rest));
                }
                return false;
            }
            let b1 = s[i + 1];
            let cp: u32 = (((b0 & 0x1f) as u32) << 6) | ((b1 & 0x3f) as u32);
            if cp < 0x80 || (0xd800 <= cp && cp <= 0xdfff) {
                proof {
                    assert(vstd::utf8::decode_first_codepoint(rest) == cp);
                    assert(!vstd::utf8::valid_first_scalar(rest));
                }
                return false;
            }
            proof {
                assert(vstd::utf8::decode_first_codepoint(rest) == cp);
                assert(vstd::utf8::valid_first_scalar(rest));
                assert(vstd::utf8::length_of_first_scalar(rest) == 2);
            }
            w = 2;
        } else if b0 <= 0xef {
            if n - i < 3 || !(0x80 <= s[i + 1] && s[i + 1] <= 0xbf) || !(0x80 <= s[i + 2] && s[i
                + 2] <= 0xbf) {
                proof {
                    assert(!vstd::utf8::valid_leading_and_continuation_bytes_first_codepoint(rest));
                }
                return false;
            }
            let b1 = s[i + 1];
            let b2 = s[i + 2];
            let cp: u32 = (((b0 & 0x0f) as u32) << 12) | (((b1 & 0x3f) as u32) << 6) | ((b2
                & 0x3f) as u32);
            if cp < 0x800 || (0xd800 <= cp && cp <= 0xdfff) {
                proof {
                    assert(vstd::utf8::decode_first_codepoint(rest) == cp);
                    assert(!vstd::utf8::valid_first_scalar(rest));
                }
                return false;
            }
            proof {
                assert(vstd::utf8::decode_first_codepoint(rest) == cp);
                assert(vstd::utf8::valid_first_scalar(rest));
                assert(vstd::utf8::length_of_first_scalar(rest) == 3);
            }
            w = 3;
        } else if b0 <= 0xf7 {
            if n - i < 4 || !(0x80 <= s[i + 1] && s[i + 1] <= 0xbf) || !(0x80 <= s[i + 2] && s[i
                + 2] <= 0xbf) || !(0x80 <= s[i + 3] && s[i + 3] <= 0xbf) {
                proof {
                    assert(!vstd::utf8::valid_leading_and_continuation_bytes_first_codepoint(rest));
                }
                return false;
            }
            let b1 = s[i + 1];
            let b2 = s[i + 2];
            let b3 = s[i + 3];
            let cp: u32 = (((b0 & 0x07) as u32) << 18) | (((b1 & 0x3f) as u32) << 12) | (((b2
                & 0x3f) as u32) << 6) | ((b3 & 0x3f) as u32);
            if !(0x10000 <= cp && cp <= 0x10ffff) || (0xd800 <= cp && cp <= 0xdfff) {
                proof {
                    assert(vstd::utf8::decode_first_codepoint(rest) == cp);
                    assert(!vstd::utf8::valid_first_scalar(rest));
                }
                return false;
            }
            proof {
                assert(vstd::utf8::decode_first_codepoint(rest) == cp);
                assert(vstd::utf8::valid_first_scalar(rest));
                assert(vstd::utf8::length_of_first_scalar(rest) == 4);
            }
            w = 4;
        } else {
            proof {
                assert(!vstd::utf8::valid_leading_and_continuation_bytes_first_codepoint(rest));
            }
            return false;
        }
        proof {
            assert(vstd::utf8::pop_first_scalar(rest) =~= s@.skip(i as int + w as int));
        }
        i += w;
    }
    proof {
        assert(s@.skip(n as int) =~= Seq::<u8>::empty());
    }
    true
}

} // verus!
