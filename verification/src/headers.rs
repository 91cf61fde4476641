use crate::text::{bytes_eq, lower_eq, spec_lower};
use vstd::prelude::*;

verus! {

/// An association list of header names and values, kept in insertion order.
///
/// Inserting a name that is already present (byte for byte) replaces its
/// value in place; lookup by [`HeaderMap::get_ci`] ignores ASCII case, as
/// HTTP header semantics ask, while names are stored as received.
pub struct HeaderMap {
    entries: Vec<(Vec<u8>, Vec<u8>)>,
}

impl View for HeaderMap {
    type V = Seq<(Seq<u8>, Seq<u8>)>;

    closed spec fn view(&self) -> Seq<(Seq<u8>, Seq<u8>)> {
        Seq::new(self.entries@.len(), |i: int| (self.entries@[i].0@, self.entries@[i].1@))
    }
}

/// Index of the first entry whose name equals `k` byte for byte.
pub open spec fn spec_key_index(m: Seq<(Seq<u8>, Seq<u8>)>, k: Seq<u8>) -> Option<int>
    decreases m.len(),
{
    if m.len() == 0 {
        None
    } else if m[0].0 == k {
        Some(0int)
    } else {
        match spec_key_index(m.drop_first(), k) {
            Some(i) => Some(i + 1),
            None => None,
        }
    }
}

/// Index of the first entry whose name equals `k` up to ASCII case.
pub open spec fn spec_ci_index(m: Seq<(Seq<u8>, Seq<u8>)>, k: Seq<u8>) -> Option<int>
    decreases m.len(),
{
    if m.len() == 0 {
        None
    } else if spec_lower(m[0].0) == spec_lower(k) {
        Some(0int)
    } else {
        match spec_ci_index(m.drop_first(), k) {
            Some(i) => Some(i + 1),
            None => None,
        }
    }
}

/// Value of the first entry whose name equals `k` byte for byte.
pub open spec fn spec_get(m: Seq<(Seq<u8>, Seq<u8>)>, k: Seq<u8>) -> Option<Seq<u8>> {
    match spec_key_index(m, k) {
        Some(i) => Some(m[i].1),
        None => None,
    }
}

/// Value of the first entry whose name equals `k` up to ASCII case.
pub open spec fn spec_get_ci(m: Seq<(Seq<u8>, Seq<u8>)>, k: Seq<u8>) -> Option<Seq<u8>> {
    match spec_ci_index(m, k) {
        Some(i) => Some(m[i].1),
        None => None,
    }
}

/// `m` with `k` bound to `v`: the first entry named `k` is replaced, or a
/// new entry is appended at the end.
pub open spec fn spec_insert(m: Seq<(Seq<u8>, Seq<u8>)>, k: Seq<u8>, v: Seq<u8>) -> Seq<
    (Seq<u8>, Seq<u8>),
> {
    match spec_key_index(m, k) {
        Some(i) => m.update(i, (k, v)),
        None => m.push((k, v)),
    }
}

/// [`spec_key_index`] finds the first byte-for-byte match.
pub proof fn lemma_key_index(m: Seq<(Seq<u8>, Seq<u8>)>, k: Seq<u8>)
    ensures
        match spec_key_index(m, k) {
            Some(i) => 0 <= i < m.len() && m[i].0 == k && (forall|j: int|
                0 <= j < i ==> m[j].0 != k),
            None => forall|j: int| 0 <= j < m.len() ==> m[j].0 != k,
        },
    decreases m.len(),
{
    if m.len() == 0 {
    } else if m[0].0 == k {
    } else {
        let t = m.drop_first();
        lemma_key_index(t, k);
        assert(forall|j: int| 0 <= j < t.len() ==> t[j] == m[j + 1]);
        match spec_key_index(t, k) {
            Some(i) => {
                assert(spec_key_index(m, k) == Some(i + 1));
                assert(m[i + 1] == t[i]);
                assert forall|j: int| 0 <= j < i + 1 implies m[j].0 != k by {
                    if j > 0 {
                        assert(t[j - 1].0 != k);
                        assert(t[j - 1] == m[j]);
                    }
                }
            },
            None => {
                assert forall|j: int| 0 <= j < m.len() implies m[j].0 != k by {
                    if j > 0 {
                        assert(t[j - 1].0 != k);
                        assert(t[j - 1] == m[j]);
                    }
                }
            },
        }
    }
}

/// [`spec_ci_index`] finds the first case-insensitive match.
pub proof fn lemma_ci_index(m: Seq<(Seq<u8>, Seq<u8>)>, k: Seq<u8>)
    ensures
        match spec_ci_index(m, k) {
            Some(i) => 0 <= i < m.len() && spec_lower(m[i].0) == spec_lower(k) && (forall|j: int|
                0 <= j < i ==> spec_lower(m[j].0) != spec_lower(k)),
            None => forall|j: int| 0 <= j < m.len() ==> spec_lower(m[j].0) != spec_lower(k),
        },
    decreases m.len(),
{
    if m.len() == 0 {
    } else if spec_lower(m[0].0) == spec_lower(k) {
    } else {
        let t = m.drop_first();
        lemma_ci_index(t, k);
        assert(forall|j: int| 0 <= j < t.len() ==> t[j] == m[j + 1]);
        match spec_ci_index(t, k) {
            Some(i) => {
                assert(spec_ci_index(m, k) == Some(i + 1));
                assert(m[i + 1] == t[i]);
                assert forall|j: int| 0 <= j < i + 1 implies spec_lower(m[j].0) != spec_lower(
                    k,
                ) by {
                    if j > 0 {
                        assert(spec_lower(t[j - 1].0) != spec_lower(k));
                        assert(t[j - 1] == m[j]);
                    }
                }
            },
            None => {
                assert forall|j: int| 0 <= j < m.len() implies spec_lower(m[j].0) != spec_lower(
                    k,
                ) by {
                    if j > 0 {
                        assert(spec_lower(t[j - 1].0) != spec_lower(k));
                        assert(t[j - 1] == m[j]);
                    }
                }
            },
        }
    }
}

impl HeaderMap {
    /// An empty map.
    pub fn new() -> (r: HeaderMap)
        ensures
            r@ == Seq::<(Seq<u8>, Seq<u8>)>::empty(),
    {
        let r = HeaderMap { entries: Vec::new() };
        proof {
            assert(r@ =~= Seq::<(Seq<u8>, Seq<u8>)>::empty());
        }
        r
    }

    /// The number of entries.
    pub fn len(&self) -> (n: usize)
        ensures
            n == self@.len(),
    {
        self.entries.len()
    }

    /// The name and value at position `i`, in insertion order.
    pub fn entry_at(&self, i: usize) -> (r: (&Vec<u8>, &Vec<u8>))
        requires
            i < self@.len(),
        ensures
            r.0@ == self@[i as int].0,
            r.1@ == self@[i as int].1,
    {
        let e = &self.entries[i];
        (&e.0, &e.1)
    }

    fn key_index(&self, k: &[u8]) -> (r: Option<usize>)
        ensures
            match r {
                Some(i) => i < self@.len() && spec_key_index(self@, k@) == Some(i as int),
                None => spec_key_index(self@, k@) is None,
            },
    {
        let n = self.entries.len();
        let mut i: usize = 0;
        while i < n
            invariant
                n == self@.len(),
                i <= n,
                forall|j: int| 0 <= j < i ==> self@[j].0 != k@,
            decreases n - i,
        {
            if bytes_eq(self.entries[i].0.as_slice(), k) {
                proof {
                    assert(self@[i as int].0 == self.entries@[i as int].0@);
                    lemma_key_index(self@, k@);
                }
                return Some(i);
            }
            i += 1;
        }
        proof {
            lemma_key_index(self@, k@);
        }
        None
    }

    /// Binds `k` to `v`, replacing the value of an entry already named `k`
    /// byte for byte, and appending a new entry otherwise.
    pub fn insert(&mut self, k: Vec<u8>, v: Vec<u8>)
        ensures
            final(self)@ == spec_insert(old(self)@, k@, v@),
    {
        let idx = self.key_index(k.as_slice());
        match idx {
            Some(i) => {
                self.entries[i] = (k, v);
                proof {
                    assert(self@ =~= spec_insert(old(self)@, k@, v@));
                }
            },
            None => {
                self.entries.push((k, v));
                proof {
                    assert(self@ =~= spec_insert(old(self)@, k@, v@));
                }
            },
        }
    }

    /// The value bound to `k`, comparing names byte for byte.
    pub fn get(&self, k: &[u8]) -> (r: Option<&Vec<u8>>)
        ensures
            match r {
                Some(v) => spec_get(self@, k@) == Some(v@),
                None => spec_get(self@, k@) is None,
            },
    {
        match self.key_index(k) {
            Some(i) => Some(&self.entries[i].1),
            None => None,
        }
    }

    /// The value bound to `k`, comparing names up to ASCII case.
    pub fn get_ci(&self, k: &[u8]) -> (r: Option<&Vec<u8>>)
        ensures
            match r {
                Some(v) => spec_get_ci(self@, k@) == Some(v@),
                None => spec_get_ci(self@, k@) is None,
            },
    {
        let n = self.entries.len();
        let mut i: usize = 0;
        while i < n
            invariant
                n == self@.len(),
                i <= n,
                forall|j: int| 0 <= j < i ==> spec_lower(self@[j].0) != spec_lower(k@),
            decreases n - i,
        {
            if lower_eq(self.entries[i].0.as_slice(), k) {
                proof {
                    assert(self@[i as int].0 == self.entries@[i as int].0@);
                    assert(self@[i as int].1 == self.entries@[i as int].1@);
                    lemma_ci_index(self@, k@);
                }
                return Some(&self.entries[i].1);
            }
            i += 1;
        }
        proof {
            lemma_ci_index(self@, k@);
        }
        None
    }
}

} // verus!
