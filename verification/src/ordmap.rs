//! An insertion-order-preserving mapping from string keys to values.
//!
//! The template differencer needs two kinds of keyed collections: a plain
//! keyed mapping (synthetic features are order-insensitive) and an
//! insertion-order-preserving one (handler and timer registries keep the
//! relative order of pre-existing entries, new entries append). One
//! abstraction serves both: contracts about unordered uses go through
//! [`has_key`] and [`value_of`] alone, ordered uses also pin the entry
//! sequence.

use vstd::prelude::*;

verus! {

use vstd::pervasive::VecAdditionalExecFns;

/// The keys of an entry sequence, as sequences of characters.
pub open spec fn entry_keys<V>(s: Seq<(String, V)>) -> Seq<Seq<char>> {
    Seq::new(s.len(), |i: int| s[i].0@)
}

/// Whether some entry of `s` carries the key `k`.
pub open spec fn has_key<V>(s: Seq<(String, V)>, k: Seq<char>) -> bool {
    exists|i: int| 0 <= i < s.len() && s[i].0@ == k
}

/// The index of the entry carrying key `k`; meaningful only when
/// `has_key(s, k)` holds, unique when `distinct_keys(s)` holds.
pub open spec fn key_index<V>(s: Seq<(String, V)>, k: Seq<char>) -> int {
    choose|i: int| 0 <= i < s.len() && s[i].0@ == k
}

/// The value stored under key `k`; meaningful only when `has_key(s, k)` holds.
pub open spec fn value_of<V>(s: Seq<(String, V)>, k: Seq<char>) -> V {
    s[key_index(s, k)].1
}

/// The key object stored under key `k`; meaningful only when `has_key(s, k)`
/// holds.
pub open spec fn key_string_of<V>(s: Seq<(String, V)>, k: Seq<char>) -> String {
    s[key_index(s, k)].0
}

/// No two entries carry the same key.
pub open spec fn distinct_keys<V>(s: Seq<(String, V)>) -> bool {
    forall|i: int, j: int| 0 <= i < j < s.len() ==> s[i].0@ != s[j].0@
}

pub proof fn lemma_key_index<V>(s: Seq<(String, V)>, k: Seq<char>)
    requires
        has_key(s, k),
    ensures
        0 <= key_index(s, k) < s.len(),
        s[key_index(s, k)].0@ == k,
{
}

pub proof fn lemma_key_index_unique<V>(s: Seq<(String, V)>, k: Seq<char>, i: int)
    requires
        distinct_keys(s),
        0 <= i < s.len(),
        s[i].0@ == k,
    ensures
        key_index(s, k) == i,
        has_key(s, k),
        value_of(s, k) == s[i].1,
        key_string_of(s, k) == s[i].0,
{
    let j = key_index(s, k);
    if j != i {
        if i < j {
            assert(s[i].0@ != s[j].0@);
        } else {
            assert(s[j].0@ != s[i].0@);
        }
    }
}

/// Looking a key up in a well-formed concatenation finds it in whichever
/// part holds it.
pub proof fn lemma_lookup_concat<V>(a: Seq<(String, V)>, b: Seq<(String, V)>, k: Seq<char>)
    requires
        distinct_keys(a + b),
    ensures
        has_key(a, k) ==> has_key(a + b, k) && value_of(a + b, k) == value_of(a, k)
            && key_string_of(a + b, k) == key_string_of(a, k),
        has_key(b, k) ==> has_key(a + b, k) && value_of(a + b, k) == value_of(b, k)
            && key_string_of(a + b, k) == key_string_of(b, k),
{
    if has_key(a, k) {
        lemma_key_index(a, k);
        let i = key_index(a, k);
        assert((a + b)[i] == a[i]);
        lemma_key_index_unique(a + b, k, i);
    }
    if has_key(b, k) {
        lemma_key_index(b, k);
        let i = key_index(b, k);
        assert((a + b)[i + a.len()] == b[i]);
        lemma_key_index_unique(a + b, k, i + a.len());
    }
}

/// Looking a key up after appending a fresh entry: the fresh key maps to the
/// appended value, every other key is unaffected.
pub proof fn lemma_lookup_push<V>(s: Seq<(String, V)>, e: (String, V), k: Seq<char>)
    requires
        distinct_keys(s),
        !has_key(s, e.0@),
    ensures
        distinct_keys(s.push(e)),
        k == e.0@ ==> has_key(s.push(e), k) && value_of(s.push(e), k) == e.1 && key_string_of(
            s.push(e),
            k,
        ) == e.0,
        k != e.0@ && has_key(s, k) ==> has_key(s.push(e), k) && value_of(s.push(e), k)
            == value_of(s, k) && key_string_of(s.push(e), k) == key_string_of(s, k),
        k != e.0@ && !has_key(s, k) ==> !has_key(s.push(e), k),
{
    let t = s.push(e);
    assert forall|i: int, j: int| 0 <= i < j < t.len() implies t[i].0@ != t[j].0@ by {
        if j == s.len() {
            assert(t[i] == s[i]);
            if t[i].0@ == e.0@ {
                assert(has_key(s, e.0@));
            }
        } else {
            assert(t[i] == s[i]);
            assert(t[j] == s[j]);
        }
    }
    if k == e.0@ {
        lemma_key_index_unique(t, k, s.len() as int);
    }
    if k != e.0@ && has_key(s, k) {
        lemma_key_index(s, k);
        let i = key_index(s, k);
        assert(t[i] == s[i]);
        lemma_key_index_unique(t, k, i);
        lemma_key_index_unique(s, k, i);
    }
    if k != e.0@ && !has_key(s, k) && has_key(t, k) {
        let i = key_index(t, k);
        assert(t[i].0@ == k);
        assert(i < s.len() ==> s[i].0@ == k);
    }
}

/// Looking a key up after replacing the value at `k0` in place: `k0` maps to
/// the new value under its old key object, every other key is unaffected.
pub proof fn lemma_lookup_update<V>(s: Seq<(String, V)>, k0: Seq<char>, v: V, k: Seq<char>)
    requires
        distinct_keys(s),
        has_key(s, k0),
    ensures
        ({
            let t = s.update(key_index(s, k0), (s[key_index(s, k0)].0, v));
            &&& distinct_keys(t)
            &&& entry_keys(t) == entry_keys(s)
            &&& k == k0 ==> has_key(t, k) && value_of(t, k) == v && key_string_of(t, k)
                == key_string_of(s, k)
            &&& k != k0 && has_key(s, k) ==> has_key(t, k) && value_of(t, k) == value_of(s, k)
                && key_string_of(t, k) == key_string_of(s, k)
            &&& k != k0 && !has_key(s, k) ==> !has_key(t, k)
        }),
{
    lemma_key_index(s, k0);
    let i0 = key_index(s, k0);
    let t = s.update(i0, (s[i0].0, v));
    assert(entry_keys(t) =~= entry_keys(s));
    assert forall|a: int, b: int| 0 <= a < b < t.len() implies t[a].0@ != t[b].0@ by {
        assert(t[a].0@ == s[a].0@);
        assert(t[b].0@ == s[b].0@);
    }
    if k == k0 {
        lemma_key_index_unique(t, k, i0);
        lemma_key_index_unique(s, k, i0);
    }
    if k != k0 && has_key(s, k) {
        lemma_key_index(s, k);
        let i = key_index(s, k);
        assert(t[i] == s[i]);
        lemma_key_index_unique(t, k, i);
    }
    if k != k0 && !has_key(s, k) && has_key(t, k) {
        let i = key_index(t, k);
        assert(t[i].0@ == s[i].0@);
    }
}

/// Insertion-order-preserving mapping from string keys to values.
#[derive(Clone, Debug, PartialEq)]
pub struct OrderedMap<V> {
    entries: Vec<(String, V)>,
}

impl<V> View for OrderedMap<V> {
    type V = Seq<(String, V)>;

    closed spec fn view(&self) -> Seq<(String, V)> {
        self.entries@
    }
}

impl<V> OrderedMap<V> {
    /// Well-formed: every key occurs at most once.
    pub open spec fn wf(&self) -> bool {
        distinct_keys(self@)
    }

    pub fn new() -> (r: Self)
        ensures
            r@ == Seq::<(String, V)>::empty(),
            r.wf(),
    {
        OrderedMap { entries: Vec::new() }
    }

    pub fn len(&self) -> (n: usize)
        ensures
            n == self@.len(),
    {
        self.entries.len()
    }

    pub fn is_empty(&self) -> (b: bool)
        ensures
            b == (self@.len() == 0),
    {
        self.entries.len() == 0
    }

    /// The position of the first entry carrying `key`, if any.
    fn position(&self, key: &String) -> (r: Option<usize>)
        ensures
            match r {
                Some(i) => i < self@.len() && self@[i as int].0@ == key@ && forall|j: int|
                    0 <= j < i ==> self@[j].0@ != key@,
                None => !has_key(self@, key@),
            },
    {
        let n = self.entries.len();
        let mut i: usize = 0;
        while i < n
            invariant
                n == self@.len(),
                i <= n,
                forall|j: int| 0 <= j < i ==> self@[j].0@ != key@,
            decreases n - i,
        {
            if self.entries[i].0 == *key {
                return Some(i);
            }
            i = i + 1;
        }
        None
    }

    pub fn contains_key(&self, key: &String) -> (b: bool)
        ensures
            b == has_key(self@, key@),
    {
        match self.position(key) {
            Some(i) => {
                proof {
                    assert(self@[i as int].0@ == key@);
                }
                true
            },
            None => false,
        }
    }

    /// Look the key up; `Some` holds exactly the stored value.
    pub fn get(&self, key: &String) -> (r: Option<&V>)
        requires
            self.wf(),
        ensures
            match r {
                Some(v) => has_key(self@, key@) && *v == value_of(self@, key@),
                None => !has_key(self@, key@),
            },
    {
        match self.position(key) {
            Some(i) => {
                proof {
                    lemma_key_index_unique(self@, key@, i as int);
                }
                Some(&self.entries[i].1)
            },
            None => None,
        }
    }

    /// The entry at position `i` in insertion order.
    pub fn entry_at(&self, i: usize) -> (e: &(String, V))
        requires
            i < self@.len(),
        ensures
            *e == self@[i as int],
    {
        &self.entries[i]
    }

    /// Append an entry whose key is not present yet.
    pub fn push(&mut self, key: String, value: V)
        requires
            old(self).wf(),
            !has_key(old(self)@, key@),
        ensures
            final(self)@ == old(self)@.push((key, value)),
            final(self).wf(),
    {
        self.entries.push((key, value));
        proof {
            let s = self@;
            assert forall|i: int, j: int| 0 <= i < j < s.len() implies s[i].0@ != s[j].0@ by {
                if j == s.len() - 1 {
                    assert(s[i] == old(self)@[i]);
                    assert(!has_key(old(self)@, key@));
                }
            }
        }
    }

    /// Insert: replace the value in place if the key is present, append
    /// otherwise.
    pub fn insert(&mut self, key: String, value: V)
        requires
            old(self).wf(),
        ensures
            final(self).wf(),
            has_key(old(self)@, key@) ==> final(self)@ == old(self)@.update(
                key_index(old(self)@, key@),
                (old(self)@[key_index(old(self)@, key@)].0, value),
            ),
            !has_key(old(self)@, key@) ==> final(self)@ == old(self)@.push((key, value)),
    {
        match self.position(&key) {
            Some(i) => {
                proof {
                    lemma_key_index_unique(self@, key@, i as int);
                }
                let stored_key = self.entries[i].0.clone();
                self.entries.set(i, (stored_key, value));
                proof {
                    let s = self@;
                    let o = old(self)@;
                    assert forall|a: int, b: int| 0 <= a < b < s.len() implies s[a].0@ != s[b].0@
                    by {
                        assert(s[a].0@ == o[a].0@);
                        assert(s[b].0@ == o[b].0@);
                    }
                }
            },
            None => {
                self.push(key, value);
            },
        }
    }

    /// Remove the entry carrying `key`, preserving the order of the rest.
    pub fn remove(&mut self, key: &String) -> (r: Option<V>)
        requires
            old(self).wf(),
        ensures
            final(self).wf(),
            match r {
                Some(v) => has_key(old(self)@, key@) && v == value_of(old(self)@, key@)
                    && final(self)@ == old(self)@.remove(key_index(old(self)@, key@)),
                None => !has_key(old(self)@, key@) && final(self)@ == old(self)@,
            },
    {
        match self.position(key) {
            Some(i) => {
                proof {
                    lemma_key_index_unique(self@, key@, i as int);
                }
                let e = self.entries.remove(i);
                proof {
                    let s = self@;
                    let o = old(self)@;
                    assert forall|a: int, b: int| 0 <= a < b < s.len() implies s[a].0@ != s[b].0@
                    by {
                        let oa = if a < i as int {
                            a
                        } else {
                            a + 1
                        };
                        let ob = if b < i as int {
                            b
                        } else {
                            b + 1
                        };
                        assert(s[a] == o[oa]);
                        assert(s[b] == o[ob]);
                    }
                }
                Some(e.1)
            },
            None => None,
        }
    }

    /// Detach the first entry, if any.
    pub fn remove_first(&mut self) -> (r: Option<(String, V)>)
        requires
            old(self).wf(),
        ensures
            final(self).wf(),
            old(self)@.len() == 0 ==> r is None && final(self)@ == old(self)@,
            old(self)@.len() > 0 ==> r == Some(old(self)@[0])
                && final(self)@ == old(self)@.drop_first(),
    {
        if self.entries.len() == 0 {
            None
        } else {
            let e = self.entries.remove(0);
            proof {
                assert(self@ =~= old(self)@.drop_first());
            }
            Some(e)
        }
    }
}

} // verus!
