//! Data model of the two external stores, reduced to the fields the
//! reconciliation logic reads and writes.
//!
//! A `Device` is owned by the registry; the controller only toggles its
//! finalizer markers. A `Thing` is a twin object; two exist per device: the
//! device facet (annotated here) and the sensor facet (fully owned here).

use vstd::prelude::*;
use crate::ordmap::OrderedMap;

verus! {

/// How a synthetic feature's value is computed: by a script, or as an alias
/// of another property.
#[derive(Clone, Debug, PartialEq)]
pub enum SyntheticType {
    JavaScript(String),
    Alias(String),
}

/// The cached value of a synthetic feature: JSON `null`, or some serialized
/// JSON text. Runtime-only: the differencer never touches it on existing
/// entries and initializes it to `Null` on fresh ones.
#[derive(Clone, Debug, PartialEq)]
pub enum CachedValue {
    Null,
    Json(String),
}

/// A computed property of a Thing.
#[derive(Clone, Debug, PartialEq)]
pub struct SyntheticFeature {
    pub ty: SyntheticType,
    pub value: CachedValue,
    pub last_update: i64,
}

/// Handler code attached to a Thing.
#[derive(Clone, Debug, PartialEq)]
pub enum Code {
    JavaScript(String),
}

/// An on-changed handler. `last_log` is runtime-only.
#[derive(Clone, Debug, PartialEq)]
pub struct Changed {
    pub code: Code,
    pub last_log: Vec<String>,
}

/// An on-deleting handler.
#[derive(Clone, Debug, PartialEq)]
pub struct Deleting {
    pub code: Code,
}

/// A timer-driven handler. Everything besides `code` and `period` is
/// runtime-only.
#[derive(Clone, Debug, PartialEq)]
pub struct Timer {
    pub code: Code,
    /// Period between runs, in milliseconds.
    pub period: u64,
    pub stopped: bool,
    pub last_started: Option<i64>,
    pub last_run: Option<i64>,
    pub last_log: Vec<String>,
    pub initial_delay: Option<u64>,
}

/// The three handler registries of a Thing.
#[derive(Clone, Debug, PartialEq)]
pub struct Reconciliation {
    pub changed: OrderedMap<Changed>,
    pub deleting: OrderedMap<Deleting>,
    pub timers: OrderedMap<Timer>,
}

/// A twin object.
#[derive(Clone, Debug, PartialEq)]
pub struct Thing {
    pub application: String,
    pub name: String,
    pub annotations: OrderedMap<String>,
    pub synthetic_state: OrderedMap<SyntheticFeature>,
    pub reconciliation: Reconciliation,
}

impl Thing {
    pub open spec fn wf(&self) -> bool {
        &&& self.annotations.wf()
        &&& self.synthetic_state.wf()
        &&& self.reconciliation.changed.wf()
        &&& self.reconciliation.deleting.wf()
        &&& self.reconciliation.timers.wf()
    }

    /// A fresh Thing with empty annotations, state and handler registries.
    pub fn new(application: String, name: String) -> (t: Thing)
        ensures
            t.application == application,
            t.name == name,
            t.annotations@ == Seq::<(String, String)>::empty(),
            t.synthetic_state@ == Seq::<(String, SyntheticFeature)>::empty(),
            t.reconciliation.changed@ == Seq::<(String, Changed)>::empty(),
            t.reconciliation.deleting@ == Seq::<(String, Deleting)>::empty(),
            t.reconciliation.timers@ == Seq::<(String, Timer)>::empty(),
            t.wf(),
    {
        Thing {
            application,
            name,
            annotations: OrderedMap::new(),
            synthetic_state: OrderedMap::new(),
            reconciliation: Reconciliation {
                changed: OrderedMap::new(),
                deleting: OrderedMap::new(),
                timers: OrderedMap::new(),
            },
        }
    }
}

/// Whether the finalizer list carries an entry reading `f`.
pub open spec fn has_finalizer(finalizers: Seq<String>, f: Seq<char>) -> bool {
    exists|i: int| 0 <= i < finalizers.len() && finalizers[i]@ == f
}

/// The finalizer list with every entry reading `f` dropped, order kept.
pub open spec fn without_finalizer(fs: Seq<String>, f: Seq<char>) -> Seq<String>
    decreases fs.len(),
{
    if fs.len() == 0 {
        Seq::empty()
    } else if fs.last()@ != f {
        without_finalizer(fs.drop_last(), f).push(fs.last())
    } else {
        without_finalizer(fs.drop_last(), f)
    }
}

/// Every entry of `without_finalizer(fs, f)` comes from `fs` and does not
/// read `f`.
pub proof fn lemma_without_finalizer_pred(fs: Seq<String>, f: Seq<char>)
    ensures
        forall|j: int| 0 <= j < without_finalizer(fs, f).len() ==> #[trigger] without_finalizer(
            fs,
            f,
        )[j]@ != f,
    decreases fs.len(),
{
    if fs.len() > 0 {
        lemma_without_finalizer_pred(fs.drop_last(), f);
        let w = without_finalizer(fs, f);
        let w2 = without_finalizer(fs.drop_last(), f);
        assert forall|j: int| 0 <= j < w.len() implies w[j]@ != f by {
            if fs.last()@ != f {
                assert(w == w2.push(fs.last()));
                if j < w2.len() {
                    assert(w[j] == w2[j]);
                } else {
                    assert(w[j] == fs.last());
                }
            } else {
                assert(w == w2);
            }
        }
    }
}

/// A device record of the registry.
#[derive(Clone, Debug, PartialEq)]
pub struct Device {
    pub application: String,
    pub name: String,
    pub labels: OrderedMap<String>,
    /// Soft-deletion marker: the instant deletion was requested, if any.
    pub deletion_timestamp: Option<i64>,
    pub finalizers: Vec<String>,
}

impl Device {
    pub open spec fn wf(&self) -> bool {
        self.labels.wf()
    }

    /// The fields the controller never writes.
    pub open spec fn same_identity(&self, other: &Device) -> bool {
        &&& self.application == other.application
        &&& self.name == other.name
        &&& self.labels == other.labels
        &&& self.deletion_timestamp == other.deletion_timestamp
    }

    /// Add `finalizer` if it is not present; report whether it was added.
    pub fn ensure_finalizer(&mut self, finalizer: &String) -> (added: bool)
        ensures
            added == !has_finalizer(old(self).finalizers@, finalizer@),
            final(self).same_identity(old(self)),
            added ==> final(self).finalizers@ == old(self).finalizers@.push(*finalizer),
            !added ==> *final(self) == *old(self),
    {
        let n = self.finalizers.len();
        let mut i: usize = 0;
        while i < n
            invariant
                n == self.finalizers@.len(),
                i <= n,
                *self == *old(self),
                forall|j: int| 0 <= j < i ==> self.finalizers@[j]@ != finalizer@,
            decreases n - i,
        {
            if self.finalizers[i] == *finalizer {
                return false;
            }
            i = i + 1;
        }
        self.finalizers.push(finalizer.clone());
        true
    }

    /// Drop every finalizer entry reading `finalizer`, keeping the order of
    /// the rest.
    pub fn remove_finalizer(&mut self, finalizer: &String)
        ensures
            final(self).same_identity(old(self)),
            final(self).finalizers@ == without_finalizer(old(self).finalizers@, finalizer@),
            !has_finalizer(final(self).finalizers@, finalizer@),
    {
        let n = self.finalizers.len();
        let mut kept: Vec<String> = Vec::new();
        let mut i: usize = 0;
        while i < n
            invariant
                n == self.finalizers@.len(),
                i <= n,
                *self == *old(self),
                kept@ == without_finalizer(self.finalizers@.take(i as int), finalizer@),
            decreases n - i,
        {
            proof {
                lemma_without_finalizer_one_more(self.finalizers@, finalizer@, i as int);
            }
            if !(self.finalizers[i] == *finalizer) {
                kept.push(self.finalizers[i].clone());
            }
            i = i + 1;
        }
        proof {
            assert(self.finalizers@.take(n as int) =~= self.finalizers@);
        }
        self.finalizers = kept;
        proof {
            lemma_without_finalizer_pred(old(self).finalizers@, finalizer@);
        }
    }
}

/// Taking one more element extends the filtered prefix by that element
/// exactly when it does not read `f`.
proof fn lemma_without_finalizer_one_more(s: Seq<String>, f: Seq<char>, i: int)
    requires
        0 <= i < s.len(),
    ensures
        s[i]@ != f ==> without_finalizer(s.take(i + 1), f) == without_finalizer(
            s.take(i),
            f,
        ).push(s[i]),
        s[i]@ == f ==> without_finalizer(s.take(i + 1), f) == without_finalizer(s.take(i), f),
{
    assert(s.take(i + 1).drop_last() =~= s.take(i));
    assert(s.take(i + 1).last() == s[i]);
}

} // verus!
