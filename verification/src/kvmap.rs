//! The key-to-value mapping held in memory.
//!
//! Entries are kept in insertion order so that serialization is
//! deterministic; keys are unique.  The model of a map is its sequence of
//! key-value pairs (see [`KvMap::pairs`]) together with the lookup
//! function [`spec_lookup`] over that sequence.

use vstd::prelude::*;
use crate::text::str_eq;
use crate::value::SpecValue;
use crate::value::Value;
use crate::value::lemma_view_pairs_index;

verus! {

/// The value of the first entry with key `k`, if any.
pub open spec fn spec_lookup(ps: Seq<(Seq<char>, SpecValue)>, k: Seq<char>) -> Option<SpecValue>
    decreases ps.len(),
{
    if ps.len() == 0 {
        None
    } else if ps[0].0 == k {
        Some(ps[0].1)
    } else {
        spec_lookup(ps.skip(1), k)
    }
}

/// Replace the value of the first entry with key `k`, or append a new
/// entry when no entry has that key.
pub open spec fn spec_upsert(
    ps: Seq<(Seq<char>, SpecValue)>,
    k: Seq<char>,
    v: SpecValue,
) -> Seq<(Seq<char>, SpecValue)>
    decreases ps.len(),
{
    if ps.len() == 0 {
        seq![(k, v)]
    } else if ps[0].0 == k {
        seq![(k, v)] + ps.skip(1)
    } else {
        seq![ps[0]] + spec_upsert(ps.skip(1), k, v)
    }
}

/// Drop the first entry with key `k`, if any.
pub open spec fn spec_remove_key(
    ps: Seq<(Seq<char>, SpecValue)>,
    k: Seq<char>,
) -> Seq<(Seq<char>, SpecValue)>
    decreases ps.len(),
{
    if ps.len() == 0 {
        ps
    } else if ps[0].0 == k {
        ps.skip(1)
    } else {
        seq![ps[0]] + spec_remove_key(ps.skip(1), k)
    }
}

/// No two entries share a key.
pub open spec fn spec_unique_keys(ps: Seq<(Seq<char>, SpecValue)>) -> bool {
    forall|i: int, j: int| 0 <= i < j < ps.len() ==> ps[i].0 != ps[j].0
}

/// Lookup is decided by the first occurrence of the key.
pub proof fn lemma_lookup_first(ps: Seq<(Seq<char>, SpecValue)>, k: Seq<char>, i: int)
    requires
        0 <= i < ps.len(),
        ps[i].0 == k,
        forall|j: int| 0 <= j < i ==> ps[j].0 != k,
    ensures
        spec_lookup(ps, k) == Some(ps[i].1),
    decreases i,
{
    if i > 0 {
        assert(ps.skip(1)[i - 1] == ps[i]);
        assert(forall|j: int| 0 <= j < i - 1 ==> #[trigger] ps.skip(1)[j].0 == ps[j + 1].0);
        lemma_lookup_first(ps.skip(1), k, i - 1);
    }
}

/// Lookup of an absent key yields nothing.
pub proof fn lemma_lookup_absent(ps: Seq<(Seq<char>, SpecValue)>, k: Seq<char>)
    requires
        forall|j: int| 0 <= j < ps.len() ==> ps[j].0 != k,
    ensures
        spec_lookup(ps, k) is None,
    decreases ps.len(),
{
    if ps.len() > 0 {
        assert(forall|j: int| 0 <= j < ps.skip(1).len() ==> #[trigger] ps.skip(1)[j].0 == ps[
            j + 1
        ].0);
        lemma_lookup_absent(ps.skip(1), k);
    }
}

/// Updating the first occurrence in place realizes `spec_upsert`.
pub proof fn lemma_upsert_found(
    ps: Seq<(Seq<char>, SpecValue)>,
    k: Seq<char>,
    v: SpecValue,
    i: int,
)
    requires
        0 <= i < ps.len(),
        ps[i].0 == k,
        forall|j: int| 0 <= j < i ==> ps[j].0 != k,
    ensures
        spec_upsert(ps, k, v) == ps.update(i, (k, v)),
    decreases i,
{
    if i == 0 {
        assert(spec_upsert(ps, k, v) =~= ps.update(0, (k, v)));
    } else {
        assert(ps.skip(1)[i - 1] == ps[i]);
        assert(forall|j: int| 0 <= j < i - 1 ==> #[trigger] ps.skip(1)[j].0 == ps[j + 1].0);
        lemma_upsert_found(ps.skip(1), k, v, i - 1);
        assert(spec_upsert(ps, k, v) =~= ps.update(i, (k, v)));
    }
}

/// Appending realizes `spec_upsert` when the key is absent.
pub proof fn lemma_upsert_absent(ps: Seq<(Seq<char>, SpecValue)>, k: Seq<char>, v: SpecValue)
    requires
        forall|j: int| 0 <= j < ps.len() ==> ps[j].0 != k,
    ensures
        spec_upsert(ps, k, v) == ps.push((k, v)),
    decreases ps.len(),
{
    if ps.len() == 0 {
        assert(spec_upsert(ps, k, v) =~= ps.push((k, v)));
    } else {
        assert(forall|j: int| 0 <= j < ps.skip(1).len() ==> #[trigger] ps.skip(1)[j].0 == ps[
            j + 1
        ].0);
        lemma_upsert_absent(ps.skip(1), k, v);
        assert(spec_upsert(ps, k, v) =~= ps.push((k, v)));
    }
}

/// Removing the first occurrence in place realizes `spec_remove_key`.
pub proof fn lemma_remove_found(ps: Seq<(Seq<char>, SpecValue)>, k: Seq<char>, i: int)
    requires
        0 <= i < ps.len(),
        ps[i].0 == k,
        forall|j: int| 0 <= j < i ==> ps[j].0 != k,
    ensures
        spec_remove_key(ps, k) == ps.remove(i),
    decreases i,
{
    if i == 0 {
        assert(spec_remove_key(ps, k) =~= ps.remove(0));
    } else {
        assert(ps.skip(1)[i - 1] == ps[i]);
        assert(forall|j: int| 0 <= j < i - 1 ==> #[trigger] ps.skip(1)[j].0 == ps[j + 1].0);
        lemma_remove_found(ps.skip(1), k, i - 1);
        assert(spec_remove_key(ps, k) =~= ps.remove(i));
    }
}

/// Removal of an absent key changes nothing.
pub proof fn lemma_remove_absent(ps: Seq<(Seq<char>, SpecValue)>, k: Seq<char>)
    requires
        forall|j: int| 0 <= j < ps.len() ==> ps[j].0 != k,
    ensures
        spec_remove_key(ps, k) == ps,
    decreases ps.len(),
{
    if ps.len() > 0 {
        assert(forall|j: int| 0 <= j < ps.skip(1).len() ==> #[trigger] ps.skip(1)[j].0 == ps[
            j + 1
        ].0);
        lemma_remove_absent(ps.skip(1), k);
        assert(spec_remove_key(ps, k) =~= ps);
    }
}

/// Lookup after upsert: the upserted key now yields the new value, every
/// other key is unaffected.
pub proof fn lemma_lookup_upsert(
    ps: Seq<(Seq<char>, SpecValue)>,
    k: Seq<char>,
    v: SpecValue,
    k2: Seq<char>,
)
    ensures
        spec_lookup(spec_upsert(ps, k, v), k2) == if k2 == k {
            Some(v)
        } else {
            spec_lookup(ps, k2)
        },
    decreases ps.len(),
{
    let r = spec_upsert(ps, k, v);
    if ps.len() == 0 {
        if k2 != k {
            assert(r.skip(1) =~= Seq::<(Seq<char>, SpecValue)>::empty());
        }
    } else if ps[0].0 == k {
        assert(r == seq![(k, v)] + ps.skip(1));
        assert(r[0] == (k, v));
        if k2 != k {
            assert(r.skip(1) =~= ps.skip(1));
        }
    } else {
        assert(r == seq![ps[0]] + spec_upsert(ps.skip(1), k, v));
        assert(r[0] == ps[0]);
        assert(r.skip(1) =~= spec_upsert(ps.skip(1), k, v));
        lemma_lookup_upsert(ps.skip(1), k, v, k2);
    }
}

/// Lookup after removal: with unique keys the removed key is gone, every
/// other key is unaffected.
pub proof fn lemma_lookup_remove(ps: Seq<(Seq<char>, SpecValue)>, k: Seq<char>, k2: Seq<char>)
    requires
        spec_unique_keys(ps),
    ensures
        spec_lookup(spec_remove_key(ps, k), k2) == if k2 == k {
            None::<SpecValue>
        } else {
            spec_lookup(ps, k2)
        },
    decreases ps.len(),
{
    let r = spec_remove_key(ps, k);
    if ps.len() == 0 {
    } else if ps[0].0 == k {
        assert(r == ps.skip(1));
        if k2 == k {
            assert(forall|j: int| 0 <= j < ps.skip(1).len() ==> #[trigger] ps.skip(1)[j].0 == ps[
                j + 1
            ].0);
            assert(forall|j: int| 0 <= j < ps.skip(1).len() ==> ps.skip(1)[j].0 != k);
            lemma_lookup_absent(ps.skip(1), k);
        }
    } else {
        assert(r == seq![ps[0]] + spec_remove_key(ps.skip(1), k));
        assert(r[0] == ps[0]);
        assert(r.skip(1) =~= spec_remove_key(ps.skip(1), k));
        assert(forall|i: int, j: int|
            0 <= i < j < ps.skip(1).len() ==> #[trigger] ps.skip(1)[i].0 != #[trigger] ps.skip(
                1,
            )[j].0) by {
            assert(forall|j: int| 0 <= j < ps.skip(1).len() ==> #[trigger] ps.skip(1)[j].0 == ps[
                j + 1
            ].0);
        }
        lemma_lookup_remove(ps.skip(1), k, k2);
    }
}

/// Find the first entry whose key equals `key`.
fn find_in(es: &Vec<(String, Value)>, key: &str) -> (r: Option<usize>)
    ensures
        match r {
            Some(i) => i < es@.len() && es@[i as int].0@ == key@ && (forall|j: int|
                0 <= j < i ==> es@[j].0@ != key@),
            None => forall|j: int| 0 <= j < es@.len() ==> es@[j].0@ != key@,
        },
{
    let mut i: usize = 0;
    while i < es.len()
        invariant
            i <= es@.len(),
            forall|j: int| 0 <= j < i ==> es@[j].0@ != key@,
        decreases es@.len() - i,
    {
        if str_eq(es[i].0.as_str(), key) {
            return Some(i);
        }
        i = i + 1;
    }
    None
}

/// An in-memory key-to-value mapping with unique keys, kept in insertion
/// order.
pub struct KvMap {
    entries: Vec<(String, Value)>,
}

impl KvMap {
    /// Keys are unique.
    #[verifier::type_invariant]
    pub(crate) open spec fn inv(self) -> bool {
        spec_unique_keys(self.pairs())
    }

    /// The model of this map: its entries as key and value models, in
    /// order.
    pub closed spec fn pairs(self) -> Seq<(Seq<char>, SpecValue)> {
        Value::view_pairs(self.entries@)
    }

    /// An empty map.
    pub fn new() -> (r: KvMap)
        ensures
            r.pairs() == Seq::<(Seq<char>, SpecValue)>::empty(),
    {
        let r = KvMap { entries: Vec::new() };
        proof {
            assert(r.pairs() =~= Seq::<(Seq<char>, SpecValue)>::empty());
        }
        r
    }

    /// Build a map from a vector of entries; a later entry wins over an
    /// earlier one with the same key, as when the entries are inserted one
    /// by one.
    pub fn from_entries(es: &Vec<(String, Value)>) -> (r: KvMap)
        ensures
            r.pairs() == spec_dedup(Value::view_pairs(es@)),
    {
        let ghost all = Value::view_pairs(es@);
        let mut r = KvMap::new();
        let mut i: usize = 0;
        proof {
            lemma_view_pairs_index(es@);
            assert(all.take(0) =~= Seq::<(Seq<char>, SpecValue)>::empty());
        }
        while i < es.len()
            invariant
                i <= es@.len(),
                all == Value::view_pairs(es@),
                all.len() == es@.len(),
                forall|j: int| 0 <= j < all.len() ==> #[trigger] all[j] == (
                    es@[j].0@,
                    es@[j].1.view(),
                ),
                r.pairs() == spec_dedup(all.take(i as int)),
            decreases es@.len() - i,
        {
            let k = es[i].0.clone();
            let v = es[i].1.clone();
            r.insert(k, v);
            i = i + 1;
            proof {
                lemma_dedup_step(all, i as int);
                assert(all.take(i as int)[i - 1] == all[i - 1]);
                assert(all.take(i as int).take(i - 1) =~= all.take(i - 1));
            }
        }
        proof {
            assert(all.take(i as int) =~= all);
        }
        r
    }

    /// The value stored under `key`, if any.
    pub fn get(&self, key: &str) -> (r: Option<&Value>)
        ensures
            match r {
                Some(v) => spec_lookup(self.pairs(), key@) == Some(v.view()),
                None => spec_lookup(self.pairs(), key@) is None,
            },
    {
        proof {
            lemma_view_pairs_index(self.entries@);
        }
        match find_in(&self.entries, key) {
            Some(i) => {
                proof {
                    lemma_lookup_first(self.pairs(), key@, i as int);
                }
                Some(&self.entries[i].1)
            }
            None => {
                proof {
                    lemma_lookup_absent(self.pairs(), key@);
                }
                None
            }
        }
    }

    /// Whether `key` is present.
    pub fn contains_key(&self, key: &str) -> (r: bool)
        ensures
            r == (spec_lookup(self.pairs(), key@) is Some),
    {
        match self.get(key) {
            Some(_) => true,
            None => false,
        }
    }

    /// Insert `value` under `key`, replacing any earlier value.
    pub fn insert(&mut self, key: String, value: Value)
        ensures
            final(self).pairs() == spec_upsert(old(self).pairs(), key@, value.view()),
    {
        proof {
            use_type_invariant(&*self);
            lemma_view_pairs_index(self.entries@);
        }
        let ghost ps = self.pairs();
        let mut es: Vec<(String, Value)> = Vec::new();
        core::mem::swap(&mut es, &mut self.entries);
        match find_in(&es, key.as_str()) {
            Some(i) => {
                proof {
                    lemma_upsert_found(ps, key@, value.view(), i as int);
                }
                es[i] = (key, value);
            }
            None => {
                proof {
                    lemma_upsert_absent(ps, key@, value.view());
                }
                es.push((key, value));
            }
        }
        proof {
            lemma_view_pairs_index(es@);
            assert(Value::view_pairs(es@) =~= spec_upsert(ps, key@, value.view()));
            lemma_upsert_unique(ps, key@, value.view());
        }
        self.entries = es;
    }

    /// Remove the entry under `key`; report whether one was there.
    pub fn remove(&mut self, key: &str) -> (r: bool)
        ensures
            r == (spec_lookup(old(self).pairs(), key@) is Some),
            final(self).pairs() == spec_remove_key(old(self).pairs(), key@),
    {
        proof {
            use_type_invariant(&*self);
            lemma_view_pairs_index(self.entries@);
        }
        let ghost ps = self.pairs();
        let mut es: Vec<(String, Value)> = Vec::new();
        core::mem::swap(&mut es, &mut self.entries);
        let r = match find_in(&es, key) {
            Some(i) => {
                proof {
                    lemma_lookup_first(ps, key@, i as int);
                    lemma_remove_found(ps, key@, i as int);
                }
                es.remove(i);
                true
            }
            None => {
                proof {
                    lemma_lookup_absent(ps, key@);
                    lemma_remove_absent(ps, key@);
                }
                false
            }
        };
        proof {
            lemma_view_pairs_index(es@);
            assert(Value::view_pairs(es@) =~= spec_remove_key(ps, key@));
            lemma_remove_unique(ps, key@);
        }
        self.entries = es;
        r
    }

    /// The keys, in storage order.
    pub fn keys(&self) -> (r: Vec<String>)
        ensures
            r@.len() == self.pairs().len(),
            forall|i: int| 0 <= i < r@.len() ==> r@[i]@ == self.pairs()[i].0,
    {
        proof {
            lemma_view_pairs_index(self.entries@);
        }
        let mut r: Vec<String> = Vec::new();
        let mut i: usize = 0;
        while i < self.entries.len()
            invariant
                i <= self.entries@.len(),
                self.pairs().len() == self.entries@.len(),
                forall|j: int| 0 <= j < self.pairs().len() ==> #[trigger] self.pairs()[j] == (
                    self.entries@[j].0@,
                    self.entries@[j].1.view(),
                ),
                r@.len() == i as int,
                forall|j: int| 0 <= j < i ==> r@[j]@ == self.pairs()[j].0,
            decreases self.entries@.len() - i,
        {
            r.push(self.entries[i].0.clone());
            i = i + 1;
        }
        r
    }

    /// The number of entries.
    pub fn len(&self) -> (r: usize)
        ensures
            r == self.pairs().len(),
    {
        proof {
            lemma_view_pairs_index(self.entries@);
        }
        self.entries.len()
    }

    /// The entries themselves, for serialization.
    pub(crate) fn entries_ref(&self) -> (r: &Vec<(String, Value)>)
        ensures
            Value::view_pairs(r@) == self.pairs(),
            spec_unique_keys(self.pairs()),
    {
        proof {
            use_type_invariant(self);
        }
        &self.entries
    }
}

/// Upsert keeps keys unique.
pub proof fn lemma_upsert_unique(ps: Seq<(Seq<char>, SpecValue)>, k: Seq<char>, v: SpecValue)
    requires
        spec_unique_keys(ps),
    ensures
        spec_unique_keys(spec_upsert(ps, k, v)),
{
    if forall|j: int| 0 <= j < ps.len() ==> ps[j].0 != k {
        lemma_upsert_absent(ps, k, v);
        assert(forall|j: int| 0 <= j < ps.len() ==> #[trigger] ps.push((k, v))[j] == ps[j]);
    } else {
        let i = choose|i: int| 0 <= i < ps.len() && ps[i].0 == k;
        assert(forall|j: int| 0 <= j < i ==> ps[j].0 != k);
        lemma_upsert_found(ps, k, v, i);
    }
}

/// Removal keeps keys unique.
pub proof fn lemma_remove_unique(ps: Seq<(Seq<char>, SpecValue)>, k: Seq<char>)
    requires
        spec_unique_keys(ps),
    ensures
        spec_unique_keys(spec_remove_key(ps, k)),
{
    if forall|j: int| 0 <= j < ps.len() ==> ps[j].0 != k {
        lemma_remove_absent(ps, k);
    } else {
        let i = choose|i: int| 0 <= i < ps.len() && ps[i].0 == k;
        assert(forall|j: int| 0 <= j < i ==> ps[j].0 != k);
        lemma_remove_found(ps, k, i);
        assert(spec_unique_keys(ps.remove(i))) by {
            assert(forall|j: int|
                0 <= j < ps.remove(i).len() ==> #[trigger] ps.remove(i)[j] == (if j < i {
                    ps[j]
                } else {
                    ps[j + 1]
                }));
        }
    }
}

/// Entries as inserted one by one: a later entry replaces an earlier one
/// with the same key.
pub open spec fn spec_dedup(ps: Seq<(Seq<char>, SpecValue)>) -> Seq<(Seq<char>, SpecValue)>
    decreases ps.len(),
{
    if ps.len() == 0 {
        ps
    } else {
        spec_upsert(spec_dedup(ps.drop_last()), ps.last().0, ps.last().1)
    }
}

/// One insertion step extends the deduplicated prefix.
pub proof fn lemma_dedup_step(ps: Seq<(Seq<char>, SpecValue)>, i: int)
    requires
        0 < i <= ps.len(),
    ensures
        spec_dedup(ps.take(i)) == spec_upsert(spec_dedup(ps.take(i - 1)), ps[i - 1].0, ps[i - 1].1),
{
    assert(ps.take(i).drop_last() =~= ps.take(i - 1));
    assert(ps.take(i).last() == ps[i - 1]);
}

/// With unique keys, reinserting the entries one by one reproduces the
/// entries exactly.
pub proof fn lemma_dedup_identity(ps: Seq<(Seq<char>, SpecValue)>)
    requires
        spec_unique_keys(ps),
    ensures
        spec_dedup(ps) == ps,
    decreases ps.len(),
{
    if ps.len() > 0 {
        assert(spec_unique_keys(ps.drop_last())) by {
            assert(forall|j: int|
                0 <= j < ps.drop_last().len() ==> #[trigger] ps.drop_last()[j] == ps[j]);
        }
        lemma_dedup_identity(ps.drop_last());
        assert(forall|j: int| 0 <= j < ps.len() - 1 ==> #[trigger] ps.drop_last()[j] == ps[j]);
        assert(forall|j: int| 0 <= j < ps.len() - 1 ==> ps[j].0 != ps.last().0);
        lemma_upsert_absent(ps.drop_last(), ps.last().0, ps.last().1);
        assert(spec_dedup(ps) =~= ps);
    }
}

} // verus!
