//! The store engine: an in-memory mapping from string keys to string values.
//!
//! The store is modelled two ways at once: as the sequence of its entries in
//! insertion order (`entries`), and as the mapping those entries describe
//! (`view`). Every operation states what it does to both, so that callers can
//! reason about the mapping while the listing order stays pinned down.

use vstd::prelude::*;

verus! {

/// One key/value pair held by the store.
pub struct Entry {
    pub key: String,
    pub value: String,
}

impl DeepView for Entry {
    type V = (Seq<char>, Seq<char>);

    open spec fn deep_view(&self) -> (Seq<char>, Seq<char>) {
        (self.key@, self.value@)
    }
}

/// No key occurs twice among the entries.
pub open spec fn distinct_keys(s: Seq<(Seq<char>, Seq<char>)>) -> bool {
    forall|i: int, j: int| 0 <= i < j < s.len() ==> s[i].0 != s[j].0
}

/// The mapping described by a sequence of entries, later entries winning.
pub open spec fn map_of_entries(s: Seq<(Seq<char>, Seq<char>)>) -> Map<Seq<char>, Seq<char>>
    decreases s.len(),
{
    if s.len() == 0 {
        Map::empty()
    } else {
        map_of_entries(s.drop_last()).insert(s.last().0, s.last().1)
    }
}

/// Position of the first entry at or after `from` whose key is `k`.
pub open spec fn key_find_from(s: Seq<(Seq<char>, Seq<char>)>, from: int, k: Seq<char>) -> Option<
    int,
>
    decreases s.len() - from,
{
    if from < 0 || from >= s.len() {
        None
    } else if s[from].0 == k {
        Some(from)
    } else {
        key_find_from(s, from + 1, k)
    }
}

/// Position of the first entry whose key is `k`.
pub open spec fn key_find(s: Seq<(Seq<char>, Seq<char>)>, k: Seq<char>) -> Option<int> {
    key_find_from(s, 0, k)
}

/// What `key_find_from` returns: the first entry with key `k` at or after
/// `from`, with no earlier match.
pub proof fn lemma_key_find_props(s: Seq<(Seq<char>, Seq<char>)>, from: int, k: Seq<char>)
    requires
        0 <= from <= s.len(),
    ensures
        match key_find_from(s, from, k) {
            Some(i) => from <= i < s.len() && s[i].0 == k && (forall|j: int|
                from <= j < i ==> s[j].0 != k),
            None => forall|j: int| from <= j < s.len() ==> s[j].0 != k,
        },
    decreases s.len() - from,
{
    if from < s.len() && s[from].0 != k {
        lemma_key_find_props(s, from + 1, k);
    }
}

/// A key is in the mapping exactly when some entry carries it.
pub proof fn lemma_map_contains_key(s: Seq<(Seq<char>, Seq<char>)>, k: Seq<char>)
    ensures
        map_of_entries(s).contains_key(k) <==> exists|i: int| 0 <= i < s.len() && s[i].0 == k,
    decreases s.len(),
{
    if s.len() > 0 {
        lemma_map_contains_key(s.drop_last(), k);
        if s.last().0 == k {
            assert(s[s.len() - 1].0 == k);
        } else {
            if map_of_entries(s).contains_key(k) {
                let i = choose|i: int| 0 <= i < s.drop_last().len() && s.drop_last()[i].0 == k;
                assert(s[i].0 == k);
            }
            if exists|i: int| 0 <= i < s.len() && s[i].0 == k {
                let i = choose|i: int| 0 <= i < s.len() && s[i].0 == k;
                assert(i < s.len() - 1);
                assert(s.drop_last()[i].0 == k);
            }
        }
    }
}

/// With distinct keys, the mapping holds each entry's value under its key.
pub proof fn lemma_map_value_at(s: Seq<(Seq<char>, Seq<char>)>, i: int)
    requires
        distinct_keys(s),
        0 <= i < s.len(),
    ensures
        map_of_entries(s).contains_key(s[i].0),
        map_of_entries(s)[s[i].0] == s[i].1,
    decreases s.len(),
{
    if i < s.len() - 1 {
        assert(distinct_keys(s.drop_last()));
        assert(s.drop_last()[i] == s[i]);
        lemma_map_value_at(s.drop_last(), i);
        assert(s[i].0 != s.last().0);
    }
}

/// Appending an entry with a fresh key inserts it into the mapping.
pub proof fn lemma_map_push(s: Seq<(Seq<char>, Seq<char>)>, k: Seq<char>, v: Seq<char>)
    ensures
        map_of_entries(s.push((k, v))) == map_of_entries(s).insert(k, v),
{
    assert(s.push((k, v)).drop_last() =~= s);
    assert(s.push((k, v)).last() == (k, v));
}

/// Overwriting the entry at `i` in place updates its key's mapping.
pub proof fn lemma_map_update(s: Seq<(Seq<char>, Seq<char>)>, i: int, v2: Seq<char>)
    requires
        distinct_keys(s),
        0 <= i < s.len(),
    ensures
        map_of_entries(s.update(i, (s[i].0, v2))) == map_of_entries(s).insert(s[i].0, v2),
    decreases s.len(),
{
    let k = s[i].0;
    let s2 = s.update(i, (k, v2));
    if i == s.len() - 1 {
        assert(s2.drop_last() =~= s.drop_last());
        assert(map_of_entries(s.drop_last()).insert(k, s[i].1).insert(k, v2) =~= map_of_entries(
            s.drop_last(),
        ).insert(k, v2));
    } else {
        assert(distinct_keys(s.drop_last()));
        assert(s.drop_last()[i] == s[i]);
        lemma_map_update(s.drop_last(), i, v2);
        assert(s2.drop_last() =~= s.drop_last().update(i, (k, v2)));
        assert(s2.last() == s.last());
        assert(k != s.last().0);
        assert(map_of_entries(s.drop_last()).insert(k, v2).insert(s.last().0, s.last().1)
            =~= map_of_entries(s.drop_last()).insert(s.last().0, s.last().1).insert(k, v2));
    }
}

/// Removing the one entry with key `k` removes `k` from the mapping.
pub proof fn lemma_map_remove(s: Seq<(Seq<char>, Seq<char>)>, i: int)
    requires
        distinct_keys(s),
        0 <= i < s.len(),
    ensures
        map_of_entries(s.remove(i)) == map_of_entries(s).remove(s[i].0),
    decreases s.len(),
{
    let k = s[i].0;
    if i == s.len() - 1 {
        assert(s.remove(i) =~= s.drop_last());
        lemma_map_contains_key(s.drop_last(), k);
        assert(forall|j: int| 0 <= j < s.drop_last().len() ==> s.drop_last()[j] == s[j]);
        assert(!map_of_entries(s.drop_last()).contains_key(k));
        assert(map_of_entries(s.drop_last()).insert(k, s.last().1).remove(k) =~= map_of_entries(
            s.drop_last(),
        ));
    } else {
        assert(distinct_keys(s.drop_last()));
        assert(s.drop_last()[i] == s[i]);
        lemma_map_remove(s.drop_last(), i);
        assert(s.remove(i).len() == s.len() - 1);
        assert(s.remove(i).drop_last() =~= s.drop_last().remove(i));
        assert(s.remove(i).last() == s.last());
        assert(k != s.last().0);
        assert(map_of_entries(s.drop_last()).remove(k).insert(s.last().0, s.last().1)
            =~= map_of_entries(s.drop_last()).insert(s.last().0, s.last().1).remove(k));
    }
}

/// The entries after an insert-or-overwrite of `k` to `v`.
pub open spec fn put_entries(s: Seq<(Seq<char>, Seq<char>)>, k: Seq<char>, v: Seq<char>) -> Seq<
    (Seq<char>, Seq<char>),
> {
    match key_find(s, k) {
        None => s.push((k, v)),
        Some(i) => s.update(i, (k, v)),
    }
}

/// The entries after a remove of `k`, if it is present.
pub open spec fn delete_entries(s: Seq<(Seq<char>, Seq<char>)>, k: Seq<char>) -> Seq<
    (Seq<char>, Seq<char>),
> {
    match key_find(s, k) {
        None => s,
        Some(i) => s.remove(i),
    }
}

/// An insert-or-overwrite keeps keys distinct, inserts into the mapping, and
/// leaves an entry holding the new value.
pub proof fn lemma_put_entries(s: Seq<(Seq<char>, Seq<char>)>, k: Seq<char>, v: Seq<char>)
    requires
        distinct_keys(s),
    ensures
        distinct_keys(put_entries(s, k, v)),
        map_of_entries(put_entries(s, k, v)) == map_of_entries(s).insert(k, v),
        exists|i: int|
            0 <= i < put_entries(s, k, v).len() && put_entries(s, k, v)[i] == (k, v),
{
    lemma_key_find_props(s, 0, k);
    let s2 = put_entries(s, k, v);
    match key_find(s, k) {
        None => {
            lemma_map_push(s, k, v);
            assert(forall|j: int| 0 <= j < s.len() ==> s2[j] == s[j]);
            assert(s2[s.len() as int] == (k, v));
            assert(distinct_keys(s2));
        },
        Some(i) => {
            lemma_map_update(s, i, v);
            assert(forall|j: int| 0 <= j < s.len() && j != i ==> s2[j] == s[j]);
            assert(s2[i] == (k, v));
            assert forall|a: int, b: int| 0 <= a < b < s2.len() implies s2[a].0 != s2[b].0 by {
                assert(s2[a].0 == s[a].0);
                assert(s2[b].0 == s[b].0);
            }
        },
    }
}

/// A remove keeps keys distinct, removes the key from the mapping, and
/// reports presence exactly when an entry carried the key.
pub proof fn lemma_delete_entries(s: Seq<(Seq<char>, Seq<char>)>, k: Seq<char>)
    requires
        distinct_keys(s),
    ensures
        distinct_keys(delete_entries(s, k)),
        map_of_entries(delete_entries(s, k)) == map_of_entries(s).remove(k),
        key_find(s, k) is Some <==> map_of_entries(s).contains_key(k),
{
    lemma_key_find_props(s, 0, k);
    lemma_map_contains_key(s, k);
    let s2 = delete_entries(s, k);
    match key_find(s, k) {
        None => {
            assert(map_of_entries(s).remove(k) =~= map_of_entries(s));
        },
        Some(i) => {
            lemma_map_remove(s, i);
            s.remove_ensures(i);
            assert forall|a: int, b: int| 0 <= a < b < s2.len() implies s2[a].0 != s2[b].0 by {
                let a0: int = if a < i {
                    a
                } else {
                    a + 1
                };
                let b0: int = if b < i {
                    b
                } else {
                    b + 1
                };
                assert(s2[a] == s[a0]);
                assert(s2[b] == s[b0]);
            }
        },
    }
}

/// The live mapping of keys to values, owned by the process and shared by
/// every handler through one mutual-exclusion domain (held by the caller).
pub struct KvStore {
    items: Vec<Entry>,
}

impl View for KvStore {
    type V = Map<Seq<char>, Seq<char>>;

    open spec fn view(&self) -> Map<Seq<char>, Seq<char>> {
        map_of_entries(self.entries())
    }
}

impl KvStore {
    /// The entries in insertion order, each as a (key, value) pair.
    pub closed spec fn entries(self) -> Seq<(Seq<char>, Seq<char>)> {
        self.items.deep_view()
    }

    /// Every key is held by at most one entry.
    pub open spec fn wf(self) -> bool {
        distinct_keys(self.entries())
    }

    /// Creates an empty store.
    pub fn new() -> (r: KvStore)
        ensures
            r.wf(),
            r.entries() == Seq::<(Seq<char>, Seq<char>)>::empty(),
            r@ == Map::<Seq<char>, Seq<char>>::empty(),
    {
        let r = KvStore { items: Vec::new() };
        proof {
            assert(r.entries() =~= Seq::<(Seq<char>, Seq<char>)>::empty());
        }
        r
    }

    /// Index of the entry holding `k`, if any.
    fn find_index(&self, k: &str) -> (r: Option<usize>)
        ensures
            match r {
                Some(i) => i < self.entries().len() && key_find(self.entries(), k@) == Some(
                    i as int,
                ),
                None => key_find(self.entries(), k@) is None,
            },
    {
        let ghost s = self.entries();
        let mut i: usize = 0;
        while i < self.items.len()
            invariant
                i <= self.items.len(),
                s == self.entries(),
                s.len() == self.items.len(),
                key_find(s, k@) == key_find_from(s, i as int, k@),
            decreases self.items.len() - i,
        {
            proof {
                assert(s[i as int] == (self.items[i as int].key@, self.items[i as int].value@));
            }
            if crate::text::str_eq(self.items[i].key.as_str(), k) {
                return Some(i);
            }
            i = i + 1;
        }
        None
    }

    /// Point lookup: the value stored under `k`, if any; read-only.
    pub fn get(&self, k: &str) -> (r: Option<String>)
        requires
            self.wf(),
        ensures
            match r {
                Some(v) => self@.contains_key(k@) && v@ == self@[k@],
                None => !self@.contains_key(k@),
            },
    {
        match self.find_index(k) {
            Some(i) => {
                proof {
                    lemma_key_find_props(self.entries(), 0, k@);
                    lemma_map_value_at(self.entries(), i as int);
                }
                Some(self.items[i].value.clone())
            },
            None => {
                proof {
                    lemma_key_find_props(self.entries(), 0, k@);
                    lemma_map_contains_key(self.entries(), k@);
                }
                None
            },
        }
    }

    /// Whether the store holds an entry under `k`; read-only.
    pub fn contains(&self, k: &str) -> (r: bool)
        requires
            self.wf(),
        ensures
            r == self@.contains_key(k@),
    {
        match self.find_index(k) {
            Some(i) => {
                proof {
                    lemma_key_find_props(self.entries(), 0, k@);
                    lemma_map_value_at(self.entries(), i as int);
                }
                true
            },
            None => {
                proof {
                    lemma_key_find_props(self.entries(), 0, k@);
                    lemma_map_contains_key(self.entries(), k@);
                }
                false
            },
        }
    }

    /// Insert-or-overwrite; always succeeds.
    pub fn put(&mut self, key: String, value: String)
        requires
            old(self).wf(),
        ensures
            final(self).wf(),
            final(self).entries() == put_entries(old(self).entries(), key@, value@),
            final(self)@ == old(self)@.insert(key@, value@),
    {
        let ghost s = self.entries();
        proof {
            lemma_put_entries(s, key@, value@);
        }
        match self.find_index(&key) {
            Some(i) => {
                self.items.set(i, Entry { key, value });
                proof {
                    assert(self.entries() =~= s.update(i as int, (key@, value@)));
                    lemma_key_find_props(s, 0, key@);
                    assert(s[i as int].0 == key@);
                }
            },
            None => {
                self.items.push(Entry { key, value });
                proof {
                    assert(self.entries() =~= s.push((key@, value@)));
                }
            },
        }
    }

    /// Removes the entry under `k`; reports whether it was present.
    /// An absent key is a normal outcome, never a fault.
    pub fn delete(&mut self, k: &str) -> (r: bool)
        requires
            old(self).wf(),
        ensures
            final(self).wf(),
            r == old(self)@.contains_key(k@),
            final(self).entries() == delete_entries(old(self).entries(), k@),
            final(self)@ == old(self)@.remove(k@),
    {
        let ghost s = self.entries();
        proof {
            lemma_delete_entries(s, k@);
        }
        match self.find_index(k) {
            Some(i) => {
                self.items.remove(i);
                proof {
                    assert(self.entries() =~= s.remove(i as int));
                }
                true
            },
            None => {
                proof {
                    assert(final(self)@ =~= old(self)@.remove(k@));
                }
                false
            },
        }
    }

    /// A consistent copy of every entry, in insertion order, taken while the
    /// caller holds the store exclusively.
    pub fn snapshot_all(&self) -> (r: Vec<Entry>)
        ensures
            r.deep_view() == self.entries(),
    {
        let mut v: Vec<Entry> = Vec::new();
        let mut i: usize = 0;
        while i < self.items.len()
            invariant
                i <= self.items.len(),
                self.entries().len() == self.items.len(),
                v.deep_view() == self.entries().take(i as int),
            decreases self.items.len() - i,
        {
            let ghost v0 = v.deep_view();
            proof {
                assert(v0.len() == i);
                assert(v@.len() == i);
            }
            v.push(
                Entry {
                    key: self.items[i].key.clone(),
                    value: self.items[i].value.clone(),
                },
            );
            proof {
                assert(v@[i as int].deep_view() == self.entries()[i as int]);
                assert(forall|j: int| 0 <= j < i ==> #[trigger] v@[j].deep_view() == v0[j]);
                assert(v.deep_view() =~= self.entries().take(i as int + 1));
            }
            i = i + 1;
        }
        proof {
            assert(self.entries().take(self.items.len() as int) =~= self.entries());
        }
        v
    }
}

/// Round trip: storing `v` under `k` and then looking `k` up yields `v`,
/// for every mapping, key and value.
pub proof fn lemma_put_then_get(m: Map<Seq<char>, Seq<char>>, k: Seq<char>, v: Seq<char>)
    ensures
        m.insert(k, v).contains_key(k),
        m.insert(k, v)[k] == v,
{
}

/// Delete then get: once `k` is removed, looking `k` up finds nothing,
/// for every mapping and key.
pub proof fn lemma_delete_then_get(m: Map<Seq<char>, Seq<char>>, k: Seq<char>)
    ensures
        !m.remove(k).contains_key(k),
{
}

/// Idempotent overwrite: writing `v1` then `v2` under `k` leaves exactly the
/// mapping with `v2` under `k`, as if `v1` had never been written.
pub proof fn lemma_overwrite(m: Map<Seq<char>, Seq<char>>, k: Seq<char>, v1: Seq<char>, v2: Seq<
    char,
>)
    ensures
        m.insert(k, v1).insert(k, v2)[k] == v2,
        m.insert(k, v1).insert(k, v2) == m.insert(k, v2),
{
    assert(m.insert(k, v1).insert(k, v2) =~= m.insert(k, v2));
}

/// Overwriting at the entry level: after two puts to `k` the store still has
/// distinct keys, so exactly one entry carries `k`, and it holds `v2`.
pub proof fn lemma_overwrite_entries(
    s: Seq<(Seq<char>, Seq<char>)>,
    k: Seq<char>,
    v1: Seq<char>,
    v2: Seq<char>,
)
    requires
        distinct_keys(s),
    ensures
        distinct_keys(put_entries(put_entries(s, k, v1), k, v2)),
        exists|i: int|
            0 <= i < put_entries(put_entries(s, k, v1), k, v2).len() && put_entries(
                put_entries(s, k, v1),
                k,
                v2,
            )[i] == (k, v2),
{
    lemma_put_entries(s, k, v1);
    lemma_put_entries(put_entries(s, k, v1), k, v2);
}

/// Serialized puts to distinct keys land independently: both values are
/// visible afterwards, and the order of the two puts does not matter.
pub proof fn lemma_distinct_puts(
    m: Map<Seq<char>, Seq<char>>,
    k1: Seq<char>,
    v1: Seq<char>,
    k2: Seq<char>,
    v2: Seq<char>,
)
    requires
        k1 != k2,
    ensures
        m.insert(k1, v1).insert(k2, v2)[k1] == v1,
        m.insert(k1, v1).insert(k2, v2)[k2] == v2,
        m.insert(k1, v1).insert(k2, v2) == m.insert(k2, v2).insert(k1, v1),
{
    assert(m.insert(k1, v1).insert(k2, v2) =~= m.insert(k2, v2).insert(k1, v1));
}

/// The mapping after a batch of puts, applied in order.
pub open spec fn apply_puts(
    m: Map<Seq<char>, Seq<char>>,
    ps: Seq<(Seq<char>, Seq<char>)>,
) -> Map<Seq<char>, Seq<char>>
    decreases ps.len(),
{
    if ps.len() == 0 {
        m
    } else {
        apply_puts(m, ps.drop_last()).insert(ps.last().0, ps.last().1)
    }
}

/// Concurrent safety, under the store's serialization: however many puts to
/// pairwise distinct keys run, once they have all been serialized, every one
/// of them is visible — no entry is lost or overwritten by a sibling.
pub proof fn lemma_concurrent_puts(m: Map<Seq<char>, Seq<char>>, ps: Seq<(Seq<char>, Seq<char>)>)
    requires
        distinct_keys(ps),
    ensures
        forall|i: int|
            0 <= i < ps.len() ==> apply_puts(m, ps).contains_key(#[trigger] ps[i].0)
                && apply_puts(m, ps)[ps[i].0] == ps[i].1,
    decreases ps.len(),
{
    if ps.len() > 0 {
        assert(distinct_keys(ps.drop_last()));
        lemma_concurrent_puts(m, ps.drop_last());
        assert forall|i: int|
            0 <= i < ps.len() implies apply_puts(m, ps).contains_key(#[trigger] ps[i].0)
            && apply_puts(m, ps)[ps[i].0] == ps[i].1 by {
            if i < ps.len() - 1 {
                assert(ps.drop_last()[i] == ps[i]);
                assert(ps[i].0 != ps.last().0);
            }
        }
    }
}

/// List consistency: with no mutation in flight, the entries are exactly the
/// mapping — each entry's key maps to its value, and every key in the mapping
/// is carried by some entry holding its value.
pub proof fn lemma_snapshot_consistency(s: Seq<(Seq<char>, Seq<char>)>)
    requires
        distinct_keys(s),
    ensures
        forall|i: int|
            0 <= i < s.len() ==> map_of_entries(s).contains_key(#[trigger] s[i].0)
                && map_of_entries(s)[s[i].0] == s[i].1,
        forall|k: Seq<char>|
            #[trigger] map_of_entries(s).contains_key(k) ==> exists|i: int|
                0 <= i < s.len() && s[i] == (k, map_of_entries(s)[k]),
{
    assert forall|i: int|
        0 <= i < s.len() implies map_of_entries(s).contains_key(#[trigger] s[i].0)
        && map_of_entries(s)[s[i].0] == s[i].1 by {
        lemma_map_value_at(s, i);
    }
    assert forall|k: Seq<char>| #[trigger]
        map_of_entries(s).contains_key(k) implies exists|i: int|
        0 <= i < s.len() && s[i] == (k, map_of_entries(s)[k]) by {
        lemma_map_contains_key(s, k);
        let i = choose|i: int| 0 <= i < s.len() && s[i].0 == k;
        lemma_map_value_at(s, i);
        assert(s[i] == (k, map_of_entries(s)[k]));
    }
}

} // verus!
