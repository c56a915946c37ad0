//! An ordered map from string keys to values: the entries are kept sorted by
//! key, so walking them visits the keys in the order of `str`'s `Ord`, as a
//! `BTreeMap<String, V>` does.
use crate::text::{key_lt, lemma_key_lt_asymmetric, lemma_key_lt_irreflexive, lemma_key_lt_total, lemma_key_lt_transitive, str_eq, str_lt, views};
use vstd::prelude::*;

verus! {

/// Map from string keys to values, stored as entries sorted by key.
#[derive(Debug)]
pub struct StrMap<V> {
    pub entries: Vec<(String, V)>,
}

/// The index of the first entry whose key reads `k`.
pub open spec fn find_key<V>(e: Seq<(String, V)>, k: Seq<char>) -> Option<int>
    decreases e.len(),
{
    if e.len() == 0 {
        None
    } else {
        match find_key(e.drop_last(), k) {
            Some(i) => Some(i),
            None => if e.last().0@ == k {
                Some(e.len() - 1)
            } else {
                None
            },
        }
    }
}

/// The value stored under `k`, if any.
pub open spec fn lookup<V>(e: Seq<(String, V)>, k: Seq<char>) -> Option<V> {
    match find_key(e, k) {
        Some(i) => Some(e[i].1),
        None => None,
    }
}

/// Whether some entry has the key `k`.
pub open spec fn has_key<V>(e: Seq<(String, V)>, k: Seq<char>) -> bool {
    find_key(e, k) is Some
}

/// The keys of the entries, in order.
pub open spec fn key_views<V>(e: Seq<(String, V)>) -> Seq<Seq<char>> {
    e.map_values(|p: (String, V)| p.0@)
}

/// Entries strictly increasing by key: the keys are distinct and sorted.
pub open spec fn sorted_keys<V>(e: Seq<(String, V)>) -> bool {
    forall|i: int, j: int| 0 <= i < j < e.len() ==> key_lt(#[trigger] e[i].0@, #[trigger] e[j].0@)
}

pub proof fn lemma_find_key_bounds<V>(e: Seq<(String, V)>, k: Seq<char>)
    ensures
        find_key(e, k) matches Some(i) ==> 0 <= i < e.len() && e[i].0@ == k && forall|j: int|
            0 <= j < i ==> e[j].0@ != k,
        find_key(e, k) is None ==> forall|j: int| 0 <= j < e.len() ==> e[j].0@ != k,
    decreases e.len(),
{
    if e.len() > 0 {
        let d = e.drop_last();
        lemma_find_key_bounds(d, k);
        assert forall|j: int| 0 <= j < d.len() implies d[j] == e[j] by {}
    }
}

/// In a sorted map an index holds `k` exactly when `find_key` names it.
pub proof fn lemma_find_key_sorted<V>(e: Seq<(String, V)>, k: Seq<char>, i: int)
    requires
        sorted_keys(e),
        0 <= i < e.len(),
        e[i].0@ == k,
    ensures
        find_key(e, k) == Some(i),
{
    lemma_find_key_bounds(e, k);
    if let Some(j) = find_key(e, k) {
        if j < i {
            assert(key_lt(e[j].0@, e[i].0@));
            lemma_key_lt_irreflexive(k);
        }
    }
}

impl<V> StrMap<V> {
    /// Well-formed: keys strictly increasing.
    pub open spec fn wf(&self) -> bool {
        sorted_keys(self.entries@)
    }

    /// The value stored under `k`.
    pub open spec fn spec_get(&self, k: Seq<char>) -> Option<V> {
        lookup(self.entries@, k)
    }

    /// Decides [`StrMap::wf`]: whether the keys are strictly increasing.
    pub fn is_wf(&self) -> (r: bool)
        ensures
            r == self.wf(),
    {
        let e = &self.entries;
        if e.len() == 0 {
            return true;
        }
        let mut i: usize = 1;
        while i < e.len()
            invariant
                e@ == self.entries@,
                1 <= i <= e@.len(),
                sorted_keys(e@.take(i as int)),
            decreases e@.len() - i,
        {
            if !str_lt(e[i - 1].0.as_str(), e[i].0.as_str()) {
                assert(!sorted_keys(e@));
                return false;
            }
            let ghost t = e@.take(i as int + 1);
            assert forall|a: int, b: int| 0 <= a < b < t.len() implies key_lt(#[trigger] t[a].0@, #[trigger] t[b].0@) by {
                assert(t[a] == e@[a] && t[b] == e@[b]);
                if b < i {
                    assert(e@.take(i as int)[a] == e@[a] && e@.take(i as int)[b] == e@[b]);
                } else if a < i - 1 {
                    assert(e@.take(i as int)[a] == e@[a] && e@.take(i as int)[i - 1] == e@[i - 1]);
                    lemma_key_lt_transitive(e@[a].0@, e@[i - 1].0@, e@[b].0@);
                }
            }
            i = i + 1;
        }
        assert(e@.take(i as int) == e@);
        true
    }

    /// An empty map.
    pub fn new() -> (m: Self)
        ensures
            m.wf(),
            m.entries@.len() == 0,
    {
        StrMap { entries: Vec::new() }
    }

    /// Number of entries.
    pub fn len(&self) -> (n: usize)
        ensures
            n == self.entries@.len(),
    {
        self.entries.len()
    }

    /// Index of the entry holding `k`, if any.
    pub(crate) fn position(&self, k: &str) -> (r: Option<usize>)
        ensures
            r matches Some(i) ==> find_key(self.entries@, k@) == Some(i as int),
            r is None ==> find_key(self.entries@, k@) is None,
    {
        let mut i: usize = 0;
        while i < self.entries.len()
            invariant
                i <= self.entries@.len(),
                find_key(self.entries@.take(i as int), k@) is None,
            decreases self.entries@.len() - i,
        {
            let ghost pre = self.entries@.take(i as int + 1);
            assert(pre.drop_last() == self.entries@.take(i as int));
            if str_eq(self.entries[i].0.as_str(), k) {
                assert(find_key(pre, k@) == Some(i as int));
                proof {
                    lemma_find_key_prefix(self.entries@, k@, i as int + 1);
                }
                return Some(i);
            }
            i = i + 1;
        }
        assert(self.entries@.take(i as int) == self.entries@);
        None
    }

    /// The value stored under `k`.
    pub fn get(&self, k: &str) -> (r: Option<&V>)
        ensures
            r is Some == (self.spec_get(k@) is Some),
            r matches Some(v) ==> *v == self.spec_get(k@)->0,
    {
        proof {
            lemma_find_key_bounds(self.entries@, k@);
        }
        match self.position(k) {
            Some(i) => Some(&self.entries[i].1),
            None => None,
        }
    }

    /// Whether an entry has the key `k`.
    pub fn contains_key(&self, k: &str) -> (r: bool)
        ensures
            r == has_key(self.entries@, k@),
    {
        self.position(k).is_some()
    }

    /// The keys, in order.
    pub fn keys(&self) -> (r: Vec<String>)
        ensures
            views(r@) == key_views(self.entries@),
    {
        let mut out: Vec<String> = Vec::new();
        let mut i: usize = 0;
        while i < self.entries.len()
            invariant
                i <= self.entries@.len(),
                out@.len() == i,
                views(out@) == key_views(self.entries@).take(i as int),
            decreases self.entries@.len() - i,
        {
            let ghost before = out@;
            out.push(self.entries[i].0.clone());
            assert(out@ == before.push(self.entries@[i as int].0));
            assert(views(out@) =~= key_views(self.entries@).take(i as int + 1)) by {
                assert forall|j: int| 0 <= j <= i implies views(out@)[j] == key_views(
                    self.entries@,
                )[j] by {
                    if j < i {
                        assert(views(before)[j] == key_views(self.entries@).take(i as int)[j]);
                    }
                }
            }
            i = i + 1;
        }
        assert(key_views(self.entries@).take(i as int) == key_views(self.entries@));
        out
    }

    /// Stores `v` under `k`, keeping the keys sorted; returns the value that was
    /// stored under `k` before, if any.
    pub fn insert(&mut self, k: String, v: V) -> (r: Option<V>)
        requires
            old(self).wf(),
        ensures
            final(self).wf(),
            r == old(self).spec_get(k@),
            final(self).spec_get(k@) == Some(v),
            forall|q: Seq<char>| q != k@ ==> #[trigger] final(self).spec_get(q) == old(self).spec_get(q),
            forall|q: Seq<char>|
                #[trigger] has_key(final(self).entries@, q) == (has_key(old(self).entries@, q) || q
                    == k@),
    {
        let ghost old_e = self.entries@;
        let mut i: usize = 0;
        while i < self.entries.len() && str_lt(self.entries[i].0.as_str(), k.as_str())
            invariant
                self.entries@ == old_e,
                sorted_keys(old_e),
                i <= old_e.len(),
                forall|j: int| 0 <= j < i ==> key_lt(#[trigger] old_e[j].0@, k@),
            decreases old_e.len() - i,
        {
            i = i + 1;
        }
        // Every entry before `i` is below `k`; every entry from `i` on is not.
        assert forall|j: int| i <= j < old_e.len() implies !key_lt(#[trigger] old_e[j].0@, k@) by {
            if j > i {
                lemma_key_lt_total(old_e[i as int].0@, k@);
                if key_lt(old_e[j].0@, k@) {
                    lemma_key_lt_transitive(old_e[i as int].0@, old_e[j].0@, k@);
                }
            }
        }
        if i < self.entries.len() && str_eq(self.entries[i].0.as_str(), k.as_str()) {
            let (old_k, old_v) = self.entries.remove(i);
            self.entries.insert(i, (old_k, v));
            proof {
                let e = self.entries@;
                assert(e == old_e.update(i as int, (old_e[i as int].0, v)));
                assert(sorted_keys(e));
                lemma_find_key_sorted(old_e, k@, i as int);
                lemma_find_key_sorted(e, k@, i as int);
                assert forall|q: Seq<char>| q != k@ implies #[trigger] lookup(e, q) == lookup(old_e, q) by {
                    lemma_find_key_bounds(old_e, q);
                    lemma_find_key_bounds(e, q);
                    if let Some(j) = find_key(old_e, q) {
                        lemma_find_key_sorted(e, q, j);
                    }
                }
                assert forall|q: Seq<char>| #[trigger] has_key(e, q) == (has_key(old_e, q) || q == k@) by {
                    lemma_find_key_bounds(old_e, q);
                    lemma_find_key_bounds(e, q);
                    if let Some(j) = find_key(old_e, q) {
                        lemma_find_key_sorted(e, q, j);
                    }
                    if let Some(j) = find_key(e, q) {
                        lemma_find_key_sorted(old_e, q, j);
                    }
                }
            }
            Some(old_v)
        } else {
            let ghost kv = k@;
            self.entries.insert(i, (k, v));
            proof {
                let e = self.entries@;
                assert(e == old_e.insert(i as int, e[i as int]));
                assert(e[i as int].0@ == kv);
                assert forall|a: int, b: int| 0 <= a < b < e.len() implies key_lt(
                    #[trigger] e[a].0@,
                    #[trigger] e[b].0@,
                ) by {
                    if b == i {
                        assert(e[a] == old_e[a]);
                    } else if a == i {
                        assert(e[b] == old_e[b - 1]);
                        lemma_key_lt_total(old_e[b - 1].0@, kv);
                        if b - 1 > i {
                        }
                        if old_e[b - 1].0@ == kv {
                            lemma_find_key_sorted(old_e, kv, b - 1);
                        }
                    } else if a < i && b > i {
                        assert(e[a] == old_e[a]);
                        assert(e[b] == old_e[b - 1]);
                        assert(key_lt(old_e[a].0@, kv));
                        lemma_key_lt_total(old_e[b - 1].0@, kv);
                        if key_lt(old_e[a].0@, old_e[b - 1].0@) {
                        } else {
                            if old_e[b - 1].0@ == kv {
                            } else {
                                lemma_key_lt_transitive(old_e[a].0@, kv, old_e[b - 1].0@);
                            }
                        }
                    } else if b < i {
                        assert(e[a] == old_e[a]);
                        assert(e[b] == old_e[b]);
                    } else {
                        assert(e[a] == old_e[a - 1]);
                        assert(e[b] == old_e[b - 1]);
                    }
                }
                // `k` was absent: the entry at `i` is not `k`, and all before are below it.
                lemma_find_key_bounds(old_e, kv);
                if let Some(j) = find_key(old_e, kv) {
                    if j < i {
                        lemma_key_lt_irreflexive(kv);
                    } else if j > i {
                        lemma_key_lt_total(old_e[i as int].0@, kv);
                        lemma_key_lt_transitive(old_e[i as int].0@, old_e[j].0@, kv);
                        lemma_key_lt_irreflexive(kv);
                    }
                }
                assert(find_key(old_e, kv) is None);
                lemma_find_key_sorted(e, kv, i as int);
                assert forall|q: Seq<char>| q != kv implies #[trigger] lookup(e, q) == lookup(old_e, q) by {
                    lemma_find_key_bounds(old_e, q);
                    lemma_find_key_bounds(e, q);
                    if let Some(j) = find_key(old_e, q) {
                        if j < i {
                            assert(e[j] == old_e[j]);
                            lemma_find_key_sorted(e, q, j);
                        } else {
                            assert(e[j + 1] == old_e[j]);
                            lemma_find_key_sorted(e, q, j + 1);
                        }
                    }
                    if let Some(j) = find_key(e, q) {
                        if j < i {
                            assert(e[j] == old_e[j]);
                            lemma_find_key_sorted(old_e, q, j);
                        } else if j > i {
                            assert(e[j] == old_e[j - 1]);
                            lemma_find_key_sorted(old_e, q, j - 1);
                        }
                    }
                }
                assert forall|q: Seq<char>| #[trigger] has_key(e, q) == (has_key(old_e, q) || q == kv) by {
                    lemma_find_key_bounds(old_e, q);
                    lemma_find_key_bounds(e, q);
                    if let Some(j) = find_key(old_e, q) {
                        if j < i {
                            assert(e[j] == old_e[j]);
                            lemma_find_key_sorted(e, q, j);
                        } else {
                            assert(e[j + 1] == old_e[j]);
                            lemma_find_key_sorted(e, q, j + 1);
                        }
                    }
                    if let Some(j) = find_key(e, q) {
                        if j < i {
                            assert(e[j] == old_e[j]);
                            lemma_find_key_sorted(old_e, q, j);
                        } else if j > i {
                            assert(e[j] == old_e[j - 1]);
                            lemma_find_key_sorted(old_e, q, j - 1);
                        }
                    }
                }
            }
            None
        }
    }
}

/// `find_key` on a prefix that already holds the key agrees with the whole.
pub proof fn lemma_find_key_prefix<V>(e: Seq<(String, V)>, k: Seq<char>, n: int)
    requires
        0 <= n <= e.len(),
        find_key(e.take(n), k) is Some,
    ensures
        find_key(e, k) == find_key(e.take(n), k),
    decreases e.len() - n,
{
    if n < e.len() {
        assert(e.take(n + 1).drop_last() == e.take(n));
        lemma_find_key_prefix(e, k, n + 1);
    } else {
        assert(e.take(n) == e);
    }
}

/// Two sequences of entries with the same keys (by view) and the same values,
/// position by position.
pub open spec fn same_entries<V>(e1: Seq<(String, V)>, e2: Seq<(String, V)>) -> bool {
    &&& e1.len() == e2.len()
    &&& forall|i: int| 0 <= i < e1.len() ==> (#[trigger] e1[i]).0@ == e2[i].0@ && e1[i].1 == e2[i].1
}

proof fn lemma_lookup_drop_last<V>(e: Seq<(String, V)>, k: Seq<char>)
    requires
        e.len() > 0,
        sorted_keys(e),
    ensures
        k != e.last().0@ ==> lookup(e.drop_last(), k) == lookup(e, k),
        lookup(e.drop_last(), e.last().0@) is None,
{
    let d = e.drop_last();
    lemma_find_key_bounds(d, k);
    if let Some(i) = find_key(d, k) {
        assert(d[i] == e[i]);
    }
    let a = e.last().0@;
    lemma_find_key_bounds(d, a);
    if let Some(i) = find_key(d, a) {
        assert(d[i] == e[i]);
        assert(key_lt(e[i].0@, e[e.len() - 1].0@));
        lemma_key_lt_irreflexive(a);
    }
}

/// Two well-formed entry sequences that store the same value under every key
/// are the same, position by position: the stored order is the key order,
/// whatever order the entries were inserted in.
pub proof fn lemma_sorted_entries_unique<V>(e1: Seq<(String, V)>, e2: Seq<(String, V)>)
    requires
        sorted_keys(e1),
        sorted_keys(e2),
        forall|k: Seq<char>| #[trigger] lookup(e1, k) == lookup(e2, k),
    ensures
        same_entries(e1, e2),
    decreases e1.len() + e2.len(),
{
    if e1.len() == 0 || e2.len() == 0 {
        if e1.len() > 0 {
            lemma_find_key_sorted(e1, e1[0].0@, 0);
            assert(lookup(e1, e1[0].0@) == lookup(e2, e1[0].0@));
        }
        if e2.len() > 0 {
            lemma_find_key_sorted(e2, e2[0].0@, 0);
            assert(lookup(e1, e2[0].0@) == lookup(e2, e2[0].0@));
        }
    } else {
        let n1 = e1.len() - 1;
        let n2 = e2.len() - 1;
        let a = e1[n1].0@;
        let b = e2[n2].0@;
        lemma_find_key_sorted(e1, a, n1);
        lemma_find_key_sorted(e2, b, n2);
        assert(lookup(e1, b) == lookup(e2, b));
        assert(lookup(e1, a) == lookup(e2, a));
        lemma_find_key_bounds(e1, b);
        lemma_find_key_bounds(e2, a);
        if a != b {
            let j1 = find_key(e1, b).unwrap();
            let j2 = find_key(e2, a).unwrap();
            assert(key_lt(e1[j1].0@, e1[n1].0@));
            assert(key_lt(e2[j2].0@, e2[n2].0@));
            lemma_key_lt_asymmetric(b, a);
        }
        assert(e1[n1].1 == e2[n2].1);
        let d1 = e1.drop_last();
        let d2 = e2.drop_last();
        assert forall|k: Seq<char>| #[trigger] lookup(d1, k) == lookup(d2, k) by {
            lemma_lookup_drop_last(e1, k);
            lemma_lookup_drop_last(e2, k);
            assert(lookup(e1, k) == lookup(e2, k));
        }
        assert(sorted_keys(d1)) by {
            assert forall|i: int, j: int| 0 <= i < j < d1.len() implies key_lt(#[trigger] d1[i].0@, #[trigger] d1[j].0@) by {
                assert(d1[i] == e1[i] && d1[j] == e1[j]);
            }
        }
        assert(sorted_keys(d2)) by {
            assert forall|i: int, j: int| 0 <= i < j < d2.len() implies key_lt(#[trigger] d2[i].0@, #[trigger] d2[j].0@) by {
                assert(d2[i] == e2[i] && d2[j] == e2[j]);
            }
        }
        lemma_sorted_entries_unique(d1, d2);
        assert forall|i: int| 0 <= i < e1.len() implies (#[trigger] e1[i]).0@ == e2[i].0@ && e1[i].1 == e2[i].1 by {
            if i < n1 {
                assert(d1[i] == e1[i] && d2[i] == e2[i]);
            }
        }
    }
}

} // verus!
