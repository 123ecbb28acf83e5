//! A small map keyed by strings, kept as a vector of entries with distinct keys.
//! Its abstract value is a `Map` from the keys' characters to the values.

use vstd::prelude::*;

verus! {

/// The map that a sequence of entries denotes: a later entry overrides an earlier one.
pub open spec fn map_of<V>(s: Seq<(String, V)>) -> Map<Seq<char>, V>
    decreases s.len(),
{
    if s.len() == 0 {
        Map::empty()
    } else {
        map_of(s.drop_last()).insert(s.last().0@, s.last().1)
    }
}

/// No key occurs twice.
pub open spec fn keys_distinct<V>(s: Seq<(String, V)>) -> bool {
    forall|i: int, j: int| 0 <= i < j < s.len() ==> #[trigger] s[i].0@ != #[trigger] s[j].0@
}

/// The key of each entry is in the denoted map, bound to that entry's value.
pub proof fn lemma_map_of_entries<V>(s: Seq<(String, V)>)
    requires
        keys_distinct(s),
    ensures
        forall|i: int| 0 <= i < s.len() ==> #[trigger] map_of(s).contains_key(s[i].0@)
            && map_of(s)[s[i].0@] == s[i].1,
        forall|k: Seq<char>| #[trigger] map_of(s).contains_key(k) ==> exists|i: int|
            0 <= i < s.len() && s[i].0@ == k,
    decreases s.len(),
{
    if s.len() > 0 {
        let t = s.drop_last();
        assert(keys_distinct(t));
        lemma_map_of_entries(t);
        assert(map_of(s) == map_of(t).insert(s.last().0@, s.last().1));
        assert forall|k: Seq<char>| #[trigger] map_of(s).contains_key(k) implies exists|i: int|
            0 <= i < s.len() && s[i].0@ == k by {
            if k != s.last().0@ {
                assert(map_of(t).contains_key(k));
                let i = choose|i: int| 0 <= i < t.len() && t[i].0@ == k;
                assert(0 <= i < t.len());
                assert(s[i] == t[i]);
            } else {
                assert(s[s.len() - 1].0@ == k);
            }
        }
        assert forall|i: int| 0 <= i < s.len() implies #[trigger] map_of(s).contains_key(s[i].0@)
            && map_of(s)[s[i].0@] == s[i].1 by {
            if i < s.len() - 1 {
                assert(t[i] == s[i]);
                assert(map_of(t).contains_key(t[i].0@));
                assert(s[i].0@ != s[s.len() - 1].0@);
            }
        }
    }
}

/// A key held by no entry is not in the denoted map.
pub proof fn lemma_map_of_absent<V>(s: Seq<(String, V)>, k: Seq<char>)
    requires
        forall|i: int| 0 <= i < s.len() ==> #[trigger] s[i].0@ != k,
    ensures
        !map_of(s).contains_key(k),
    decreases s.len(),
{
    if s.len() > 0 {
        let t = s.drop_last();
        assert forall|i: int| 0 <= i < t.len() implies #[trigger] t[i].0@ != k by {
            assert(t[i] == s[i]);
        }
        lemma_map_of_absent(t, k);
    }
}

/// Replacing the value of an entry replaces the key's value in the denoted map.
pub proof fn lemma_map_of_update<V>(s: Seq<(String, V)>, i: int, e: (String, V))
    requires
        keys_distinct(s),
        0 <= i < s.len(),
        e.0@ == s[i].0@,
    ensures
        map_of(s.update(i, e)) == map_of(s).insert(e.0@, e.1),
        keys_distinct(s.update(i, e)),
    decreases s.len(),
{
    let u = s.update(i, e);
    assert(keys_distinct(u)) by {
        assert forall|a: int, b: int| 0 <= a < b < u.len() implies #[trigger] u[a].0@
            != #[trigger] u[b].0@ by {
            assert(s[a].0@ != s[b].0@);
        }
    }
    if i == s.len() - 1 {
        assert(u.drop_last() =~= s.drop_last());
    } else {
        let t = s.drop_last();
        assert(keys_distinct(t));
        lemma_map_of_update(t, i, e);
        assert(u.drop_last() =~= t.update(i, e));
        assert(s[i].0@ != s.last().0@);
        assert(map_of(u) =~= map_of(s).insert(e.0@, e.1));
    }
}

/// Removing the entry of a key removes the key from the denoted map.
pub proof fn lemma_map_of_remove<V>(s: Seq<(String, V)>, i: int)
    requires
        keys_distinct(s),
        0 <= i < s.len(),
    ensures
        map_of(s.remove(i)) == map_of(s).remove(s[i].0@),
        keys_distinct(s.remove(i)),
    decreases s.len(),
{
    let r = s.remove(i);
    assert(keys_distinct(r)) by {
        assert forall|a: int, b: int| 0 <= a < b < r.len() implies #[trigger] r[a].0@
            != #[trigger] r[b].0@ by {
            let a2 = if a < i { a } else { a + 1 };
            let b2 = if b < i { b } else { b + 1 };
            assert(r[a] == s[a2]);
            assert(r[b] == s[b2]);
        }
    }
    if i == s.len() - 1 {
        assert(r =~= s.drop_last());
        let t = s.drop_last();
        assert forall|j: int| 0 <= j < t.len() implies #[trigger] t[j].0@ != s[i].0@ by {
            assert(t[j] == s[j]);
        }
        lemma_map_of_absent(t, s[i].0@);
        assert(map_of(r) =~= map_of(s).remove(s[i].0@));
    } else {
        let t = s.drop_last();
        assert(keys_distinct(t));
        lemma_map_of_remove(t, i);
        assert(r.drop_last() =~= t.remove(i));
        assert(r.last() == s.last());
        assert(s[i].0@ != s.last().0@);
        assert(map_of(r) =~= map_of(s).remove(s[i].0@));
    }
}

/// With distinct keys, the denoted map has one key per entry.
pub proof fn lemma_map_of_len<V>(s: Seq<(String, V)>)
    requires
        keys_distinct(s),
    ensures
        map_of(s).dom().finite(),
        map_of(s).dom().len() == s.len(),
    decreases s.len(),
{
    if s.len() > 0 {
        let t = s.drop_last();
        assert(keys_distinct(t));
        lemma_map_of_len(t);
        assert forall|i: int| 0 <= i < t.len() implies #[trigger] t[i].0@ != s.last().0@ by {
            assert(s[i].0@ != s[s.len() - 1].0@);
        }
        lemma_map_of_absent(t, s.last().0@);
        assert(map_of(s).dom() =~= map_of(t).dom().insert(s.last().0@));
    } else {
        assert(map_of(s).dom() =~= Set::<Seq<char>>::empty());
    }
}

/// The entries of `s` whose flag in `m` is set, in order.
pub open spec fn filter_mask<V>(s: Seq<(String, V)>, m: Seq<bool>) -> Seq<(String, V)>
    decreases s.len(),
{
    if s.len() == 0 || m.len() == 0 {
        Seq::empty()
    } else {
        let r = filter_mask(s.drop_last(), m.drop_last());
        if m.last() {
            r.push(s.last())
        } else {
            r
        }
    }
}

/// The keys of the entries whose flag is set.
pub open spec fn kept_keys<V>(s: Seq<(String, V)>, m: Seq<bool>) -> Set<Seq<char>> {
    Set::new(|k: Seq<char>| exists|i: int| 0 <= i < s.len() && i < m.len() && m[i] && #[trigger] s[i].0@ == k)
}

/// Keeping the flagged entries keeps the flagged keys, with their values.
pub proof fn lemma_filter_mask<V>(s: Seq<(String, V)>, m: Seq<bool>)
    requires
        keys_distinct(s),
        m.len() == s.len(),
    ensures
        keys_distinct(filter_mask(s, m)),
        map_of(filter_mask(s, m)) == map_of(s).restrict(kept_keys(s, m)),
        forall|i: int| 0 <= i < filter_mask(s, m).len() ==> exists|j: int| 0 <= j < s.len() && m[j] && #[trigger] filter_mask(s, m)[i] == s[j],
    decreases s.len(),
{
    if s.len() > 0 {
        let t = s.drop_last();
        let n = m.drop_last();
        assert(keys_distinct(t));
        lemma_filter_mask(t, n);
        let r = filter_mask(t, n);
        let last = s.last();
        assert forall|i: int| 0 <= i < t.len() implies #[trigger] t[i].0@ != last.0@ by {
            assert(s[i].0@ != s[s.len() - 1].0@);
        }
        lemma_map_of_absent(t, last.0@);
        assert forall|i: int| 0 <= i < r.len() implies #[trigger] r[i].0@ != last.0@ by {
            let j = choose|j: int| 0 <= j < t.len() && n[j] && r[i] == t[j];
            assert(t[j].0@ != last.0@);
        }
        if m.last() {
            let f = r.push(last);
            assert(keys_distinct(f)) by {
                assert forall|a: int, b: int| 0 <= a < b < f.len() implies #[trigger] f[a].0@ != #[trigger] f[b].0@ by {
                    if b == r.len() {
                        assert(r[a].0@ != last.0@);
                    } else {
                        assert(r[a].0@ != r[b].0@);
                    }
                }
            }
            assert forall|i: int| 0 <= i < f.len() implies exists|j: int| 0 <= j < s.len() && m[j] && #[trigger] f[i] == s[j] by {
                if i == r.len() {
                    assert(f[i] == s[s.len() - 1]);
                } else {
                    let j = choose|j: int| 0 <= j < t.len() && n[j] && r[i] == t[j];
                    assert(f[i] == s[j]);
                }
            }
            assert(kept_keys(s, m) =~= kept_keys(t, n).insert(last.0@)) by {
                assert forall|k: Seq<char>| kept_keys(s, m).contains(k) implies kept_keys(t, n).insert(last.0@).contains(k) by {
                    let i = choose|i: int| 0 <= i < s.len() && i < m.len() && m[i] && #[trigger] s[i].0@ == k;
                    if i < t.len() {
                        assert(t[i].0@ == k);
                    }
                }
                assert forall|k: Seq<char>| kept_keys(t, n).insert(last.0@).contains(k) implies kept_keys(s, m).contains(k) by {
                    if k == last.0@ {
                        assert(s[s.len() - 1].0@ == k);
                    } else {
                        let i = choose|i: int| 0 <= i < t.len() && i < n.len() && n[i] && #[trigger] t[i].0@ == k;
                        assert(s[i].0@ == k);
                    }
                }
            }
            assert(f.drop_last() =~= r);
            assert(map_of(f) == map_of(r).insert(last.0@, last.1));
            assert(map_of(s) == map_of(t).insert(last.0@, last.1));
            assert forall|k: Seq<char>| #[trigger] map_of(f).contains_key(k) == map_of(s).restrict(kept_keys(s, m)).contains_key(k) by {
                if k != last.0@ {
                    assert(kept_keys(s, m).contains(k) == kept_keys(t, n).contains(k));
                }
            }
            assert(map_of(f) =~= map_of(s).restrict(kept_keys(s, m)));
        } else {
            assert(kept_keys(s, m) =~= kept_keys(t, n)) by {
                assert forall|k: Seq<char>| kept_keys(s, m).contains(k) implies kept_keys(t, n).contains(k) by {
                    let i = choose|i: int| 0 <= i < s.len() && i < m.len() && m[i] && #[trigger] s[i].0@ == k;
                    assert(i < t.len());
                    assert(t[i].0@ == k);
                }
                assert forall|k: Seq<char>| kept_keys(t, n).contains(k) implies kept_keys(s, m).contains(k) by {
                    let i = choose|i: int| 0 <= i < t.len() && i < n.len() && n[i] && #[trigger] t[i].0@ == k;
                    assert(s[i].0@ == k);
                }
            }
            assert(!kept_keys(s, m).contains(last.0@));
            assert forall|i: int| 0 <= i < r.len() implies exists|j: int| 0 <= j < s.len() && m[j] && #[trigger] r[i] == s[j] by {
                let j = choose|j: int| 0 <= j < t.len() && n[j] && r[i] == t[j];
                assert(r[i] == s[j]);
            }
            assert(map_of(r) =~= map_of(s).restrict(kept_keys(s, m)));
        }
    }
}

/// A map from strings to values.
#[derive(Clone, Debug)]
pub struct StrMap<V> {
    entries: Vec<(String, V)>,
}

impl<V> View for StrMap<V> {
    type V = Map<Seq<char>, V>;

    closed spec fn view(&self) -> Map<Seq<char>, V> {
        map_of(self.entries@)
    }
}

impl<V> StrMap<V> {
    /// Well-formedness: the entries hold distinct keys.
    pub closed spec fn wf(&self) -> bool {
        keys_distinct(self.entries@)
    }

    /// The number of entries.
    pub closed spec fn spec_len(&self) -> nat {
        self.entries@.len()
    }

    /// The key and value of the `i`-th entry.
    pub closed spec fn entry(&self, i: int) -> (Seq<char>, V) {
        (self.entries@[i].0@, self.entries@[i].1)
    }

    /// What the entries say of the map: each key is bound to its entry's value,
    /// and the number of keys is the number of entries.
    pub proof fn lemma_entries(&self)
        requires
            self.wf(),
        ensures
            forall|i: int| 0 <= i < self.spec_len() ==> #[trigger] self@.contains_key(
                self.entry(i).0,
            ) && self@[self.entry(i).0] == self.entry(i).1,
            forall|k: Seq<char>| #[trigger] self@.contains_key(k) ==> exists|i: int|
                0 <= i < self.spec_len() && self.entry(i).0 == k,
            forall|i: int, j: int|
                0 <= i < j < self.spec_len() ==> #[trigger] self.entry(i).0 != #[trigger] self.entry(
                    j,
                ).0,
            self@.dom().finite(),
            self@.dom().len() == self.spec_len(),
    {
        lemma_map_of_entries(self.entries@);
        lemma_map_of_len(self.entries@);
        assert forall|k: Seq<char>| #[trigger] self@.contains_key(k) implies exists|i: int|
            0 <= i < self.spec_len() && self.entry(i).0 == k by {
            let i = choose|i: int| 0 <= i < self.entries@.len() && self.entries@[i].0@ == k;
            assert(self.entry(i).0 == k);
        }
    }

    pub fn new() -> (m: Self)
        ensures
            m.wf(),
            m@ == Map::<Seq<char>, V>::empty(),
            m.spec_len() == 0,
    {
        StrMap { entries: Vec::new() }
    }

    pub fn len(&self) -> (n: usize)
        ensures
            n == self.spec_len(),
            self.wf() ==> n == self@.dom().len() && self@.dom().finite(),
    {
        proof {
            if self.wf() {
                lemma_map_of_len(self.entries@);
            }
        }
        self.entries.len()
    }

    /// The key and value of the `i`-th entry.
    pub fn entry_at(&self, i: usize) -> (r: (&String, &V))
        requires
            i < self.spec_len(),
        ensures
            r.0@ == self.entry(i as int).0,
            *r.1 == self.entry(i as int).1,
    {
        let e = &self.entries[i];
        (&e.0, &e.1)
    }

    /// The index of the entry holding `key`, if there is one.
    fn find(&self, key: &str) -> (r: Option<usize>)
        requires
            self.wf(),
        ensures
            match r {
                Some(i) => i < self.entries@.len() && self.entries@[i as int].0@ == key@,
                None => forall|i: int| 0 <= i < self.entries@.len() ==> #[trigger] self.entries@[i].0@ != key@,
            },
    {
        let k: String = key.to_owned();
        let n = self.entries.len();
        let mut i: usize = 0;
        while i < n
            invariant
                n == self.entries@.len(),
                i <= n,
                k@ == key@,
                forall|j: int| 0 <= j < i ==> #[trigger] self.entries@[j].0@ != key@,
            decreases n - i,
        {
            if self.entries[i].0 == k {
                return Some(i);
            }
            i += 1;
        }
        None
    }

    pub fn contains_key(&self, key: &str) -> (b: bool)
        requires
            self.wf(),
        ensures
            b == self@.contains_key(key@),
    {
        proof {
            lemma_map_of_entries(self.entries@);
        }
        match self.find(key) {
            Some(_) => true,
            None => {
                proof {
                    lemma_map_of_absent(self.entries@, key@);
                }
                false
            },
        }
    }

    pub fn get(&self, key: &str) -> (r: Option<&V>)
        requires
            self.wf(),
        ensures
            match r {
                Some(v) => self@.contains_key(key@) && *v == self@[key@],
                None => !self@.contains_key(key@),
            },
    {
        proof {
            lemma_map_of_entries(self.entries@);
        }
        match self.find(key) {
            Some(i) => {
                proof {
                    assert(map_of(self.entries@).contains_key(self.entries@[i as int].0@));
                }
                Some(&self.entries[i].1)
            },
            None => {
                proof {
                    lemma_map_of_absent(self.entries@, key@);
                }
                None
            },
        }
    }

    /// Binds `key` to `value`, replacing an earlier binding.
    pub fn insert(&mut self, key: String, value: V)
        requires
            old(self).wf(),
        ensures
            final(self).wf(),
            final(self)@ == old(self)@.insert(key@, value),
    {
        match self.find(key.as_str()) {
            Some(i) => {
                proof {
                    lemma_map_of_update(self.entries@, i as int, (key, value));
                }
                self.entries.set(i, (key, value));
            },
            None => {
                let ghost s = self.entries@;
                self.entries.push((key, value));
                proof {
                    assert(self.entries@.drop_last() =~= s);
                    assert(keys_distinct(self.entries@)) by {
                        assert forall|a: int, b: int| 0 <= a < b < self.entries@.len() implies #[trigger] self.entries@[a].0@
                            != #[trigger] self.entries@[b].0@ by {
                            if b == s.len() {
                                assert(s[a].0@ != key@);
                            } else {
                                assert(s[a].0@ != s[b].0@);
                            }
                        }
                    }
                }
            },
        }
    }

    /// Removes the binding of `key`; returns the value it had.
    pub fn remove(&mut self, key: &str) -> (r: Option<V>)
        requires
            old(self).wf(),
        ensures
            final(self).wf(),
            final(self)@ == old(self)@.remove(key@),
            match r {
                Some(v) => old(self)@.contains_key(key@) && v == old(self)@[key@],
                None => !old(self)@.contains_key(key@),
            },
    {
        proof {
            lemma_map_of_entries(self.entries@);
        }
        match self.find(key) {
            Some(i) => {
                proof {
                    lemma_map_of_remove(self.entries@, i as int);
                }
                let e = self.entries.remove(i);
                Some(e.1)
            },
            None => {
                proof {
                    lemma_map_of_absent(self.entries@, key@);
                    assert(map_of(self.entries@).remove(key@) =~= map_of(self.entries@));
                }
                None
            },
        }
    }

    /// Keeps the entries whose flag in `keep` is set (one flag per entry, in entry order).
    pub fn retain_mask(&mut self, keep: &[bool])
        requires
            old(self).wf(),
            keep@.len() == old(self).spec_len(),
        ensures
            final(self).wf(),
            final(self)@ == old(self)@.restrict(
                Set::new(|k: Seq<char>| exists|i: int| 0 <= i < keep@.len() && keep@[i] && #[trigger] old(self).entry(i).0 == k),
            ),
    {
        let ghost orig = self.entries@;
        let n = keep.len();
        let mut i: usize = 0;
        let mut j: usize = 0;
        assert(orig.skip(0) =~= orig);
        assert(orig.take(0) =~= Seq::<(String, V)>::empty());
        while j < n
            invariant
                n == keep@.len(),
                n == orig.len(),
                j <= n,
                i <= j,
                i == filter_mask(orig.take(j as int), keep@.take(j as int)).len(),
                self.entries@ == filter_mask(orig.take(j as int), keep@.take(j as int)) + orig.skip(j as int),
            decreases n - j,
        {
            let ghost f = filter_mask(orig.take(j as int), keep@.take(j as int));
            assert(orig.take(j + 1).drop_last() =~= orig.take(j as int));
            assert(keep@.take(j + 1).drop_last() =~= keep@.take(j as int));
            assert(orig.take(j + 1).last() == orig[j as int]);
            assert(self.entries@[i as int] == orig[j as int]);
            if keep[j] {
                i += 1;
                assert(f.push(orig[j as int]) + orig.skip(j + 1) =~= f + orig.skip(j as int));
            } else {
                self.entries.remove(i);
                assert(self.entries@ =~= f + orig.skip(j + 1));
            }
            j += 1;
        }
        assert(orig.take(n as int) =~= orig);
        assert(keep@.take(n as int) =~= keep@);
        assert(self.entries@ =~= filter_mask(orig, keep@));
        proof {
            lemma_filter_mask(orig, keep@);
            assert(kept_keys(orig, keep@) =~= Set::new(|k: Seq<char>| exists|i: int| 0 <= i < keep@.len() && keep@[i] && #[trigger] old(self).entry(i).0 == k)) by {
                assert forall|k: Seq<char>| kept_keys(orig, keep@).contains(k) implies exists|i: int| 0 <= i < keep@.len() && keep@[i] && #[trigger] old(self).entry(i).0 == k by {
                    let i = choose|i: int| 0 <= i < orig.len() && i < keep@.len() && keep@[i] && #[trigger] orig[i].0@ == k;
                    assert(old(self).entry(i).0 == k);
                }
                assert forall|k: Seq<char>| (exists|i: int| 0 <= i < keep@.len() && keep@[i] && #[trigger] old(self).entry(i).0 == k) implies kept_keys(orig, keep@).contains(k) by {
                    let i = choose|i: int| 0 <= i < keep@.len() && keep@[i] && #[trigger] old(self).entry(i).0 == k;
                    assert(orig[i].0@ == k);
                }
            }
        }
    }

    /// Appends a binding for a key that the map does not hold.
    pub fn push_fresh(&mut self, key: String, value: V)
        requires
            old(self).wf(),
            !old(self)@.contains_key(key@),
        ensures
            final(self).wf(),
            final(self)@ == old(self)@.insert(key@, value),
            final(self).spec_len() == old(self).spec_len() + 1,
            forall|i: int| 0 <= i < old(self).spec_len() ==> #[trigger] final(self).entry(i) == old(self).entry(i),
            final(self).entry(old(self).spec_len() as int) == (key@, value),
    {
        proof {
            lemma_map_of_entries(self.entries@);
        }
        let ghost s = self.entries@;
        self.entries.push((key, value));
        proof {
            assert(self.entries@.drop_last() =~= s);
            assert(keys_distinct(self.entries@)) by {
                assert forall|a: int, b: int| 0 <= a < b < self.entries@.len() implies #[trigger] self.entries@[a].0@
                    != #[trigger] self.entries@[b].0@ by {
                    if b == s.len() {
                        if s[a].0@ == key@ {
                            assert(map_of(s).contains_key(s[a].0@));
                        }
                    } else {
                        assert(s[a].0@ != s[b].0@);
                    }
                }
            }
        }
    }
}

impl<V: Copy> StrMap<V> {
    /// A copy of a map of plain values.
    pub fn copy_map(&self) -> (r: Self)
        requires
            self.wf(),
        ensures
            r.wf(),
            r@ == self@,
            r.spec_len() == self.spec_len(),
    {
        let mut out: Vec<(String, V)> = Vec::new();
        let n = self.entries.len();
        let mut i: usize = 0;
        while i < n
            invariant
                n == self.entries@.len(),
                i <= n,
                out@ == self.entries@.take(i as int),
            decreases n - i,
        {
            let k = self.entries[i].0.clone();
            let v = self.entries[i].1;
            out.push((k, v));
            i += 1;
            assert(out@ =~= self.entries@.take(i as int));
        }
        assert(self.entries@.take(n as int) =~= self.entries@);
        StrMap { entries: out }
    }
}

impl StrMap<String> {
    /// A copy of the map, entry by entry.
    pub fn duplicate(&self) -> (r: Self)
        requires
            self.wf(),
        ensures
            r.wf(),
            r@ == self@,
            r.spec_len() == self.spec_len(),
    {
        let mut out: Vec<(String, String)> = Vec::new();
        let n = self.entries.len();
        let mut i: usize = 0;
        while i < n
            invariant
                n == self.entries@.len(),
                i <= n,
                out@ == self.entries@.take(i as int),
            decreases n - i,
        {
            let k = self.entries[i].0.clone();
            let v = self.entries[i].1.clone();
            out.push((k, v));
            i += 1;
            assert(out@ =~= self.entries@.take(i as int));
        }
        assert(self.entries@.take(n as int) =~= self.entries@);
        StrMap { entries: out }
    }
}

} // verus!
