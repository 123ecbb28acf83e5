//! The in-memory file cache of a site: small files by path, dropped least
//! recently used first when the cached bytes would pass the limit, each served
//! while its time to live lasts.
//!
//! The entries sit in an `lru::LruCache`. What it holds is named here as the
//! sequence of its entries from the least to the most recently used one; each
//! method the cache calls has a contract over that sequence, read from the
//! crate's source.

use vstd::prelude::*;

verus! {

#[verifier::external_type_specification]
#[verifier::external_body]
#[verifier::reject_recursive_types(K)]
#[verifier::reject_recursive_types(V)]
#[verifier::reject_recursive_types(S)]
pub struct ExLruCache<K, V, S>(lru::LruCache<K, V, S>);

#[verifier::external_type_specification]
#[verifier::external_body]
pub struct ExLruHasher(lru::DefaultHasher);

/// A cached file: its bytes, its media type, when it was cached (seconds since
/// the epoch), how long it may be served (seconds) and its size in bytes.
pub struct CacheEntry {
    pub data: Vec<u8>,
    pub mime: String,
    pub created: u64,
    pub ttl: u64,
    pub size: u64,
}

/// The entries of an LRU cache, from the least to the most recently used one.
pub uninterp spec fn lru_entries(c: lru::LruCache<String, CacheEntry>) -> Seq<(Seq<char>, CacheEntry)>;

/// The number of entries an LRU cache was made to hold.
pub uninterp spec fn lru_capacity(c: lru::LruCache<String, CacheEntry>) -> nat;

/// The position of the entry for `key`, if there is one.
pub open spec fn position_of(entries: Seq<(Seq<char>, CacheEntry)>, key: Seq<char>) -> Option<int> {
    if exists|i: int| 0 <= i < entries.len() && #[trigger] entries[i].0 == key {
        Some(choose|i: int| 0 <= i < entries.len() && #[trigger] entries[i].0 == key)
    } else {
        None
    }
}

/// The entries after `put(key, value)`: an entry for `key` is replaced and becomes
/// the most recently used; a new key goes last, and when the cache is full the
/// least recently used entry makes room for it.
pub open spec fn put_entries(entries: Seq<(Seq<char>, CacheEntry)>, cap: nat, key: Seq<char>, value: CacheEntry) -> Seq<(Seq<char>, CacheEntry)> {
    match position_of(entries, key) {
        Some(i) => entries.remove(i).push((key, value)),
        None => if entries.len() == cap {
            entries.drop_first().push((key, value))
        } else {
            entries.push((key, value))
        },
    }
}

/// `LruCache::new` with capacity `cap` (which the crate takes as a
/// `NonZeroUsize`): an empty cache for `cap` entries.
#[verifier::external_body]
fn lru_new(cap: usize) -> (c: lru::LruCache<String, CacheEntry>)
    requires
        cap > 0,
    ensures
        lru_entries(c) == Seq::<(Seq<char>, CacheEntry)>::empty(),
        lru_capacity(c) == cap,
{
    lru::LruCache::new(std::num::NonZeroUsize::new(cap).unwrap())
}

/// `LruCache::peek`: the entry for `key`, without changing the order.
#[verifier::external_body]
fn lru_peek<'a>(c: &'a lru::LruCache<String, CacheEntry>, key: &str) -> (r: Option<&'a CacheEntry>)
    ensures
        match position_of(lru_entries(*c), key@) {
            Some(i) => r == Some(&lru_entries(*c)[i].1),
            None => r is None,
        },
{
    c.peek(key)
}

/// `LruCache::put`: stores `value` under `key` as the most recently used entry,
/// and returns the value it replaced.
#[verifier::external_body]
fn lru_put(c: &mut lru::LruCache<String, CacheEntry>, key: String, value: CacheEntry) -> (r: Option<CacheEntry>)
    ensures
        lru_capacity(*final(c)) == lru_capacity(*old(c)),
        lru_entries(*final(c)) == put_entries(lru_entries(*old(c)), lru_capacity(*old(c)), key@, value),
        match position_of(lru_entries(*old(c)), key@) {
            Some(i) => r == Some(lru_entries(*old(c))[i].1),
            None => r is None,
        },
{
    c.put(key, value)
}

/// `LruCache::pop_lru`: removes and returns the least recently used entry.
#[verifier::external_body]
fn lru_pop(c: &mut lru::LruCache<String, CacheEntry>) -> (r: Option<(String, CacheEntry)>)
    ensures
        lru_capacity(*final(c)) == lru_capacity(*old(c)),
        lru_entries(*old(c)).len() == 0 ==> r is None && lru_entries(*final(c)) == lru_entries(*old(c)),
        lru_entries(*old(c)).len() > 0 ==> {
            &&& r matches Some(p) && p.0@ == lru_entries(*old(c))[0].0 && p.1 == lru_entries(*old(c))[0].1
            &&& lru_entries(*final(c)) == lru_entries(*old(c)).drop_first()
        },
{
    c.pop_lru()
}

/// `LruCache::is_empty`.
#[verifier::external_body]
fn lru_is_empty(c: &lru::LruCache<String, CacheEntry>) -> (b: bool)
    ensures
        b == (lru_entries(*c).len() == 0),
{
    c.is_empty()
}

// ───────────────────────── the file cache ─────────────────────────

/// The number of files a cache holds at most.
pub const CACHE_ENTRIES: usize = 10000;

/// The largest file that is cached, in bytes.
pub const MAX_CACHED_FILE: u64 = 1048576;

/// The bytes of a list of entries, as their sizes add up.
pub open spec fn cached_bytes(entries: Seq<(Seq<char>, CacheEntry)>) -> int
    decreases entries.len(),
{
    if entries.len() == 0 {
        0
    } else {
        cached_bytes(entries.drop_last()) + entries.last().1.size
    }
}

/// No key occurs twice.
pub open spec fn keys_unique(entries: Seq<(Seq<char>, CacheEntry)>) -> bool {
    forall|i: int, j: int| 0 <= i < j < entries.len() ==> #[trigger] entries[i].0 != #[trigger] entries[j].0
}

/// Whether an entry may still be served at `now`: less time than its time to live
/// has passed since it was cached (none, when the clock reads an earlier time).
pub open spec fn fresh(e: CacheEntry, now: u64) -> bool {
    (if now >= e.created {
        now - e.created
    } else {
        0
    }) < e.ttl
}

/// `a - b`, or zero.
pub open spec fn less(a: u64, b: u64) -> u64 {
    if a >= b {
        (a - b) as u64
    } else {
        0
    }
}

/// The entries left, and the bytes accounted, after the least recently used
/// entries are dropped one by one while there are any and the accounted bytes and
/// `size` more would pass `max` (each drop takes its size off the account).
pub open spec fn evicted(entries: Seq<(Seq<char>, CacheEntry)>, current: u64, size: u64, max: u64) -> (Seq<(Seq<char>, CacheEntry)>, u64)
    decreases entries.len(),
{
    if entries.len() > 0 && current + size > max {
        evicted(entries.drop_first(), less(current, entries[0].1.size), size, max)
    } else {
        (entries, current)
    }
}

/// `a + b`, or the largest value when that does not fit.
pub open spec fn more(a: u64, b: u64) -> u64 {
    if a + b > u64::MAX {
        u64::MAX
    } else {
        (a + b) as u64
    }
}

proof fn lemma_bytes_nonneg(s: Seq<(Seq<char>, CacheEntry)>)
    ensures
        cached_bytes(s) >= 0,
    decreases s.len(),
{
    if s.len() > 0 {
        lemma_bytes_nonneg(s.drop_last());
    }
}

proof fn lemma_bytes_drop_first(s: Seq<(Seq<char>, CacheEntry)>)
    requires
        s.len() > 0,
    ensures
        cached_bytes(s.drop_first()) == cached_bytes(s) - s[0].1.size,
    decreases s.len(),
{
    if s.len() > 1 {
        assert(s.drop_first().drop_last() =~= s.drop_last().drop_first());
        lemma_bytes_drop_first(s.drop_last());
    } else {
        assert(s.drop_first() =~= Seq::<(Seq<char>, CacheEntry)>::empty());
        assert(s.drop_last() =~= Seq::<(Seq<char>, CacheEntry)>::empty());
    }
}

proof fn lemma_bytes_remove(s: Seq<(Seq<char>, CacheEntry)>, i: int)
    requires
        0 <= i < s.len(),
    ensures
        cached_bytes(s.remove(i)) == cached_bytes(s) - s[i].1.size,
    decreases s.len(),
{
    if i == s.len() - 1 {
        assert(s.remove(i) =~= s.drop_last());
    } else {
        assert(s.remove(i).drop_last() =~= s.drop_last().remove(i));
        assert(s.remove(i).last() == s.last());
        lemma_bytes_remove(s.drop_last(), i);
    }
}

proof fn lemma_bytes_bound(s: Seq<(Seq<char>, CacheEntry)>, m: u64)
    requires
        forall|i: int| 0 <= i < s.len() ==> #[trigger] s[i].1.size <= m,
    ensures
        cached_bytes(s) <= s.len() * m,
    decreases s.len(),
{
    if s.len() > 0 {
        let d = s.drop_last();
        assert forall|i: int| 0 <= i < d.len() implies #[trigger] d[i].1.size <= m by {
            assert(d[i] == s[i]);
        }
        lemma_bytes_bound(d, m);
        assert(s.last() == s[s.len() - 1]);
        assert((d.len() * m) + m == s.len() * m) by (nonlinear_arith)
            requires
                d.len() + 1 == s.len(),
        ;
    }
}

proof fn lemma_position(s: Seq<(Seq<char>, CacheEntry)>, key: Seq<char>, i: int)
    requires
        keys_unique(s),
        0 <= i < s.len(),
        s[i].0 == key,
    ensures
        position_of(s, key) == Some(i),
{
    let j = choose|j: int| 0 <= j < s.len() && #[trigger] s[j].0 == key;
    if j < i {
        assert(s[j].0 != s[i].0);
    } else if i < j {
        assert(s[i].0 != s[j].0);
    }
}

/// Dropping entries from the front keeps the keys apart, the sizes bounded and
/// the account covering what is left; when it stops, the cache is empty or the
/// new bytes fit.
proof fn lemma_evicted(entries: Seq<(Seq<char>, CacheEntry)>, current: u64, size: u64, max: u64)
    requires
        keys_unique(entries),
        forall|i: int| 0 <= i < entries.len() ==> #[trigger] entries[i].1.size <= MAX_CACHED_FILE,
        cached_bytes(entries) <= current,
    ensures
        ({
            let (kept, cur) = evicted(entries, current, size, max);
            &&& keys_unique(kept)
            &&& kept.len() <= entries.len()
            &&& forall|i: int| 0 <= i < kept.len() ==> #[trigger] kept[i].1.size <= MAX_CACHED_FILE
            &&& cached_bytes(kept) <= cur
            &&& kept.len() == 0 || cur + size <= max
        }),
    decreases entries.len(),
{
    if entries.len() > 0 && current + size > max {
        let d = entries.drop_first();
        lemma_bytes_drop_first(entries);
        lemma_bytes_nonneg(d);
        assert forall|i: int, j: int| 0 <= i < j < d.len() implies #[trigger] d[i].0 != #[trigger] d[j].0 by {
            assert(entries[i + 1].0 != entries[j + 1].0);
        }
        assert forall|i: int| 0 <= i < d.len() implies #[trigger] d[i].1.size <= MAX_CACHED_FILE by {
            assert(entries[i + 1].1.size <= MAX_CACHED_FILE);
        }
        lemma_evicted(d, less(current, entries[0].1.size), size, max);
    }
}

/// Storing an entry keeps the keys apart and the count within the capacity, adds
/// at most its size to the bytes, and leaves it as the entry of its key.
proof fn lemma_put(entries: Seq<(Seq<char>, CacheEntry)>, cap: nat, key: Seq<char>, e: CacheEntry)
    requires
        keys_unique(entries),
        entries.len() <= cap,
        cap > 0,
    ensures
        ({
            let p = put_entries(entries, cap, key, e);
            &&& keys_unique(p)
            &&& p.len() <= cap
            &&& p.len() > 0
            &&& p.last() == (key, e)
            &&& cached_bytes(p) <= cached_bytes(entries) + e.size
            &&& position_of(p, key) == Some(p.len() - 1)
            &&& forall|i: int| 0 <= i < p.len() - 1 ==> exists|j: int| 0 <= j < entries.len() && #[trigger] p[i] == entries[j]
        }),
{
    let p = put_entries(entries, cap, key, e);
    lemma_bytes_nonneg(entries);
    match position_of(entries, key) {
        Some(i) => {
            let r = entries.remove(i);
            lemma_bytes_remove(entries, i);
            assert(p.drop_last() =~= r);
            assert forall|a: int, b: int| 0 <= a < b < r.len() implies #[trigger] r[a].0 != #[trigger] r[b].0 by {
                let ea = if a < i { a } else { a + 1 };
                let eb = if b < i { b } else { b + 1 };
                assert(r[a] == entries[ea]);
                assert(r[b] == entries[eb]);
            }
            assert forall|a: int| 0 <= a < r.len() implies #[trigger] r[a].0 != key by {
                let ea = if a < i { a } else { a + 1 };
                assert(r[a] == entries[ea]);
                if ea < i {
                    assert(entries[ea].0 != entries[i].0);
                } else {
                    assert(entries[i].0 != entries[ea].0);
                }
            }
            assert forall|a: int| 0 <= a < p.len() - 1 implies exists|j: int| 0 <= j < entries.len() && #[trigger] p[a] == entries[j] by {
                let ea = if a < i { a } else { a + 1 };
                assert(p[a] == entries[ea]);
            }
        },
        None => {
            assert forall|a: int| 0 <= a < entries.len() implies #[trigger] entries[a].0 != key by {
                if entries[a].0 == key {
                    assert(exists|j: int| 0 <= j < entries.len() && #[trigger] entries[j].0 == key);
                }
            }
            if entries.len() == cap {
                let d = entries.drop_first();
                lemma_bytes_drop_first(entries);
                lemma_bytes_nonneg(d);
                assert(p.drop_last() =~= d);
                assert forall|a: int| 0 <= a < p.len() - 1 implies exists|j: int| 0 <= j < entries.len() && #[trigger] p[a] == entries[j] by {
                    assert(p[a] == entries[a + 1]);
                }
                assert forall|a: int, b: int| 0 <= a < b < p.len() implies #[trigger] p[a].0 != #[trigger] p[b].0 by {
                    assert(p[a] == entries[a + 1]);
                    if b < p.len() - 1 {
                        assert(p[b] == entries[b + 1]);
                    }
                }
            } else {
                assert(p.drop_last() =~= entries);
                assert forall|a: int| 0 <= a < p.len() - 1 implies exists|j: int| 0 <= j < entries.len() && #[trigger] p[a] == entries[j] by {
                    assert(p[a] == entries[a]);
                }
                assert forall|a: int, b: int| 0 <= a < b < p.len() implies #[trigger] p[a].0 != #[trigger] p[b].0 by {
                    assert(p[a] == entries[a]);
                    if b < p.len() - 1 {
                        assert(p[b] == entries[b]);
                    }
                }
            }
        },
    }
    lemma_position(p, key, p.len() - 1);
}

/// A file cache: the entries, the byte limit and the bytes accounted so far.
pub struct FileCache {
    entries: lru::LruCache<String, CacheEntry>,
    max_size: u64,
    current_size: u64,
}

impl FileCache {
    /// The entries, from the least to the most recently used one.
    pub closed spec fn contents(&self) -> Seq<(Seq<char>, CacheEntry)> {
        lru_entries(self.entries)
    }

    /// The byte limit.
    pub closed spec fn limit(&self) -> u64 {
        self.max_size
    }

    /// The bytes accounted so far. Entries that the cache itself drops to make
    /// room, or that a newer copy replaces, stay on the account.
    pub closed spec fn accounted(&self) -> u64 {
        self.current_size
    }

    /// The entries are held by key, each no larger than the largest cached file,
    /// no more than the cache was made for, and the account covers their bytes.
    pub closed spec fn wf(&self) -> bool {
        &&& lru_capacity(self.entries) == CACHE_ENTRIES
        &&& self.contents().len() <= CACHE_ENTRIES
        &&& keys_unique(self.contents())
        &&& forall|i: int| 0 <= i < self.contents().len() ==> #[trigger] self.contents()[i].1.size <= MAX_CACHED_FILE
        &&& cached_bytes(self.contents()) <= self.current_size
    }

    /// An empty cache with a limit of `max_size` bytes.
    pub fn new(max_size: u64) -> (c: FileCache)
        ensures
            c.wf(),
            c.contents() == Seq::<(Seq<char>, CacheEntry)>::empty(),
            c.limit() == max_size,
            c.accounted() == 0,
    {
        FileCache { entries: lru_new(CACHE_ENTRIES), max_size, current_size: 0 }
    }

    /// The cached entry for `key`, when there is one that may still be served at
    /// `now` (seconds since the epoch).
    pub fn lookup(&self, key: &str, now: u64) -> (r: Option<&CacheEntry>)
        ensures
            match position_of(self.contents(), key@) {
                Some(i) => if fresh(self.contents()[i].1, now) {
                    r == Some(&self.contents()[i].1)
                } else {
                    r is None
                },
                None => r is None,
            },
    {
        match lru_peek(&self.entries, key) {
            Some(e) => {
                let age: u64 = if now >= e.created {
                    now - e.created
                } else {
                    0
                };
                if age < e.ttl {
                    Some(e)
                } else {
                    None
                }
            },
            None => None,
        }
    }

    /// Caches the file `key` read at `now`, to be served for `ttl` seconds, when it
    /// is no larger than the largest cached file: first the least recently used
    /// entries are dropped while the accounted bytes and the new ones would pass
    /// the limit, then the new bytes are accounted and the entry is stored as the
    /// most recently used (replacing an entry of the same key). Returns whether it
    /// was cached.
    pub fn store(&mut self, key: String, data: Vec<u8>, mime: String, now: u64, ttl: u64) -> (stored: bool)
        requires
            old(self).wf(),
        ensures
            final(self).wf(),
            final(self).limit() == old(self).limit(),
            stored == (data@.len() <= MAX_CACHED_FILE),
            !stored ==> final(self).contents() == old(self).contents() && final(self).accounted() == old(self).accounted(),
            stored ==> {
                let (kept, cur) = evicted(old(self).contents(), old(self).accounted(), data@.len() as u64, old(self).limit());
                let e = CacheEntry { data, mime, created: now, ttl, size: data@.len() as u64 };
                &&& final(self).contents() == put_entries(kept, CACHE_ENTRIES as nat, key@, e)
                &&& final(self).accounted() == more(cur, data@.len() as u64)
            },
    {
        let len = data.len();
        if len as u64 > MAX_CACHED_FILE {
            return false;
        }
        let size: u64 = len as u64;
        let ghost start = (self.contents(), self.current_size);
        proof {
            lemma_evicted(self.contents(), self.current_size, size, self.max_size);
        }
        while !lru_is_empty(&self.entries) && (self.current_size as u128) + (size as u128) > (self.max_size as u128)
            invariant
                lru_capacity(self.entries) == CACHE_ENTRIES,
                self.contents().len() <= CACHE_ENTRIES,
                keys_unique(self.contents()),
                forall|i: int| 0 <= i < self.contents().len() ==> #[trigger] self.contents()[i].1.size <= MAX_CACHED_FILE,
                cached_bytes(self.contents()) <= self.current_size,
                self.max_size == old(self).max_size,
                evicted(start.0, start.1, size, self.max_size) == evicted(self.contents(), self.current_size, size, self.max_size),
            decreases self.contents().len(),
        {
            let ghost before = self.contents();
            proof {
                lemma_evicted(before, self.current_size, size, self.max_size);
                lemma_bytes_drop_first(before);
                lemma_bytes_nonneg(before.drop_first());
            }
            match lru_pop(&mut self.entries) {
                Some(p) => {
                    self.current_size = self.current_size.saturating_sub(p.1.size);
                },
                None => {},
            }
            proof {
                let d = before.drop_first();
                assert forall|i: int, j: int| 0 <= i < j < d.len() implies #[trigger] d[i].0 != #[trigger] d[j].0 by {
                    assert(before[i + 1].0 != before[j + 1].0);
                }
                assert forall|i: int| 0 <= i < d.len() implies #[trigger] d[i].1.size <= MAX_CACHED_FILE by {
                    assert(before[i + 1].1.size <= MAX_CACHED_FILE);
                }
            }
        }
        let ghost kept = self.contents();
        let ghost cur = self.current_size;
        proof {
            lemma_evicted(kept, cur, size, self.max_size);
            assert(evicted(kept, cur, size, self.max_size) == (kept, cur));
            lemma_put(kept, CACHE_ENTRIES as nat, key@, CacheEntry { data, mime, created: now, ttl, size });
        }
        self.current_size = self.current_size.saturating_add(size);
        let entry = CacheEntry { data, mime, created: now, ttl, size };
        let _ = lru_put(&mut self.entries, key, entry);
        proof {
            let p = self.contents();
            assert forall|i: int| 0 <= i < p.len() implies #[trigger] p[i].1.size <= MAX_CACHED_FILE by {
                if i < p.len() - 1 {
                    let j = choose|j: int| 0 <= j < kept.len() && #[trigger] p[i] == kept[j];
                    assert(kept[j].1.size <= MAX_CACHED_FILE);
                } else {
                    assert(p[i] == p.last());
                }
            }
            lemma_bytes_bound(p, MAX_CACHED_FILE);
            assert(p.len() * MAX_CACHED_FILE <= 10000 * 1048576) by (nonlinear_arith)
                requires
                    p.len() <= 10000,
            ;
        }
        true
    }
}

/// The cache keeps within its limit: when every cached entry is no larger than
/// the limit, the bytes held after a file is stored (the least recently used
/// entries dropped first, as `store` does) are no more than the limit.
pub proof fn law_cache_within_limit(
    entries: Seq<(Seq<char>, CacheEntry)>,
    current: u64,
    max: u64,
    key: Seq<char>,
    e: CacheEntry,
)
    requires
        keys_unique(entries),
        entries.len() <= CACHE_ENTRIES,
        forall|i: int| 0 <= i < entries.len() ==> #[trigger] entries[i].1.size <= MAX_CACHED_FILE,
        cached_bytes(entries) <= current,
        e.size <= MAX_CACHED_FILE,
        e.size <= max,
    ensures
        ({
            let (kept, cur) = evicted(entries, current, e.size, max);
            cached_bytes(put_entries(kept, CACHE_ENTRIES as nat, key, e)) <= max
        }),
{
    lemma_evicted(entries, current, e.size, max);
    let (kept, cur) = evicted(entries, current, e.size, max);
    lemma_put(kept, CACHE_ENTRIES as nat, key, e);
    if kept.len() == 0 {
        let p = put_entries(kept, CACHE_ENTRIES as nat, key, e);
        assert(p =~= seq![(key, e)]);
        assert(p.drop_last() =~= Seq::<(Seq<char>, CacheEntry)>::empty());
    }
}

/// A file just stored is what a lookup of its key finds, at the time it was
/// stored when its time to live is positive.
pub proof fn law_stored_file_is_served(
    entries: Seq<(Seq<char>, CacheEntry)>,
    key: Seq<char>,
    e: CacheEntry,
    now: u64,
)
    requires
        keys_unique(entries),
        entries.len() <= CACHE_ENTRIES,
        e.created == now,
        e.ttl > 0,
    ensures
        ({
            let p = put_entries(entries, CACHE_ENTRIES as nat, key, e);
            &&& position_of(p, key) matches Some(i) && p[i].1 == e
            &&& fresh(e, now)
        }),
{
    lemma_put(entries, CACHE_ENTRIES as nat, key, e);
}

} // verus!
