//! The bucket table of the session store that worker processes share: a fixed
//! number of buckets, each empty, holding a session under its identifier, or
//! deleted; an identifier is placed by a 32-bit FNV-1a hash and linear probing.
//! A bucket keeps the identifier in 64 NUL-padded bytes and the serialized
//! session in up to 880 bytes.
//!
//! The table is held here as plain values; the layout of a bucket in memory is
//! given by the offsets below.

use vstd::prelude::*;
use vstd::utf8::encode_utf8;
use crate::handler::{utf8_lossy, utf8_lossy_of};

verus! {

/// The tag of a table's header.
pub const SHM_MAGIC: u64 = 0x534553534F484F53;
/// The bytes an identifier occupies in a bucket.
pub const KEY_MAX_LEN: usize = 64;
/// The most bytes of session data a bucket holds.
pub const DATA_MAX_LEN: usize = 880;
/// The bytes of a bucket.
pub const BUCKET_SIZE: usize = 960;
/// The bytes of the header before the first bucket.
pub const HDR_SIZE: usize = 64;
/// The number of buckets when none is asked for.
pub const DEFAULT_NUM_BUCKETS: u32 = 65536;

/// A bucket that never held a session.
pub const EMPTY: u8 = 0;
/// A bucket holding a session.
pub const OCCUPIED: u8 = 1;
/// A bucket whose session was deleted.
pub const DELETED: u8 = 2;

/// The 32-bit FNV-1a hash of some bytes.
pub open spec fn fnv32_spec(data: Seq<u8>) -> u32
    decreases data.len(),
{
    if data.len() == 0 {
        2166136261
    } else {
        vstd::wrapping::u32_specs::wrapping_mul(fnv32_spec(data.drop_last()) ^ (data.last() as u32), 16777619)
    }
}

fn fnv32(data: &[u8]) -> (h: u32)
    ensures
        h == fnv32_spec(data@),
{
    let mut h: u32 = 2166136261;
    let n = data.len();
    let mut i: usize = 0;
    while i < n
        invariant
            n == data@.len(),
            i <= n,
            h == fnv32_spec(data@.take(i as int)),
        decreases n - i,
    {
        assert(data@.take(i + 1).drop_last() =~= data@.take(i as int));
        h = h ^ (data[i] as u32);
        h = h.wrapping_mul(16777619);
        i += 1;
    }
    assert(data@.take(n as int) =~= data@);
    h
}

/// `n` zero bytes.
pub open spec fn zero_bytes(n: nat) -> Seq<u8> {
    Seq::new(n, |i: int| 0u8)
}

/// How an identifier is stored: its first 64 bytes, NUL-padded to 64.
pub open spec fn stored_key(id: Seq<u8>) -> Seq<u8> {
    if id.len() >= KEY_MAX_LEN {
        id.take(KEY_MAX_LEN as int)
    } else {
        id + zero_bytes((KEY_MAX_LEN - id.len()) as nat)
    }
}

/// The position of the first NUL byte of a stored key, or its length.
pub open spec fn key_end(key: Seq<u8>) -> nat
    decreases key.len(),
{
    if key.len() == 0 {
        0
    } else if key[0] == 0 {
        0
    } else {
        1 + key_end(key.drop_first())
    }
}

/// The identifier a stored key reads as: its bytes before the first NUL, as text
/// (each invalid sequence replaced).
pub open spec fn key_text(key: Seq<u8>) -> Seq<char> {
    utf8_lossy_of(key.take(key_end(key) as int))
}

/// A bucket: its state, its stored key and its session data.
pub struct ShmBucket {
    pub status: u8,
    pub key: Vec<u8>,
    pub data: Vec<u8>,
}

/// A bucket by its state, key and data.
pub open spec fn bucket_view(b: ShmBucket) -> (u8, Seq<u8>, Seq<u8>) {
    (b.status, b.key@, b.data@)
}

/// Whether an occupied bucket holds the session `id`.
pub open spec fn holds(b: (u8, Seq<u8>, Seq<u8>), id: Seq<char>) -> bool {
    b.0 == OCCUPIED && key_text(b.1) == id
}

/// The bucket `put` writes, among the `n - k` buckets probed from position `h + k`:
/// the first that is empty, deleted, or holds the session `id`.
pub open spec fn put_slot(bs: Seq<(u8, Seq<u8>, Seq<u8>)>, id: Seq<char>, h: int, k: int) -> Option<int>
    decreases bs.len() - k,
{
    if k >= bs.len() || k < 0 {
        None
    } else {
        let j = (h + k) % (bs.len() as int);
        if bs[j].0 == EMPTY || bs[j].0 == DELETED || holds(bs[j], id) {
            Some(j)
        } else {
            put_slot(bs, id, h, k + 1)
        }
    }
}

/// The bucket that holds the session `id`, among the `n - k` buckets probed from
/// position `h + k`: the search stops at the first empty bucket.
pub open spec fn find_slot(bs: Seq<(u8, Seq<u8>, Seq<u8>)>, id: Seq<char>, h: int, k: int) -> Option<int>
    decreases bs.len() - k,
{
    if k >= bs.len() || k < 0 {
        None
    } else {
        let j = (h + k) % (bs.len() as int);
        if bs[j].0 == EMPTY {
            None
        } else if holds(bs[j], id) {
            Some(j)
        } else {
            find_slot(bs, id, h, k + 1)
        }
    }
}

/// The bucket after the session `id` is written into it with `data`: an occupied
/// bucket keeps its key and takes the data; another takes the key and the data
/// and becomes occupied.
pub open spec fn written(b: (u8, Seq<u8>, Seq<u8>), id: Seq<u8>, data: Seq<u8>) -> (u8, Seq<u8>, Seq<u8>) {
    if b.0 == OCCUPIED {
        (OCCUPIED, b.1, data)
    } else {
        (OCCUPIED, stored_key(id), data)
    }
}

/// The shared session table.
pub struct ShmSessionStore {
    buckets: Vec<ShmBucket>,
    num_buckets: u32,
    name: String,
}

impl ShmSessionStore {
    /// The buckets, in order.
    pub closed spec fn table(&self) -> Seq<(u8, Seq<u8>, Seq<u8>)> {
        self.buckets@.map_values(|b: ShmBucket| bucket_view(b))
    }

    /// The name of the shared memory object.
    pub closed spec fn shm_name(&self) -> Seq<char> {
        self.name@
    }

    /// The bucket count matches the table, and each bucket keeps a 64-byte key and
    /// at most 880 bytes of data.
    pub closed spec fn wf(&self) -> bool {
        &&& self.num_buckets > 0
        &&& self.buckets@.len() == self.num_buckets
        &&& forall|i: int| 0 <= i < self.buckets@.len() ==> (#[trigger] self.buckets@[i]).key@.len()
            == KEY_MAX_LEN && self.buckets@[i].data@.len() <= DATA_MAX_LEN
    }

    /// The bucket where the probe for `id` starts.
    pub open spec fn home(&self, id: Seq<u8>) -> int {
        (fnv32_spec(id) as int) % (self.table().len() as int)
    }

    /// A table named `shm_name` of `num_buckets` empty buckets (65536 for 0).
    pub fn new(shm_name: &str, num_buckets: u32) -> (s: ShmSessionStore)
        ensures
            s.wf(),
            s.shm_name() == shm_name@,
            s.table().len() == (if num_buckets == 0 {
                DEFAULT_NUM_BUCKETS
            } else {
                num_buckets
            }),
            forall|i: int| 0 <= i < s.table().len() ==> #[trigger] s.table()[i] == (EMPTY, zero_bytes(
                KEY_MAX_LEN as nat,
            ), Seq::<u8>::empty()),
    {
        let nb: u32 = if num_buckets == 0 {
            DEFAULT_NUM_BUCKETS
        } else {
            num_buckets
        };
        let mut buckets: Vec<ShmBucket> = Vec::new();
        let mut i: u32 = 0;
        while i < nb
            invariant
                i <= nb,
                buckets@.len() == i,
                forall|j: int| 0 <= j < i ==> #[trigger] bucket_view(buckets@[j]) == (EMPTY, zero_bytes(
                    KEY_MAX_LEN as nat,
                ), Seq::<u8>::empty()),
            decreases nb - i,
        {
            let mut key: Vec<u8> = Vec::new();
            let mut k: usize = 0;
            while k < KEY_MAX_LEN
                invariant
                    k <= KEY_MAX_LEN,
                    key@ == zero_bytes(k as nat),
                decreases KEY_MAX_LEN - k,
            {
                key.push(0u8);
                k += 1;
                assert(key@ =~= zero_bytes(k as nat));
            }
            buckets.push(ShmBucket { status: EMPTY, key, data: Vec::new() });
            i += 1;
        }
        let s = ShmSessionStore { buckets, num_buckets: nb, name: shm_name.to_owned() };
        assert forall|j: int| 0 <= j < s.buckets@.len() implies (#[trigger] s.buckets@[j]).key@.len()
            == KEY_MAX_LEN && s.buckets@[j].data@.len() <= DATA_MAX_LEN by {
            assert(bucket_view(s.buckets@[j]) == (EMPTY, zero_bytes(KEY_MAX_LEN as nat), Seq::<u8>::empty()));
        }
        assert forall|j: int| 0 <= j < s.table().len() implies #[trigger] s.table()[j] == (EMPTY, zero_bytes(
            KEY_MAX_LEN as nat,
        ), Seq::<u8>::empty()) by {
            assert(s.table()[j] == bucket_view(s.buckets@[j]));
        }
        s
    }

    /// The name of the shared memory object.
    pub fn name(&self) -> (r: &str)
        ensures
            r@ == self.shm_name(),
    {
        self.name.as_str()
    }

    /// Writes the session `session_id` with its serialized `data`. Refused (with
    /// nothing changed) when the data passes 880 bytes or no bucket is free for
    /// it; otherwise the first bucket probed from the identifier's hash that is
    /// empty, deleted or already holds it is written.
    pub fn put(&mut self, session_id: &str, data: &[u8]) -> (r: bool)
        requires
            old(self).wf(),
        ensures
            final(self).wf(),
            final(self).shm_name() == old(self).shm_name(),
            data@.len() > DATA_MAX_LEN ==> !r && final(self).table() == old(self).table(),
            data@.len() <= DATA_MAX_LEN ==> match put_slot(
                old(self).table(),
                session_id@,
                old(self).home(encode_utf8(session_id@)),
                0,
            ) {
                Some(j) => r && final(self).table() == old(self).table().update(
                    j,
                    written(old(self).table()[j], encode_utf8(session_id@), data@),
                ),
                None => !r && final(self).table() == old(self).table(),
            },
    {
        if data.len() > DATA_MAX_LEN {
            return false;
        }
        let id_bytes = session_id.as_bytes();
        let n = self.num_buckets;
        let h = fnv32(id_bytes) % n;
        let ghost t0 = self.table();
        assert(t0.len() == n);
        let mut k: u32 = 0;
        while k < n
            invariant
                self.wf(),
                n == self.num_buckets,
                h < n,
                h == old(self).home(encode_utf8(session_id@)),
                self.table() == t0,
                t0 == old(self).table(),
                self.name == old(self).name,
                k <= n,
                data@.len() <= DATA_MAX_LEN,
                id_bytes@ == encode_utf8(session_id@),
                put_slot(t0, session_id@, h as int, 0) == put_slot(t0, session_id@, h as int, k as int),
            decreases n - k,
        {
            let j = ((h as u64 + k as u64) % (n as u64)) as usize;
            assert(self.table()[j as int] == bucket_view(self.buckets@[j as int]));
            let st = self.buckets[j].status;
            let free = st == EMPTY || st == DELETED;
            if free || (st == OCCUPIED && key_matches(self.buckets[j].key.as_slice(), session_id)) {
                let key: Vec<u8> = if st == OCCUPIED {
                    self.buckets[j].key.clone()
                } else {
                    make_key(id_bytes)
                };
                let b = ShmBucket { status: OCCUPIED, key, data: vstd::slice::slice_to_vec(data) };
                let ghost before = self.buckets@;
                self.buckets.set(j, b);
                proof {
                    assert(self.table() =~= t0.update(j as int, written(t0[j as int], encode_utf8(session_id@), data@)));
                    assert forall|i: int| 0 <= i < self.buckets@.len() implies (#[trigger] self.buckets@[i]).key@.len()
                        == KEY_MAX_LEN && self.buckets@[i].data@.len() <= DATA_MAX_LEN by {
                        if i != j {
                            assert(self.buckets@[i] == before[i]);
                        }
                    }
                }
                return true;
            }
            k += 1;
        }
        false
    }

    /// The data of the session `session_id`, when a bucket probed from the
    /// identifier's hash holds it before an empty bucket is met.
    pub fn get(&self, session_id: &str) -> (r: Option<Vec<u8>>)
        requires
            self.wf(),
        ensures
            match find_slot(self.table(), session_id@, self.home(encode_utf8(session_id@)), 0) {
                Some(j) => r is Some && r->0@ == self.table()[j].2,
                None => r is None,
            },
    {
        match self.find(session_id) {
            Some(j) => {
                assert(self.table()[j as int] == bucket_view(self.buckets@[j as int]));
                Some(self.buckets[j].data.clone())
            },
            None => None,
        }
    }

    /// Deletes the session `session_id` (its bucket is marked deleted); returns
    /// whether it was found.
    pub fn remove(&mut self, session_id: &str) -> (r: bool)
        requires
            old(self).wf(),
        ensures
            final(self).wf(),
            final(self).shm_name() == old(self).shm_name(),
            match find_slot(old(self).table(), session_id@, old(self).home(encode_utf8(session_id@)), 0) {
                Some(j) => r && final(self).table() == old(self).table().update(
                    j,
                    (DELETED, old(self).table()[j].1, old(self).table()[j].2),
                ),
                None => !r && final(self).table() == old(self).table(),
            },
    {
        match self.find(session_id) {
            Some(j) => {
                let ghost t0 = self.table();
                let ghost before = self.buckets@;
                assert(t0[j as int] == bucket_view(self.buckets@[j as int]));
                let key = self.buckets[j].key.clone();
                let data = self.buckets[j].data.clone();
                self.buckets.set(j, ShmBucket { status: DELETED, key, data });
                proof {
                    assert(self.table() =~= t0.update(j as int, (DELETED, t0[j as int].1, t0[j as int].2)));
                    assert forall|i: int| 0 <= i < self.buckets@.len() implies (#[trigger] self.buckets@[i]).key@.len()
                        == KEY_MAX_LEN && self.buckets@[i].data@.len() <= DATA_MAX_LEN by {
                        if i != j {
                            assert(self.buckets@[i] == before[i]);
                        }
                    }
                }
                true
            },
            None => false,
        }
    }

    fn find(&self, session_id: &str) -> (r: Option<usize>)
        requires
            self.wf(),
        ensures
            match find_slot(self.table(), session_id@, self.home(encode_utf8(session_id@)), 0) {
                Some(j) => r == Some(j as usize) && 0 <= j < self.table().len(),
                None => r is None,
            },
    {
        let id_bytes = session_id.as_bytes();
        let n = self.num_buckets;
        let h = fnv32(id_bytes) % n;
        let ghost t0 = self.table();
        let mut k: u32 = 0;
        while k < n
            invariant
                self.wf(),
                n == self.num_buckets,
                t0 == self.table(),
                t0.len() == n,
                h < n,
                h == self.home(encode_utf8(session_id@)),
                k <= n,
                find_slot(t0, session_id@, h as int, 0) == find_slot(t0, session_id@, h as int, k as int),
            decreases n - k,
        {
            let j = ((h as u64 + k as u64) % (n as u64)) as usize;
            assert(t0[j as int] == bucket_view(self.buckets@[j as int]));
            let st = self.buckets[j].status;
            if st == EMPTY {
                return None;
            }
            if st == OCCUPIED && key_matches(self.buckets[j].key.as_slice(), session_id) {
                return Some(j);
            }
            k += 1;
        }
        None
    }
}

/// Whether a stored key reads as the identifier `id`.
fn key_matches(key: &[u8], id: &str) -> (b: bool)
    ensures
        b == (key_text(key@) == id@),
{
    let n = key.len();
    let mut e: usize = 0;
    assert(key@.skip(0) =~= key@);
    while e < n && key[e] != 0
        invariant
            e <= n,
            n == key@.len(),
            key_end(key@) == e + key_end(key@.skip(e as int)),
        decreases n - e,
    {
        assert(key@.skip(e as int).drop_first() =~= key@.skip(e + 1));
        e += 1;
    }
    if e < n {
        assert(key@.skip(e as int)[0] == 0);
    } else {
        assert(key@.skip(e as int) =~= Seq::<u8>::empty());
    }
    let text = utf8_lossy(&key[0..e]);
    assert(key@.subrange(0, e as int) =~= key@.take(key_end(key@) as int));
    crate::text::str_eq(text.as_str(), id)
}

/// The stored form of an identifier's bytes.
fn make_key(id: &[u8]) -> (k: Vec<u8>)
    ensures
        k@ == stored_key(id@),
{
    let mut k: Vec<u8> = Vec::new();
    let mut i: usize = 0;
    while i < KEY_MAX_LEN
        invariant
            i <= KEY_MAX_LEN,
            k@.len() == i,
            forall|j: int| 0 <= j < i ==> #[trigger] k@[j] == (if j < id@.len() { id@[j] } else { 0u8 }),
        decreases KEY_MAX_LEN - i,
    {
        if i < id.len() {
            k.push(id[i]);
        } else {
            k.push(0u8);
        }
        i += 1;
    }
    assert(k@ =~= stored_key(id@));
    k
}

/// The bytes of a table with `num_buckets` buckets (0 standing for the default).
pub fn shm_size(num_buckets: u32) -> (n: u64)
    ensures
        n == HDR_SIZE + (if num_buckets == 0 {
            DEFAULT_NUM_BUCKETS
        } else {
            num_buckets
        }) * BUCKET_SIZE,
{
    let nb: u64 = if num_buckets == 0 {
        DEFAULT_NUM_BUCKETS as u64
    } else {
        num_buckets as u64
    };
    assert(nb * 960 <= 4294967295 * 960) by (nonlinear_arith)
        requires
            nb <= 4294967295,
    ;
    HDR_SIZE as u64 + nb * (BUCKET_SIZE as u64)
}

// ───────────────────────── what a read gives back ─────────────────────────

proof fn lemma_put_slot_picks(t: Seq<(u8, Seq<u8>, Seq<u8>)>, id: Seq<char>, h: int, k: int, j: int)
    requires
        put_slot(t, id, h, k) == Some(j),
        h >= 0,
    ensures
        0 <= j < t.len(),
        t[j].0 == EMPTY || t[j].0 == DELETED || holds(t[j], id),
    decreases t.len() - k,
{
    if k >= t.len() || k < 0 {
    } else {
        let i = (h + k) % (t.len() as int);
        if !(t[i].0 == EMPTY || t[i].0 == DELETED || holds(t[i], id)) {
            lemma_put_slot_picks(t, id, h, k + 1, j);
        }
    }
}

proof fn lemma_key_end_of_stored(id: Seq<u8>)
    requires
        id.len() <= KEY_MAX_LEN,
        forall|i: int| 0 <= i < id.len() ==> id[i] != 0,
    ensures
        key_end(stored_key(id)) == id.len(),
{
    let key = stored_key(id);
    lemma_key_end_prefix(key, id.len() as int);
}

proof fn lemma_key_end_prefix(key: Seq<u8>, m: int)
    requires
        0 <= m <= key.len(),
        forall|i: int| 0 <= i < m ==> key[i] != 0,
        m == key.len() || key[m] == 0,
    ensures
        key_end(key) == m,
    decreases key.len(),
{
    if key.len() > 0 && m > 0 {
        let d = key.drop_first();
        assert forall|i: int| 0 <= i < m - 1 implies d[i] != 0 by {
            assert(d[i] == key[i + 1]);
        }
        lemma_key_end_prefix(d, m - 1);
    }
}

proof fn lemma_put_then_find(
    t: Seq<(u8, Seq<u8>, Seq<u8>)>,
    id: Seq<char>,
    idb: Seq<u8>,
    data: Seq<u8>,
    h: int,
    k: int,
    j: int,
)
    requires
        put_slot(t, id, h, k) == Some(j),
        h >= 0,
        0 <= k,
        key_text(stored_key(idb)) == id,
    ensures
        find_slot(t.update(j, written(t[j], idb, data)), id, h, k) == Some(j),
    decreases t.len() - k,
{
    lemma_put_slot_picks(t, id, h, k, j);
    let t2 = t.update(j, written(t[j], idb, data));
    let i = (h + k) % (t.len() as int);
    if t[i].0 == EMPTY || t[i].0 == DELETED || holds(t[i], id) {
        assert(j == i);
    } else {
        assert(i != j);
        assert(t2[i] == t[i]);
        lemma_put_then_find(t, id, idb, data, h, k + 1, j);
    }
}

/// What a read gives back of a write: after the session `id` (whose UTF-8 bytes
/// fit in a key, hold no NUL and read back as `id`) is written into the bucket
/// `put` chooses, a look-up of `id` from the same hash finds that bucket, with
/// the data just written.
pub proof fn law_put_then_get(t: Seq<(u8, Seq<u8>, Seq<u8>)>, id: Seq<char>, data: Seq<u8>, h: int)
    requires
        h >= 0,
        encode_utf8(id).len() <= KEY_MAX_LEN,
        forall|i: int| 0 <= i < encode_utf8(id).len() ==> encode_utf8(id)[i] != 0,
        utf8_lossy_of(encode_utf8(id)) == id,
        put_slot(t, id, h, 0) is Some,
    ensures
        ({
            let j = put_slot(t, id, h, 0)->0;
            let t2 = t.update(j, written(t[j], encode_utf8(id), data));
            &&& find_slot(t2, id, h, 0) == Some(j)
            &&& t2[j].2 == data
        }),
{
    let idb = encode_utf8(id);
    lemma_key_end_of_stored(idb);
    let key = stored_key(idb);
    if idb.len() < KEY_MAX_LEN {
        assert(key.take(idb.len() as int) =~= idb);
    } else {
        assert(key.take(idb.len() as int) =~= idb);
    }
    let j = put_slot(t, id, h, 0)->0;
    lemma_put_then_find(t, id, idb, data, h, 0, j);
    lemma_put_slot_picks(t, id, h, 0, j);
}

proof fn lemma_find_none(t: Seq<(u8, Seq<u8>, Seq<u8>)>, id: Seq<char>, h: int, k: int)
    requires
        forall|i: int| 0 <= i < t.len() ==> !holds(#[trigger] t[i], id),
    ensures
        find_slot(t, id, h, k) is None,
    decreases t.len() - k,
{
    if k >= t.len() || k < 0 {
    } else {
        let i = (h + k) % (t.len() as int);
        if t.len() > 0 {
            assert(!holds(t[i], id));
        }
        lemma_find_none(t, id, h, k + 1);
    }
}

/// What a read gives back of a removal: once the bucket `j` that holds the
/// session `id` is marked deleted, a look-up of `id` finds nothing, when no other
/// bucket holds `id`.
pub proof fn law_remove_then_get(t: Seq<(u8, Seq<u8>, Seq<u8>)>, id: Seq<char>, h: int, j: int)
    requires
        0 <= j < t.len(),
        holds(t[j], id),
        forall|i: int| 0 <= i < t.len() && i != j ==> !holds(#[trigger] t[i], id),
    ensures
        find_slot(t.update(j, (DELETED, t[j].1, t[j].2)), id, h, 0) is None,
{
    let t2 = t.update(j, (DELETED, t[j].1, t[j].2));
    assert forall|i: int| 0 <= i < t2.len() implies !holds(#[trigger] t2[i], id) by {
        if i != j {
            assert(t2[i] == t[i]);
        }
    }
    lemma_find_none(t2, id, h, 0);
}

} // verus!
