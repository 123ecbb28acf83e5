//! Sessions kept in memory: a store of sessions keyed by their identifiers, the
//! cookie that carries an identifier, and the expiry of idle sessions.
//!
//! Times are nanoseconds read from the system clock.

use vstd::prelude::*;
use crate::clock::{elapsed, elapsed_exec, instant_now, nanos_since, random_word, u128_ne_bytes, unix_nanos, NANOS_PER_SEC};
use crate::strmap::StrMap;
use crate::text::{
    lemma_split_without_sep,
    chars_of, decimal_spec, hex_spec, lemma_split_first_piece, push_chars, push_char,
    push_decimal, push_hex, push_str, seq_starts_with, split_chars, split_spec, starts_with,
    string_from_chars, sub_chars, trim_chars, trim_spec, is_ws,
};

verus! {

/// How long a session may stay idle, at least, between two sweeps of the store.
pub const CLEANUP_INTERVAL_SECS: u64 = 300;

// ───────────────────────── identifiers ─────────────────────────

/// The 64-bit FNV-1a hash of `data`.
pub open spec fn fnv1a_spec(data: Seq<u8>) -> u64
    decreases data.len(),
{
    if data.len() == 0 {
        14695981039346656037
    } else {
        vstd::wrapping::u64_specs::wrapping_mul(
            fnv1a_spec(data.drop_last()) ^ (data.last() as u64),
            1099511628211,
        )
    }
}

/// The 64-bit FNV-1a hash.
pub fn fast_hash(data: &[u8]) -> (h: u64)
    ensures
        h == fnv1a_spec(data@),
{
    let mut hash: u64 = 14695981039346656037;
    let n = data.len();
    let mut i: usize = 0;
    while i < n
        invariant
            n == data@.len(),
            i <= n,
            hash == fnv1a_spec(data@.take(i as int)),
        decreases n - i,
    {
        assert(data@.take(i + 1).drop_last() =~= data@.take(i as int));
        hash = hash ^ (data[i] as u64);
        hash = hash.wrapping_mul(1099511628211);
        i += 1;
    }
    assert(data@.take(n as int) =~= data@);
    hash
}

/// The word that a source of entropy is stirred into (one step of a linear
/// congruential generator).
pub open spec fn stir(entropy: u64) -> u64 {
    vstd::wrapping::u64_specs::wrapping_add(
        vstd::wrapping::u64_specs::wrapping_mul(entropy, 6364136223846793005),
        1442695040888963407,
    )
}

/// A run of `n` zero characters.
pub open spec fn zeros(n: nat) -> Seq<char> {
    Seq::new(n, |i: int| '0')
}

/// The identifier made from a clock reading, a word of entropy and the bytes of the
/// clock reading: the hexadecimal forms of the reading, of the stirred entropy and
/// of the hash of the bytes, one after the other, cut to 32 characters or padded on
/// the left with zeros to 32 characters.
pub open spec fn session_id_spec(nanos: u128, entropy: u64, bytes: Seq<u8>) -> Seq<char> {
    let combined = hex_spec(nanos as nat) + hex_spec(stir(entropy) as nat) + hex_spec(
        fnv1a_spec(bytes) as nat,
    );
    if combined.len() > 32 {
        combined.take(32)
    } else {
        zeros((32 - combined.len()) as nat) + combined
    }
}

/// Whether a character is a lower-case hexadecimal digit (`0`–`9`, `a`–`f`).
pub open spec fn is_hex_digit(c: char) -> bool {
    let u = c as u32;
    (48 <= u <= 57) || (97 <= u <= 102)
}

/// Whether every character of a text is a lower-case hexadecimal digit.
pub open spec fn all_hex(s: Seq<char>) -> bool {
    forall|i: int| 0 <= i < s.len() ==> is_hex_digit(#[trigger] s[i])
}

proof fn lemma_hex_digits(n: nat)
    ensures
        all_hex(hex_spec(n)),
    decreases n,
{
    let d = n % 16;
    assert(is_hex_digit(crate::text::digit_char(d)));
    if n >= 16 {
        lemma_hex_digits(n / 16);
        let p = hex_spec(n / 16);
        assert(hex_spec(n) == p.push(crate::text::digit_char(d)));
        assert forall|i: int| 0 <= i < hex_spec(n).len() implies is_hex_digit(#[trigger] hex_spec(n)[i]) by {
            if i < p.len() {
                assert(hex_spec(n)[i] == p[i]);
            }
        }
    } else {
        assert(hex_spec(n) == seq![crate::text::digit_char(d)]);
    }
}

proof fn lemma_session_id_hex(nanos: u128, entropy: u64, bytes: Seq<u8>)
    ensures
        all_hex(session_id_spec(nanos, entropy, bytes)),
{
    let a = hex_spec(nanos as nat);
    let b = hex_spec(stir(entropy) as nat);
    let c = hex_spec(fnv1a_spec(bytes) as nat);
    lemma_hex_digits(nanos as nat);
    lemma_hex_digits(stir(entropy) as nat);
    lemma_hex_digits(fnv1a_spec(bytes) as nat);
    let combined = a + b + c;
    assert(all_hex(combined)) by {
        assert forall|i: int| 0 <= i < combined.len() implies is_hex_digit(#[trigger] combined[i]) by {
            if i < a.len() {
                assert(combined[i] == a[i]);
            } else if i < a.len() + b.len() {
                assert(combined[i] == b[i - a.len()]);
            } else {
                assert(combined[i] == c[i - a.len() - b.len()]);
            }
        }
    }
    let id = session_id_spec(nanos, entropy, bytes);
    if combined.len() > 32 {
        assert forall|i: int| 0 <= i < id.len() implies is_hex_digit(#[trigger] id[i]) by {
            assert(id[i] == combined[i]);
        }
    } else {
        let z = zeros((32 - combined.len()) as nat);
        assert forall|i: int| 0 <= i < id.len() implies is_hex_digit(#[trigger] id[i]) by {
            if i < z.len() {
                assert(id[i] == '0');
            } else {
                assert(id[i] == combined[i - z.len()]);
            }
        }
    }
}

/// The last `w` lower-case hexadecimal digits of `k`, zeros on the left.
pub open spec fn fixed_hex(k: nat, w: nat) -> Seq<char>
    decreases w,
{
    if w == 0 {
        Seq::empty()
    } else {
        fixed_hex(k / 16, (w - 1) as nat).push(crate::text::digit_char(k % 16))
    }
}

/// `16` to the power `w`.
pub open spec fn pow16(w: nat) -> nat
    decreases w,
{
    if w == 0 {
        1
    } else {
        16 * pow16((w - 1) as nat)
    }
}

proof fn lemma_fixed_hex_shape(k: nat, w: nat)
    ensures
        fixed_hex(k, w).len() == w,
        all_hex(fixed_hex(k, w)),
    decreases w,
{
    if w > 0 {
        lemma_fixed_hex_shape(k / 16, (w - 1) as nat);
        let p = fixed_hex(k / 16, (w - 1) as nat);
        let d = crate::text::digit_char(k % 16);
        assert(is_hex_digit(d));
        assert forall|i: int| 0 <= i < fixed_hex(k, w).len() implies is_hex_digit(#[trigger] fixed_hex(k, w)[i]) by {
            if i < p.len() {
                assert(fixed_hex(k, w)[i] == p[i]);
            }
        }
    }
}

proof fn lemma_digit_char_injective(a: nat, b: nat)
    requires
        a < 16,
        b < 16,
        crate::text::digit_char(a) == crate::text::digit_char(b),
    ensures
        a == b,
{
    assert(is_hex_digit(crate::text::digit_char(a)));
    assert(is_hex_digit(crate::text::digit_char(b)));
}

proof fn lemma_fixed_hex_injective(a: nat, b: nat, w: nat)
    requires
        a < pow16(w),
        b < pow16(w),
        fixed_hex(a, w) == fixed_hex(b, w),
    ensures
        a == b,
    decreases w,
{
    if w > 0 {
        let pa = fixed_hex(a / 16, (w - 1) as nat);
        let pb = fixed_hex(b / 16, (w - 1) as nat);
        assert(fixed_hex(a, w).drop_last() =~= pa);
        assert(fixed_hex(b, w).drop_last() =~= pb);
        assert(fixed_hex(a, w).last() == crate::text::digit_char(a % 16));
        assert(fixed_hex(b, w).last() == crate::text::digit_char(b % 16));
        lemma_digit_char_injective(a % 16, b % 16);
        let p = pow16((w - 1) as nat);
        assert(a / 16 < p && b / 16 < p) by (nonlinear_arith)
            requires
                a < 16 * p,
                b < 16 * p,
        ;
        lemma_fixed_hex_injective(a / 16, b / 16, (w - 1) as nat);
        assert(a == 16 * (a / 16) + a % 16 && b == 16 * (b / 16) + b % 16) by (nonlinear_arith);
    }
}

/// The `k`-th identifier tried after a drawn one was taken: the first 16
/// characters of the drawn one, then `k` in 16 hexadecimal digits.
pub open spec fn fallback_id(drawn: Seq<char>, k: nat) -> Seq<char> {
    drawn.take(16) + fixed_hex(k, 16)
}

proof fn lemma_fallback_ids_distinct(drawn: Seq<char>, j: nat, k: nat)
    requires
        drawn.len() >= 16,
        j < 0x1_0000_0000_0000_0000,
        k < 0x1_0000_0000_0000_0000,
        fallback_id(drawn, j) == fallback_id(drawn, k),
    ensures
        j == k,
{
    assert(pow16(16) == 0x1_0000_0000_0000_0000) by {
        reveal_with_fuel(pow16, 17);
    }
    lemma_fixed_hex_shape(j, 16);
    lemma_fixed_hex_shape(k, 16);
    assert(fixed_hex(j, 16) =~= fallback_id(drawn, j).skip(16));
    assert(fixed_hex(k, 16) =~= fallback_id(drawn, k).skip(16));
    lemma_fixed_hex_injective(j, k, 16);
}

/// `k` in `w` hexadecimal digits (see `fixed_hex`).
fn fixed_hex_exec(k: u64, w: usize) -> (v: Vec<char>)
    ensures
        v@ == fixed_hex(k as nat, w as nat),
    decreases w,
{
    if w == 0 {
        Vec::new()
    } else {
        let mut v = fixed_hex_exec(k / 16, w - 1);
        v.push(crate::text::digit_char_exec((k % 16) as u32));
        v
    }
}

/// The identifier for a clock reading, a word of entropy and the bytes of the reading.
pub fn session_id_from(nanos: u128, entropy: u64, bytes: &[u8]) -> (id: String)
    ensures
        id@ == session_id_spec(nanos, entropy, bytes@),
        id@.len() == 32,
        all_hex(id@),
{
    proof {
        lemma_session_id_hex(nanos, entropy, bytes@);
    }
    let mixed = entropy.wrapping_mul(6364136223846793005).wrapping_add(1442695040888963407);
    let hash = fast_hash(bytes);
    let mut combined = String::new();
    push_hex(&mut combined, nanos);
    push_hex(&mut combined, mixed as u128);
    push_hex(&mut combined, hash as u128);
    let v = chars_of(combined.as_str());
    let ghost spec_combined = hex_spec(nanos as nat) + hex_spec(stir(entropy) as nat) + hex_spec(
        fnv1a_spec(bytes@) as nat,
    );
    assert(v@ =~= spec_combined);
    if v.len() > 32 {
        let head = sub_chars(v.as_slice(), 0, 32);
        assert(head@ =~= spec_combined.take(32));
        string_from_chars(head.as_slice())
    } else {
        let pad = 32 - v.len();
        let mut out = String::new();
        let mut i: usize = 0;
        while i < pad
            invariant
                i <= pad,
                out@ == zeros(i as nat),
            decreases pad - i,
        {
            push_char(&mut out, '0');
            i += 1;
            assert(out@ =~= zeros(i as nat));
        }
        push_chars(&mut out, v.as_slice());
        out
    }
}

/// A fresh identifier: 32 lower-case hexadecimal digits made from the clock and
/// from entropy.
pub fn generate_session_id() -> (id: String)
    ensures
        id@.len() == 32,
        all_hex(id@),
{
    let nanos = unix_nanos();
    let entropy = random_word();
    let bytes = u128_ne_bytes(nanos);
    session_id_from(nanos, entropy, bytes.as_slice())
}

// ───────────────────────── sessions ─────────────────────────

/// One session: its identifier, its data, and when it was made and last used
/// (nanoseconds on the monotonic clock of the store that made it, measured from
/// `origin`).
pub struct Session {
    pub id: String,
    pub data: StrMap<String>,
    pub created_at: u128,
    pub last_access: u128,
    pub origin: std::time::Instant,
}

impl Session {
    /// Well-formedness of the data.
    pub open spec fn wf(&self) -> bool {
        self.data.wf()
    }

    /// Whether two sessions hold the same identifier, data and times.
    pub open spec fn same(&self, other: &Session) -> bool {
        &&& self.id@ == other.id@
        &&& self.data@ == other.data@
        &&& self.created_at == other.created_at
        &&& self.last_access == other.last_access
        &&& self.origin == other.origin
    }

    /// A session with no data, made and used at `now` on the clock of `origin`.
    fn new(id: String, now: u128, origin: std::time::Instant) -> (s: Session)
        ensures
            s.wf(),
            s.id == id,
            s.data@ == Map::<Seq<char>, String>::empty(),
            s.created_at == now,
            s.last_access == now,
    {
        Session { id, data: StrMap::new(), created_at: now, last_access: now, origin }
    }

    /// A copy of the session.
    pub fn duplicate(&self) -> (r: Session)
        requires
            self.wf(),
        ensures
            r.wf(),
            r.same(self),
    {
        Session {
            id: self.id.clone(),
            data: self.data.duplicate(),
            created_at: self.created_at,
            last_access: self.last_access,
            origin: self.origin,
        }
    }

    /// The value stored under `key`.
    pub fn get(&self, key: &str) -> (r: Option<&String>)
        requires
            self.wf(),
        ensures
            match r {
                Some(v) => self.data@.contains_key(key@) && *v == self.data@[key@],
                None => !self.data@.contains_key(key@),
            },
    {
        self.data.get(key)
    }

    /// Stores `value` under `key` and marks the session as used now.
    pub fn set(&mut self, key: String, value: String)
        requires
            old(self).wf(),
        ensures
            final(self).wf(),
            final(self).data@ == old(self).data@.insert(key@, value),
            final(self).id == old(self).id,
            final(self).created_at == old(self).created_at,
            final(self).origin == old(self).origin,
            final(self).last_access >= old(self).last_access,
    {
        self.data.insert(key, value);
        self.touch();
    }

    /// Marks the session as used now: the last access becomes a reading of the
    /// session's clock, and never goes back.
    fn touch(&mut self)
        ensures
            final(self).id == old(self).id,
            final(self).data == old(self).data,
            final(self).created_at == old(self).created_at,
            final(self).origin == old(self).origin,
            final(self).last_access >= old(self).last_access,
    {
        let now = nanos_since(&self.origin);
        if now > self.last_access {
            self.last_access = now;
        }
    }

    /// Removes the value under `key`, marks the session as used now, and returns the
    /// value.
    pub fn remove(&mut self, key: &str) -> (r: Option<String>)
        requires
            old(self).wf(),
        ensures
            final(self).wf(),
            final(self).data@ == old(self).data@.remove(key@),
            final(self).id == old(self).id,
            final(self).created_at == old(self).created_at,
            final(self).origin == old(self).origin,
            final(self).last_access >= old(self).last_access,
            match r {
                Some(v) => old(self).data@.contains_key(key@) && v == old(self).data@[key@],
                None => !old(self).data@.contains_key(key@),
            },
    {
        self.touch();
        self.data.remove(key)
    }
}

// ───────────────────────── cookies ─────────────────────────

/// The value that one `;`-separated part of a cookie header gives for a cookie
/// whose name and `=` form `prefix`: the trimmed part must start with the prefix,
/// and the rest, trimmed, must not be empty.
pub open spec fn cookie_value(part: Seq<char>, prefix: Seq<char>) -> Option<Seq<char>> {
    let t = trim_spec(part);
    if starts_with(t, prefix) {
        let v = trim_spec(t.skip(prefix.len() as int));
        if v.len() > 0 {
            Some(v)
        } else {
            None
        }
    } else {
        None
    }
}

/// The value given by the first part that gives one.
pub open spec fn first_cookie_value(parts: Seq<Seq<char>>, prefix: Seq<char>) -> Option<
    Seq<char>,
>
    decreases parts.len(),
{
    if parts.len() == 0 {
        None
    } else if cookie_value(parts[0], prefix) is Some {
        cookie_value(parts[0], prefix)
    } else {
        first_cookie_value(parts.drop_first(), prefix)
    }
}

/// The session identifier that a cookie header carries for the cookie `name`.
pub open spec fn session_id_in(header: Seq<char>, name: Seq<char>) -> Option<Seq<char>> {
    first_cookie_value(split_spec(header, ';'), name.push('='))
}

/// The `Set-Cookie` value that hands out `id` for `ttl` seconds.
pub open spec fn set_cookie_spec(name: Seq<char>, id: Seq<char>, ttl: u64) -> Seq<char> {
    name + "="@ + id + "; HttpOnly; SameSite=Lax; Path=/; Max-Age="@ + decimal_spec(ttl as nat)
}

/// The `Set-Cookie` value that makes the browser drop the cookie.
pub open spec fn delete_cookie_spec(name: Seq<char>) -> Seq<char> {
    name + "=; HttpOnly; SameSite=Lax; Path=/; Max-Age=0"@
}

/// Whether `s` has no white space at either end.
pub open spec fn trimmed(s: Seq<char>) -> bool {
    s.len() > 0 && !is_ws(s[0]) && !is_ws(s.last())
}

proof fn lemma_trim_trimmed(s: Seq<char>)
    requires
        trimmed(s),
    ensures
        trim_spec(s) == s,
{
}

/// A cookie `name=id`, followed by `;` and anything, carries `id` for `name`, when
/// the name holds no `;` and does not start with white space, and the identifier is
/// not empty, holds no `;` and has no white space at either end.
pub proof fn law_cookie_round_trip(name: Seq<char>, id: Seq<char>, rest: Seq<char>, ttl: u64)
    requires
        !name.contains(';'),
        name.len() > 0 ==> !is_ws(name[0]),
        !id.contains(';'),
        trimmed(id),
    ensures
        session_id_in((name + "="@ + id).push(';') + rest, name) == Some(id),
        session_id_in(name + "="@ + id, name) == Some(id),
        session_id_in(set_cookie_spec(name, id, ttl), name) == Some(id),
{
    reveal_strlit("=");
    reveal_strlit("; HttpOnly; SameSite=Lax; Path=/; Max-Age=");
    let prefix = name.push('=');
    let part = name + "="@ + id;
    assert(part =~= prefix + id);
    assert(!part.contains(';')) by {
        if part.contains(';') {
            let k = choose|k: int| 0 <= k < part.len() && part[k] == ';';
            if k < name.len() {
                assert(name[k] == ';');
            } else if k > name.len() {
                assert(id[k - name.len() - 1] == ';');
            }
        }
    }
    assert(trimmed(part)) by {
        if name.len() == 0 {
            assert(part[0] == '=');
        } else {
            assert(part[0] == name[0]);
        }
        assert(part.last() == id.last());
    }
    lemma_trim_trimmed(part);
    lemma_trim_trimmed(id);
    assert(part.take(prefix.len() as int) =~= prefix);
    assert(part.skip(prefix.len() as int) =~= id);
    assert(cookie_value(part, prefix) == Some(id));
    lemma_split_first_piece(part, ';', rest);
    lemma_split_without_sep(part, ';');
    let attrs = "; HttpOnly; SameSite=Lax; Path=/; Max-Age="@;
    let tail = attrs.skip(1) + decimal_spec(ttl as nat);
    assert(set_cookie_spec(name, id, ttl) =~= part.push(';') + tail);
    lemma_split_first_piece(part, ';', tail);
}

// ───────────────────────── the store ─────────────────────────

/// The sessions in memory, keyed by identifier, with the cookie that carries an
/// identifier and the time a session may stay idle.
pub struct SessionStore {
    sessions: StrMap<Session>,
    cookie_name: String,
    ttl_secs: u64,
    last_cleanup: u128,
    origin: std::time::Instant,
    clock: u128,
}

impl SessionStore {
    /// The sessions by identifier.
    pub closed spec fn sessions(&self) -> Map<Seq<char>, Session> {
        self.sessions@
    }

    /// The name of the session cookie.
    pub closed spec fn cookie(&self) -> Seq<char> {
        self.cookie_name@
    }

    /// How long, in seconds, a session may stay idle.
    pub closed spec fn ttl(&self) -> u64 {
        self.ttl_secs
    }

    /// When the store was last swept.
    pub closed spec fn last_sweep(&self) -> u128 {
        self.last_cleanup
    }

    /// The store's time: its latest clock reading (it never goes back).
    pub closed spec fn now(&self) -> u128 {
        self.clock
    }

    /// What a lookup of `id` that answers `r` does, taking the store from `self`
    /// to `after`: the store's time moves on (never back); a stored session is
    /// returned and kept, marked as last used at that time (or later, when it was
    /// already marked later), with everything else as it was; an unknown
    /// identifier gives `None` and leaves the sessions alone.
    pub open spec fn refreshed_by_lookup(&self, after: Self, id: Seq<char>, r: Option<Session>) -> bool {
        &&& after.now() >= self.now()
        &&& after.cookie() == self.cookie()
        &&& after.ttl() == self.ttl()
        &&& after.last_sweep() == self.last_sweep()
        &&& after.sessions().dom() == self.sessions().dom()
        &&& match r {
            Some(s) => {
                &&& self.sessions().contains_key(id)
                &&& s.same(&after.sessions()[id])
                &&& s.id@ == id
                &&& s.data@ == self.sessions()[id].data@
                &&& s.created_at == self.sessions()[id].created_at
                &&& s.last_access == if self.sessions()[id].last_access >= after.now() {
                    self.sessions()[id].last_access
                } else {
                    after.now()
                }
                &&& forall|k: Seq<char>| k != id && self.sessions().contains_key(k)
                    ==> #[trigger] after.sessions()[k] == self.sessions()[k]
            },
            None => !self.sessions().contains_key(id) && after.sessions() == self.sessions(),
        }
    }

    /// Reads the store's clock: the reading, or the store's time when that is
    /// later, becomes the store's time.
    fn tick(&mut self) -> (t: u128)
        ensures
            t == final(self).now(),
            t >= old(self).now(),
            final(self).sessions == old(self).sessions,
            final(self).cookie_name == old(self).cookie_name,
            final(self).ttl_secs == old(self).ttl_secs,
            final(self).last_cleanup == old(self).last_cleanup,
            final(self).origin == old(self).origin,
    {
        let reading = nanos_since(&self.origin);
        if reading > self.clock {
            self.clock = reading;
        }
        self.clock
    }

    /// Each session is stored under its own identifier and has well-formed data.
    pub closed spec fn wf(&self) -> bool {
        &&& self.sessions.wf()
        &&& forall|k: Seq<char>| #[trigger]
            self.sessions@.contains_key(k) ==> self.sessions@[k].id@ == k
                && self.sessions@[k].wf()
    }

    /// Whether a session last used at `last_access` is still alive at `now`.
    pub open spec fn alive(&self, s: Session, now: u128) -> bool {
        elapsed(now, s.last_access) < self.ttl() as u128 * NANOS_PER_SEC
    }

    /// An empty store for the cookie `cookie_name`, whose sessions live for
    /// `ttl_seconds` when idle.
    pub fn new(cookie_name: &str, ttl_seconds: u64) -> (st: SessionStore)
        ensures
            st.wf(),
            st.sessions() == Map::<Seq<char>, Session>::empty(),
            st.cookie() == cookie_name@,
            st.ttl() == ttl_seconds,
    {
        let origin = instant_now();
        let start = nanos_since(&origin);
        SessionStore {
            sessions: StrMap::new(),
            cookie_name: cookie_name.to_owned(),
            ttl_secs: ttl_seconds,
            last_cleanup: start,
            origin,
            clock: start,
        }
    }

    /// The name of the session cookie.
    pub fn cookie_name(&self) -> (r: &str)
        ensures
            r@ == self.cookie(),
    {
        self.cookie_name.as_str()
    }

    /// An identifier no session holds: `drawn` when it is free, else the first
    /// free one of `fallback_id(drawn, 0)`, `fallback_id(drawn, 1)`, … (one of the
    /// first `n + 1` is free, for `n` sessions).
    fn unused_id(&self, drawn: String) -> (id: String)
        requires
            self.wf(),
            drawn@.len() == 32,
            all_hex(drawn@),
        ensures
            id@.len() == 32,
            all_hex(id@),
            !self.sessions().contains_key(id@),
            self.sessions().contains_key(drawn@) ==> exists|k: nat| id@ == #[trigger] fallback_id(drawn@, k),
            !self.sessions().contains_key(drawn@) ==> id == drawn,
    {
        if !self.sessions.contains_key(drawn.as_str()) {
            return drawn;
        }
        let n = self.sessions.len();
        let ghost dom = self.sessions().dom();
        let v = chars_of(drawn.as_str());
        let prefix = sub_chars(v.as_slice(), 0, 16);
        let mut k: u64 = 0;
        let ghost mut tried: Set<Seq<char>> = Set::empty();
        loop
            invariant
                self.wf(),
                n == dom.len(),
                dom.finite(),
                dom == self.sessions().dom(),
                self.sessions().contains_key(drawn@),
                prefix@ == drawn@.take(16),
                drawn@.len() == 32,
                all_hex(drawn@),
                tried.finite(),
                tried.len() == k,
                tried.subset_of(dom),
                k <= n,
                forall|x: Seq<char>| #[trigger] tried.contains(x) ==> exists|j: nat| j < k && x == #[trigger] fallback_id(drawn@, j),
            decreases n - k,
        {
            let digits = fixed_hex_exec(k, 16);
            let mut cand = string_from_chars(prefix.as_slice());
            push_chars(&mut cand, digits.as_slice());
            assert(cand@ == fallback_id(drawn@, k as nat));
            if !self.sessions.contains_key(cand.as_str()) {
                proof {
                    lemma_fixed_hex_shape(k as nat, 16);
                    assert forall|i: int| 0 <= i < cand@.len() implies is_hex_digit(#[trigger] cand@[i]) by {
                        if i < 16 {
                            assert(cand@[i] == drawn@[i]);
                        } else {
                            assert(cand@[i] == fixed_hex(k as nat, 16)[i - 16]);
                        }
                    }
                }
                return cand;
            }
            proof {
                assert(!tried.contains(cand@)) by {
                    if tried.contains(cand@) {
                        let j = choose|j: nat| j < k && cand@ == #[trigger] fallback_id(drawn@, j);
                        lemma_fallback_ids_distinct(drawn@, j, k as nat);
                    }
                }
                let t2 = tried.insert(cand@);
                assert(t2.len() == k + 1);
                vstd::set_lib::lemma_len_subset(t2, dom);
                assert forall|x: Seq<char>| #[trigger] t2.contains(x) implies exists|j: nat| j < k + 1 && x == #[trigger] fallback_id(drawn@, j) by {
                    if x == cand@ {
                        assert(fallback_id(drawn@, k as nat) == x);
                    } else {
                        let j = choose|j: nat| j < k && x == #[trigger] fallback_id(drawn@, j);
                        assert(j < k + 1);
                    }
                }
                tried = t2;
            }
            k = k + 1;
        }
    }

    /// Makes a new empty session and returns its identifier.
    pub fn create(&mut self) -> (id: String)
        requires
            old(self).wf(),
        ensures
            final(self).wf(),
            id@.len() == 32,
            all_hex(id@),
            !old(self).sessions().contains_key(id@),
            final(self).sessions().contains_key(id@),
            final(self).sessions()[id@].id@ == id@,
            final(self).sessions()[id@].data@ == Map::<Seq<char>, String>::empty(),
            final(self).sessions()[id@].created_at == final(self).sessions()[id@].last_access,
            forall|k: Seq<char>| k != id@ ==> #[trigger] final(self).sessions().contains_key(k)
                == old(self).sessions().contains_key(k),
            forall|k: Seq<char>| k != id@ && old(self).sessions().contains_key(k)
                ==> #[trigger] final(self).sessions()[k] == old(self).sessions()[k],
            final(self).cookie() == old(self).cookie(),
            final(self).ttl() == old(self).ttl(),
            final(self).last_sweep() == old(self).last_sweep(),
    {
        let drawn = generate_session_id();
        let id = self.unused_id(drawn);
        let now = self.tick();
        let s = Session::new(id.clone(), now, self.origin);
        self.sessions.insert(id.clone(), s);
        id
    }

    /// Looks up the session with identifier `session_id`: marks it as used now and
    /// returns a copy of it (as `get_mut` does).
    pub fn get(&mut self, session_id: &str) -> (r: Option<Session>)
        requires
            old(self).wf(),
        ensures
            final(self).wf(),
            final(self).cookie() == old(self).cookie(),
            final(self).ttl() == old(self).ttl(),
            final(self).last_sweep() == old(self).last_sweep(),
            final(self).sessions().dom() == old(self).sessions().dom(),
            match r {
                Some(s) => {
                    &&& old(self).sessions().contains_key(session_id@)
                    &&& s.wf()
                    &&& s.same(&final(self).sessions()[session_id@])
                    &&& s.id@ == session_id@
                    &&& s.data@ == old(self).sessions()[session_id@].data@
                    &&& s.created_at == old(self).sessions()[session_id@].created_at
                    &&& s.last_access >= old(self).sessions()[session_id@].last_access
                    &&& forall|k: Seq<char>| k != session_id@ && old(self).sessions().contains_key(k)
                        ==> #[trigger] final(self).sessions()[k] == old(self).sessions()[k]
                },
                None => !old(self).sessions().contains_key(session_id@) && final(self).sessions() == old(self).sessions(),
            },
            old(self).refreshed_by_lookup(*final(self), session_id@, r),
    {
        self.get_mut(session_id)
    }

    /// Marks the session with identifier `session_id` as used now and returns a copy
    /// of it.
    pub fn get_mut(&mut self, session_id: &str) -> (r: Option<Session>)
        requires
            old(self).wf(),
        ensures
            final(self).wf(),
            final(self).cookie() == old(self).cookie(),
            final(self).ttl() == old(self).ttl(),
            final(self).last_sweep() == old(self).last_sweep(),
            final(self).sessions().dom() == old(self).sessions().dom(),
            match r {
                Some(s) => {
                    &&& old(self).sessions().contains_key(session_id@)
                    &&& s.wf()
                    &&& s.same(&final(self).sessions()[session_id@])
                    &&& s.id@ == session_id@
                    &&& s.data@ == old(self).sessions()[session_id@].data@
                    &&& s.created_at == old(self).sessions()[session_id@].created_at
                    &&& s.last_access >= old(self).sessions()[session_id@].last_access
                    &&& forall|k: Seq<char>| k != session_id@ && old(self).sessions().contains_key(k)
                        ==> #[trigger] final(self).sessions()[k] == old(self).sessions()[k]
                },
                None => !old(self).sessions().contains_key(session_id@) && final(self).sessions() == old(self).sessions(),
            },
            old(self).refreshed_by_lookup(*final(self), session_id@, r),
    {
        let now = self.tick();
        let found = match self.sessions.get(session_id) {
            Some(s) => Some(s.duplicate()),
            None => None,
        };
        match found {
            Some(mut s) => {
                if now > s.last_access {
                    s.last_access = now;
                }
                let stored = s.duplicate();
                let key = s.id.clone();
                self.sessions.insert(key, stored);
                proof {
                    assert(self.sessions@.dom() =~= old(self).sessions@.dom());
                }
                Some(s)
            },
            None => None,
        }
    }

    /// Stores `session` under its identifier, replacing any session stored there.
    pub fn update(&mut self, session: Session)
        requires
            old(self).wf(),
            session.wf(),
        ensures
            final(self).wf(),
            final(self).sessions() == old(self).sessions().insert(session.id@, session),
            final(self).cookie() == old(self).cookie(),
            final(self).ttl() == old(self).ttl(),
            final(self).last_sweep() == old(self).last_sweep(),
    {
        let key = session.id.clone();
        self.sessions.insert(key, session);
    }

    /// Removes the session with identifier `session_id`.
    pub fn remove(&mut self, session_id: &str)
        requires
            old(self).wf(),
        ensures
            final(self).wf(),
            final(self).sessions() == old(self).sessions().remove(session_id@),
            final(self).cookie() == old(self).cookie(),
            final(self).ttl() == old(self).ttl(),
            final(self).last_sweep() == old(self).last_sweep(),
    {
        self.sessions.remove(session_id);
    }

    /// A sweep at `now` takes the store from `self` to `after`: when at least the
    /// sweep interval has passed since the last sweep, `now` becomes the last sweep
    /// and the sessions idle for the time to live or longer are dropped;
    /// otherwise nothing changes.
    pub open spec fn swept_at(&self, after: Self, now: u128) -> bool {
        if elapsed(now, self.last_sweep()) < CLEANUP_INTERVAL_SECS as u128 * NANOS_PER_SEC {
            &&& after.sessions() == self.sessions()
            &&& after.last_sweep() == self.last_sweep()
        } else {
            &&& after.last_sweep() == now
            &&& after.sessions() == self.sessions().restrict(
                Set::new(|k: Seq<char>| self.alive(self.sessions()[k], now)),
            )
        }
    }

    /// Sweeps the store at the current time (see `cleanup_at`).
    pub fn cleanup(&mut self)
        requires
            old(self).wf(),
        ensures
            final(self).wf(),
            final(self).cookie() == old(self).cookie(),
            final(self).ttl() == old(self).ttl(),
            forall|k: Seq<char>| #[trigger] final(self).sessions().contains_key(k) ==> old(self).sessions().contains_key(k) && final(self).sessions()[k] == old(self).sessions()[k],
            exists|now: u128| #[trigger] old(self).swept_at(*final(self), now),
    {
        let now = self.tick();
        let ghost s1 = *self;
        assert(s1.sessions() == old(self).sessions());
        assert(s1.last_sweep() == old(self).last_sweep());
        assert(s1.ttl() == old(self).ttl());
        assert(s1.wf());
        self.cleanup_at(now);
        assert(s1.swept_at(*self, now));
        assert(Set::new(|k: Seq<char>| s1.alive(s1.sessions()[k], now)) =~= Set::new(
            |k: Seq<char>| old(self).alive(old(self).sessions()[k], now),
        ));
        assert(old(self).swept_at(*self, now));
    }

    /// Sweeps the store at time `now`: when at least the sweep interval has passed
    /// since the last sweep, records `now` as the last sweep and drops the sessions
    /// that have been idle for the time to live or longer; otherwise does nothing.
    pub fn cleanup_at(&mut self, now: u128)
        requires
            old(self).wf(),
        ensures
            final(self).wf(),
            final(self).cookie() == old(self).cookie(),
            final(self).ttl() == old(self).ttl(),
            old(self).swept_at(*final(self), now),
    {
        if elapsed_exec(now, self.last_cleanup) < (CLEANUP_INTERVAL_SECS as u128) * NANOS_PER_SEC {
            return;
        }
        self.last_cleanup = now;
        let ttl_nanos = (self.ttl_secs as u128) * NANOS_PER_SEC;
        let n = self.sessions.len();
        let mut keep: Vec<bool> = Vec::new();
        let mut i: usize = 0;
        while i < n
            invariant
                n == self.sessions.spec_len(),
                i <= n,
                keep@.len() == i,
                ttl_nanos == self.ttl_secs as u128 * NANOS_PER_SEC,
                forall|j: int| 0 <= j < i ==> #[trigger] keep@[j] == (elapsed(
                    now,
                    self.sessions.entry(j).1.last_access,
                ) < ttl_nanos),
            decreases n - i,
        {
            let (_, s) = self.sessions.entry_at(i);
            let idle = elapsed_exec(now, s.last_access);
            keep.push(idle < ttl_nanos);
            i += 1;
        }
        let ghost before = self.sessions;
        proof {
            before.lemma_entries();
        }
        self.sessions.retain_mask(keep.as_slice());
        proof {
            let kept = Set::new(
                |k: Seq<char>|
                    exists|j: int|
                        0 <= j < keep@.len() && keep@[j] && #[trigger] before.entry(j).0 == k,
            );
            let alive = Set::new(|k: Seq<char>| old(self).alive(old(self).sessions()[k], now));
            assert(self.sessions@ =~= before@.restrict(alive)) by {
                assert forall|k: Seq<char>| #[trigger] before@.contains_key(k) implies (kept.contains(
                    k,
                ) == alive.contains(k)) by {
                    let j = choose|j: int| 0 <= j < before.spec_len() && before.entry(j).0 == k;
                    assert(before@[before.entry(j).0] == before.entry(j).1);
                    if kept.contains(k) {
                        let j2 = choose|j2: int|
                            0 <= j2 < keep@.len() && keep@[j2] && #[trigger] before.entry(j2).0
                                == k;
                        if j2 != j {
                            if j2 < j {
                                assert(before.entry(j2).0 != before.entry(j).0);
                            } else {
                                assert(before.entry(j).0 != before.entry(j2).0);
                            }
                        }
                    }
                    if alive.contains(k) {
                        assert(keep@[j]);
                    }
                }
            }
        }
    }

    /// The session identifier that `cookie_header` carries for this store's cookie:
    /// the first `;`-separated part that, trimmed, starts with the cookie name and
    /// `=` and has a non-empty trimmed value after them.
    pub fn parse_session_id(&self, cookie_header: Option<&str>) -> (r: Option<String>)
        ensures
            match cookie_header {
                None => r is None,
                Some(h) => match session_id_in(h@, self.cookie()) {
                    Some(v) => r is Some && r->0@ == v,
                    None => r is None,
                },
            },
    {
        let header = match cookie_header {
            Some(h) => h,
            None => return None,
        };
        let hv = chars_of(header);
        let mut prefix = chars_of(self.cookie_name.as_str());
        prefix.push('=');
        let parts = split_chars(hv.as_slice(), ';');
        let ghost all = split_spec(hv@, ';');
        assert(parts@.len() == all.len());
        let n = parts.len();
        let mut i: usize = 0;
        assert(all.skip(0) =~= all);
        while i < n
            invariant
                n == parts@.len(),
                n == all.len(),
                i <= n,
                all == split_spec(header@, ';'),
                cookie_header == Some(header),
                prefix@ == self.cookie().push('='),
                forall|j: int| 0 <= j < parts@.len() ==> #[trigger] parts@[j]@ == all[j],
                session_id_in(header@, self.cookie()) == first_cookie_value(
                    all.skip(i as int),
                    prefix@,
                ),
            decreases n - i,
        {
            let ghost rest = all.skip(i as int);
            assert(rest[0] == all[i as int]);
            assert(rest.drop_first() =~= all.skip(i + 1));
            let t = trim_chars(parts[i].as_slice());
            if seq_starts_with(t.as_slice(), prefix.as_slice()) {
                let value = sub_chars(t.as_slice(), prefix.len(), t.len());
                assert(value@ =~= t@.skip(prefix@.len() as int));
                let v = trim_chars(value.as_slice());
                if v.len() > 0 {
                    assert(cookie_value(rest[0], prefix@) == Some(v@));
                    return Some(string_from_chars(v.as_slice()));
                }
            }
            i += 1;
        }
        None
    }

    /// The `Set-Cookie` value that hands out `session_id`:
    /// `NAME=ID; HttpOnly; SameSite=Lax; Path=/; Max-Age=TTL`.
    pub fn build_set_cookie(&self, session_id: &str) -> (r: String)
        ensures
            r@ == set_cookie_spec(self.cookie(), session_id@, self.ttl()),
    {
        let mut out = String::new();
        push_str(&mut out, self.cookie_name.as_str());
        push_str(&mut out, "=");
        push_str(&mut out, session_id);
        push_str(&mut out, "; HttpOnly; SameSite=Lax; Path=/; Max-Age=");
        push_decimal(&mut out, self.ttl_secs);
        assert(out@ =~= set_cookie_spec(self.cookie(), session_id@, self.ttl()));
        out
    }

    /// The `Set-Cookie` value that drops the session cookie:
    /// `NAME=; HttpOnly; SameSite=Lax; Path=/; Max-Age=0`.
    pub fn build_delete_cookie(&self) -> (r: String)
        ensures
            r@ == delete_cookie_spec(self.cookie()),
    {
        let mut out = String::new();
        push_str(&mut out, self.cookie_name.as_str());
        push_str(&mut out, "=; HttpOnly; SameSite=Lax; Path=/; Max-Age=0");
        assert(out@ =~= delete_cookie_spec(self.cookie()));
        out
    }
}


/// What `update` stores is what `get` reads back: once `update(session)` has
/// taken the store `before` to `after`, `after` holds `session` under its
/// identifier, and every other identifier keeps the session it had (or stays
/// absent).
pub proof fn law_update_then_get(before: SessionStore, after: SessionStore, session: Session, other: Seq<char>)
    requires
        before.wf(),
        session.wf(),
        after.sessions() == before.sessions().insert(session.id@, session),
        other != session.id@,
    ensures
        after.sessions().contains_key(session.id@),
        after.sessions()[session.id@] == session,
        after.sessions().contains_key(other) == before.sessions().contains_key(other),
        before.sessions().contains_key(other) ==> after.sessions()[other] == before.sessions()[other],
{
}

/// Once `remove(id)` has taken the store `before` to `after`, `get(id)` finds
/// nothing, and every other session stays as it was.
pub proof fn law_remove_then_get(before: SessionStore, after: SessionStore, id: Seq<char>, other: Seq<char>)
    requires
        before.wf(),
        after.sessions() == before.sessions().remove(id),
        other != id,
    ensures
        !after.sessions().contains_key(id),
        after.sessions().contains_key(other) == before.sessions().contains_key(other),
        before.sessions().contains_key(other) ==> after.sessions()[other] == before.sessions()[other],
{
}

/// An identifier that the store makes parses back from its cookie: a cookie
/// `name=id` (followed by `;` and anything, or alone), and the `Set-Cookie`
/// value of `id`, carry `id` for `name`, for any 32-digit lower-case hexadecimal
/// `id` and any name without `;` that does not start with white space.
pub proof fn law_created_id_round_trip(name: Seq<char>, id: Seq<char>, rest: Seq<char>, ttl: u64)
    requires
        !name.contains(';'),
        name.len() > 0 ==> !is_ws(name[0]),
        id.len() == 32,
        all_hex(id),
    ensures
        session_id_in((name + "="@ + id).push(';') + rest, name) == Some(id),
        session_id_in(name + "="@ + id, name) == Some(id),
        session_id_in(set_cookie_spec(name, id, ttl), name) == Some(id),
{
    assert(!id.contains(';')) by {
        if id.contains(';') {
            let k = choose|k: int| 0 <= k < id.len() && id[k] == ';';
            assert(is_hex_digit(id[k]));
        }
    }
    assert(is_hex_digit(id[0]));
    assert(is_hex_digit(id.last()));
    assert(trimmed(id));
    law_cookie_round_trip(name, id, rest, ttl);
}

/// A cookie whose value was dropped (`name=` with nothing after it) carries no
/// session, for any name without `;` or white space at either end.
pub proof fn law_dropped_cookie_carries_nothing(name: Seq<char>)
    requires
        !name.contains(';'),
        name.len() > 0 ==> !is_ws(name[0]),
    ensures
        session_id_in(name + "="@, name) is None,
{
    reveal_strlit("=");
    let part = name + "="@;
    assert(part =~= name.push('='));
    assert(!part.contains(';')) by {
        if part.contains(';') {
            let k = choose|k: int| 0 <= k < part.len() && part[k] == ';';
            if k < name.len() {
                assert(name[k] == ';');
            }
        }
    }
    crate::text::lemma_split_without_sep(part, ';');
    assert(split_spec(part, ';') == seq![part]);
    assert(trimmed(part));
    lemma_trim_trimmed(part);
    assert(part.skip(name.push('=').len() as int) =~= Seq::<char>::empty());
    assert(trim_spec(Seq::<char>::empty()) =~= Seq::<char>::empty()) by {
        reveal_with_fuel(crate::text::trim_start_spec, 2);
        reveal_with_fuel(crate::text::trim_end_spec, 2);
    }
    let prefix = name.push('=');
    assert(trim_spec(part) == part);
    assert(starts_with(part, prefix)) by {
        assert(part.take(prefix.len() as int) =~= prefix);
    }
    assert(cookie_value(part, prefix) is None);
    let parts = seq![part];
    assert(parts.drop_first() =~= Seq::<Seq<char>>::empty());
    assert(first_cookie_value(parts.drop_first(), prefix) is None);
    assert(first_cookie_value(parts, prefix) is None);
}

proof fn lemma_trim_spaced_word(w: Seq<char>)
    requires
        w.len() > 0,
        !is_ws(w[0]),
        !is_ws(w.last()),
    ensures
        trim_spec(seq![' '] + w) == w,
{
    let q = seq![' '] + w;
    assert(is_ws(' '));
    assert(q.drop_first() =~= w);
    assert(crate::text::trim_start_spec(w) == w);
    assert(crate::text::trim_start_spec(q) == w);
    assert(crate::text::trim_end_spec(w) == w);
}

proof fn lemma_no_cookie_in_word(w: Seq<char>, name: Seq<char>)
    requires
        w.len() > 0,
        !is_ws(w[0]),
        !is_ws(w.last()),
        !(name.len() < w.len() && w[name.len() as int] == '=' && w.take(name.len() as int) == name),
    ensures
        cookie_value(seq![' '] + w, name.push('=')) is None,
{
    lemma_trim_spaced_word(w);
    let prefix = name.push('=');
    if starts_with(w, prefix) {
        assert(w.take(prefix.len() as int)[name.len() as int] == prefix[name.len() as int]);
        assert(w.take(name.len() as int) =~= w.take(prefix.len() as int).take(name.len() as int));
        assert(prefix.take(name.len() as int) =~= name);
    }
}

/// The `Set-Cookie` value that drops the session cookie carries no session, for
/// any cookie name without `;` that does not start with white space and is not
/// one of the attribute names `SameSite`, `Path` and `Max-Age`.
pub proof fn law_delete_cookie_carries_nothing(name: Seq<char>)
    requires
        !name.contains(';'),
        name.len() > 0 ==> !is_ws(name[0]),
        name != "SameSite"@,
        name != "Path"@,
        name != "Max-Age"@,
    ensures
        session_id_in(delete_cookie_spec(name), name) is None,
{
    reveal_strlit("=; HttpOnly; SameSite=Lax; Path=/; Max-Age=0");
    reveal_strlit("SameSite");
    reveal_strlit("Path");
    reveal_strlit("Max-Age");
    let w1 = seq!['H', 't', 't', 'p', 'O', 'n', 'l', 'y'];
    let w2 = seq!['S', 'a', 'm', 'e', 'S', 'i', 't', 'e', '=', 'L', 'a', 'x'];
    let w3 = seq!['P', 'a', 't', 'h', '=', '/'];
    let w4 = seq!['M', 'a', 'x', '-', 'A', 'g', 'e', '=', '0'];
    let p0 = name.push('=');
    let p1 = seq![' '] + w1;
    let p2 = seq![' '] + w2;
    let p3 = seq![' '] + w3;
    let p4 = seq![' '] + w4;
    let parts = seq![p0, p1, p2, p3, p4];
    reveal_with_fuel(crate::text::join_with, 6);
    assert(delete_cookie_spec(name) =~= crate::text::join_with(parts, ';'));
    assert forall|i: int| 0 <= i < parts.len() implies !(#[trigger] parts[i]).contains(';') by {
        if parts[i].contains(';') {
            let j = choose|j: int| 0 <= j < parts[i].len() && parts[i][j] == ';';
            if i == 0 && j < name.len() {
                assert(name[j] == ';');
            }
        }
    }
    crate::text::lemma_split_join(parts, ';');
    let prefix = name.push('=');
    // the part `name=` gives an empty value
    assert(!p0.contains(';'));
    assert(trimmed(p0));
    lemma_trim_trimmed(p0);
    assert(p0.skip(prefix.len() as int) =~= Seq::<char>::empty());
    assert(trim_spec(Seq::<char>::empty()) =~= Seq::<char>::empty()) by {
        reveal_with_fuel(crate::text::trim_start_spec, 2);
        reveal_with_fuel(crate::text::trim_end_spec, 2);
    }
    assert(cookie_value(p0, prefix) is None);
    // no attribute starts with `name=`
    assert(!(name.len() < w1.len() && w1[name.len() as int] == '=' && w1.take(name.len() as int) == name));
    lemma_no_cookie_in_word(w1, name);
    assert(!(name.len() < w2.len() && w2[name.len() as int] == '=' && w2.take(name.len() as int) == name)) by {
        if name.len() < w2.len() && w2[name.len() as int] == '=' {
            assert(name.len() == 8);
            assert(w2.take(8) =~= "SameSite"@);
        }
    }
    lemma_no_cookie_in_word(w2, name);
    assert(!(name.len() < w3.len() && w3[name.len() as int] == '=' && w3.take(name.len() as int) == name)) by {
        if name.len() < w3.len() && w3[name.len() as int] == '=' {
            assert(name.len() == 4);
            assert(w3.take(4) =~= "Path"@);
        }
    }
    lemma_no_cookie_in_word(w3, name);
    assert(!(name.len() < w4.len() && w4[name.len() as int] == '=' && w4.take(name.len() as int) == name)) by {
        if name.len() < w4.len() && w4[name.len() as int] == '=' {
            assert(name.len() == 7);
            assert(w4.take(7) =~= "Max-Age"@);
        }
    }
    lemma_no_cookie_in_word(w4, name);
    reveal_with_fuel(first_cookie_value, 6);
    assert(parts.drop_first() =~= seq![p1, p2, p3, p4]);
    assert(seq![p1, p2, p3, p4].drop_first() =~= seq![p2, p3, p4]);
    assert(seq![p2, p3, p4].drop_first() =~= seq![p3, p4]);
    assert(seq![p3, p4].drop_first() =~= seq![p4]);
    assert(seq![p4].drop_first() =~= Seq::<Seq<char>>::empty());
}

/// A lookup keeps a session alive for a full time to live from the lookup: once
/// a lookup of `id` has found it (taking the store from `before` to `mid`), a
/// sweep at any time `t` less than the time to live after the lookup (taking the
/// store from `mid` to `after`) keeps the session, however long ago it was made
/// or last used before.
pub proof fn law_lookup_keeps_session_alive(
    before: SessionStore,
    mid: SessionStore,
    after: SessionStore,
    id: Seq<char>,
    r: Option<Session>,
    t: u128,
)
    requires
        before.refreshed_by_lookup(mid, id, r),
        r is Some,
        mid.swept_at(after, t),
        mid.now() <= t,
        t - mid.now() < mid.ttl() as u128 * NANOS_PER_SEC,
    ensures
        after.sessions().contains_key(id),
        r->0.last_access >= mid.now(),
{
    let s = mid.sessions()[id];
    assert(s.last_access >= mid.now());
    assert(mid.alive(s, t));
}

} // verus!
