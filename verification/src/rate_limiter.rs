//! Request and connection limiting per client address: token buckets, counts of
//! open connections, a black list with trailing `*` wildcards, a white list, and
//! temporary bans that follow repeated violations.
//!
//! Token buckets count in thousand-millionths of a token and time in nanoseconds,
//! so that a refill is exact: a rate of `r` tokens a second adds `r` units for
//! each nanosecond that has passed. A rate or capacity of `None` is unlimited.

use vstd::prelude::*;
use crate::clock::{elapsed, elapsed_exec, instant_now, nanos_since};
use crate::strmap::StrMap;
use crate::text::{
    chars_of, ends_with, seq_ends_with, seq_starts_with, starts_with, str_eq, trim_end_char,
    trim_end_char_spec,
};

verus! {

/// One token, in the units that buckets count in.
pub const TOKEN: u128 = 1_000_000_000;

/// The window within which violations add up, in nanoseconds (30 s).
pub const VIOLATION_WINDOW: u128 = 30_000_000_000;

/// How often the request buckets are swept, in nanoseconds (60 s).
pub const CLEANUP_INTERVAL: u128 = 60_000_000_000;

/// How long a connection bucket may go without refill before it is dropped (3600 s).
pub const CONN_BUCKET_IDLE: u128 = 3_600_000_000_000;

/// The number of request buckets above which a sweep drops them all.
pub const MAX_BUCKETS: usize = 10000;

/// A token bucket: `capacity` tokens at most, refilled at `rate` tokens a second.
#[derive(Clone, Copy, Debug)]
pub struct TokenBucket {
    pub capacity: Option<u32>,
    pub rate: Option<u32>,
    pub tokens: u128,
    pub last_refill: u128,
}

/// The units in a full bucket of `capacity` tokens (an unlimited bucket keeps none).
pub open spec fn full_units(capacity: Option<u32>) -> u128 {
    match capacity {
        Some(c) => (c as u128 * TOKEN) as u128,
        None => 0,
    }
}

/// A full bucket, last refilled at `now`.
pub open spec fn new_bucket(capacity: Option<u32>, rate: Option<u32>, now: u128) -> TokenBucket {
    TokenBucket { capacity, rate, tokens: full_units(capacity), last_refill: now }
}

/// The bucket after a refill at `now`: when time has passed and the rate is not
/// zero, the tokens grow by the elapsed time times the rate (to the capacity at
/// most; without limit the bucket fills at once) and the refill time becomes `now`.
pub open spec fn refilled(b: TokenBucket, now: u128) -> TokenBucket {
    let e = elapsed(now, b.last_refill);
    if e == 0 {
        b
    } else {
        match b.rate {
            None => TokenBucket { tokens: full_units(b.capacity), last_refill: now, ..b },
            Some(r) => if r == 0 {
                b
            } else {
                let grown = b.tokens + e * r;
                match b.capacity {
                    Some(_) => TokenBucket {
                        tokens: if grown < full_units(b.capacity) {
                            grown as u128
                        } else {
                            full_units(b.capacity)
                        },
                        last_refill: now,
                        ..b
                    },
                    None => TokenBucket { last_refill: now, ..b },
                }
            },
        }
    }
}

/// The bucket after a refill at `now` and an attempt to take one token, and
/// whether the token was there (an unlimited bucket always has one).
pub open spec fn consumed(b: TokenBucket, now: u128) -> (TokenBucket, bool) {
    let r = refilled(b, now);
    match r.capacity {
        None => (r, true),
        Some(_) => if r.tokens >= TOKEN {
            (TokenBucket { tokens: (r.tokens - TOKEN) as u128, ..r }, true)
        } else {
            (r, false)
        },
    }
}

fn make_bucket(capacity: Option<u32>, rate: Option<u32>, now: u128) -> (b: TokenBucket)
    ensures
        b == new_bucket(capacity, rate, now),
{
    let tokens: u128 = match capacity {
        Some(c) => (c as u128) * TOKEN,
        None => 0,
    };
    TokenBucket { capacity, rate, tokens, last_refill: now }
}

fn refill(b: TokenBucket, now: u128) -> (r: TokenBucket)
    ensures
        r == refilled(b, now),
{
    let e = elapsed_exec(now, b.last_refill);
    if e == 0 {
        return b;
    }
    match b.rate {
        None => {
            let full: u128 = match b.capacity {
                Some(c) => (c as u128) * TOKEN,
                None => 0,
            };
            TokenBucket { tokens: full, last_refill: now, ..b }
        },
        Some(r) => {
            if r == 0 {
                return b;
            }
            match b.capacity {
                Some(c) => {
                    let full = (c as u128) * TOKEN;
                    let tokens = if b.tokens >= full {
                        full
                    } else {
                        match e.checked_mul(r as u128) {
                            Some(add) => if add < full - b.tokens {
                                b.tokens + add
                            } else {
                                full
                            },
                            None => full,
                        }
                    };
                    TokenBucket { tokens, last_refill: now, ..b }
                },
                None => TokenBucket { last_refill: now, ..b },
            }
        },
    }
}

fn try_consume(b: TokenBucket, now: u128) -> (r: (TokenBucket, bool))
    ensures
        r == consumed(b, now),
{
    let f = refill(b, now);
    match f.capacity {
        None => (f, true),
        Some(_) => if f.tokens >= TOKEN {
            (TokenBucket { tokens: f.tokens - TOKEN, ..f }, true)
        } else {
            (f, false)
        },
    }
}

/// A fresh bucket of `capacity` tokens gives one token on each of `capacity`
/// attempts made at the moment it was made, and refuses the next one.
pub proof fn law_burst(capacity: u32, rate: Option<u32>, now: u128, k: nat)
    requires
        k <= capacity,
    ensures
        ({
            let b = TokenBucket { tokens: ((capacity - k) * TOKEN) as u128, ..new_bucket(Some(capacity), rate, now) };
            k < capacity ==> consumed(b, now).1 && consumed(b, now).0 == TokenBucket {
                tokens: ((capacity - k - 1) * TOKEN) as u128,
                ..b
            }
        }),
        ({
            let b = TokenBucket { tokens: 0, ..new_bucket(Some(capacity), rate, now) };
            !consumed(b, now).1
        }),
{
    assert(((capacity - k) * TOKEN) >= 0) by (nonlinear_arith)
        requires
            k <= capacity,
    ;
    assert(k < capacity ==> (capacity - k) * TOKEN >= TOKEN) by (nonlinear_arith);
    assert((capacity - k) * TOKEN - TOKEN == (capacity - k - 1) * TOKEN) by (nonlinear_arith);
}

// ───────────────────────── addresses ─────────────────────────

/// Whether a black-list entry covers `ip`: it is `ip` itself, or it ends with `*`
/// and `ip` starts with what comes before its trailing stars.
pub open spec fn entry_blocks(entry: Seq<char>, ip: Seq<char>) -> bool {
    entry == ip || (ends_with(entry, seq!['*']) && starts_with(ip, trim_end_char_spec(entry, '*')))
}

/// Whether some entry of the list covers `ip`.
pub open spec fn listed(list: Seq<Seq<char>>, ip: Seq<char>) -> bool {
    exists|i: int| 0 <= i < list.len() && entry_blocks(#[trigger] list[i], ip)
}

/// The view of a list of strings.
pub open spec fn texts(v: Seq<String>) -> Seq<Seq<char>> {
    v.map_values(|s: String| s@)
}

fn entry_blocks_exec(entry: &str, ip: &str) -> (b: bool)
    ensures
        b == entry_blocks(entry@, ip@),
{
    if str_eq(entry, ip) {
        return true;
    }
    let e = chars_of(entry);
    let star = ['*'];
    assert(star@ == seq!['*']);
    if !seq_ends_with(e.as_slice(), &star) {
        return false;
    }
    let prefix = trim_end_char(e.as_slice(), '*');
    let v = chars_of(ip);
    seq_starts_with(v.as_slice(), prefix.as_slice())
}

fn contains_text(list: &Vec<String>, ip: &str) -> (b: bool)
    ensures
        b == texts(list@).contains(ip@),
{
    let n = list.len();
    let mut i: usize = 0;
    while i < n
        invariant
            n == list@.len(),
            i <= n,
            forall|j: int| 0 <= j < i ==> #[trigger] list@[j]@ != ip@,
        decreases n - i,
    {
        if str_eq(list[i].as_str(), ip) {
            assert(texts(list@)[i as int] == ip@);
            return true;
        }
        i += 1;
    }
    assert(!texts(list@).contains(ip@)) by {
        if texts(list@).contains(ip@) {
            let j = choose|j: int| 0 <= j < texts(list@).len() && texts(list@)[j] == ip@;
            assert(list@[j]@ == ip@);
        }
    }
    false
}

fn listed_exec(list: &Vec<String>, ip: &str) -> (b: bool)
    ensures
        b == listed(texts(list@), ip@),
{
    let n = list.len();
    let mut i: usize = 0;
    while i < n
        invariant
            n == list@.len(),
            i <= n,
            forall|j: int| 0 <= j < i ==> !entry_blocks(#[trigger] texts(list@)[j], ip@),
        decreases n - i,
    {
        if entry_blocks_exec(list[i].as_str(), ip) {
            assert(entry_blocks(texts(list@)[i as int], ip@));
            return true;
        }
        assert(texts(list@)[i as int] == list@[i as int]@);
        i += 1;
    }
    false
}

// ───────────────────────── bans, violations, connections ─────────────────────────

/// The number of open connections of `ip` (zero when none is recorded).
pub open spec fn count_of(m: Map<Seq<char>, u32>, ip: Seq<char>) -> u32 {
    if m.contains_key(ip) {
        m[ip]
    } else {
        0
    }
}

/// The counts after one more connection of `ip`.
pub open spec fn after_connect(m: Map<Seq<char>, u32>, ip: Seq<char>) -> Map<Seq<char>, u32> {
    m.insert(ip, (count_of(m, ip) + 1) as u32)
}

/// The counts after a connection of `ip` closes: a count above one goes down by
/// one, a count of one is dropped.
pub open spec fn after_disconnect(m: Map<Seq<char>, u32>, ip: Seq<char>) -> Map<Seq<char>, u32> {
    if m.contains_key(ip) {
        if m[ip] > 1 {
            m.insert(ip, (m[ip] - 1) as u32)
        } else {
            m.remove(ip)
        }
    } else {
        m
    }
}

/// Whether `ip` is banned at `now`.
pub open spec fn temp_banned(bans: Map<Seq<char>, u128>, ip: Seq<char>, now: u128) -> bool {
    bans.contains_key(ip) && now < bans[ip]
}

/// The bans after `ip` is looked up at `now`: a ban that has run out is dropped.
pub open spec fn bans_after_lookup(bans: Map<Seq<char>, u128>, ip: Seq<char>, now: u128) -> Map<
    Seq<char>,
    u128,
> {
    if bans.contains_key(ip) && !(now < bans[ip]) {
        bans.remove(ip)
    } else {
        bans
    }
}

/// The end of a ban of `secs` seconds that starts at `now` (the latest time, if the
/// sum does not fit).
pub open spec fn ban_end(now: u128, secs: u64) -> u128 {
    if now + secs * TOKEN > u128::MAX {
        u128::MAX
    } else {
        (now + secs * TOKEN) as u128
    }
}

fn ban_end_exec(now: u128, secs: u64) -> (r: u128)
    ensures
        r == ban_end(now, secs),
{
    now.saturating_add((secs as u128) * TOKEN)
}

/// The violation record of an address after one more violation at `now`: a record
/// whose window started more than the window length ago starts over at one;
/// otherwise the count goes up by one (it stays at the largest count once there).
pub open spec fn violation_after(v: Option<(u32, u128)>, now: u128) -> (u32, u128) {
    let e = match v {
        Some(x) => x,
        None => (0u32, now),
    };
    if elapsed(now, e.1) > VIOLATION_WINDOW {
        (1, now)
    } else if e.0 == u32::MAX {
        e
    } else {
        ((e.0 + 1) as u32, e.1)
    }
}

/// The value that `m` holds for `k`, if any.
pub open spec fn lookup<V>(m: Map<Seq<char>, V>, k: Seq<char>) -> Option<V> {
    if m.contains_key(k) {
        Some(m[k])
    } else {
        None
    }
}

/// Closing a connection undoes opening one: the count of the address is what it
/// was before, and no other address's count changes.
pub proof fn law_disconnect_undoes_connect(m: Map<Seq<char>, u32>, ip: Seq<char>)
    requires
        count_of(m, ip) < u32::MAX,
    ensures
        count_of(after_disconnect(after_connect(m, ip), ip), ip) == count_of(m, ip),
        forall|k: Seq<char>| k != ip ==> #[trigger] count_of(after_disconnect(after_connect(m, ip), ip), k) == count_of(m, k),
{
}

/// A ban is in force until it ends, and lifting it leaves the other bans as they
/// were.
pub proof fn law_ban_then_unban(bans: Map<Seq<char>, u128>, ip: Seq<char>, now: u128, secs: u64, t: u128)
    requires
        secs > 0,
        now <= t < ban_end(now, secs),
    ensures
        temp_banned(bans.insert(ip, ban_end(now, secs)), ip, t),
        bans_after_lookup(bans.insert(ip, ban_end(now, secs)), ip, t) == bans.insert(ip, ban_end(now, secs)),
        !temp_banned(bans.insert(ip, ban_end(now, secs)).remove(ip), ip, t),
        bans.insert(ip, ban_end(now, secs)).remove(ip) == bans.remove(ip),
{
    assert(bans.insert(ip, ban_end(now, secs)).remove(ip) =~= bans.remove(ip));
}

/// Violations at one moment add up one by one from no record, so the `n`-th of
/// them leaves a count of `n`.
pub proof fn law_violations_add_up(now: u128, count: u32)
    requires
        count < u32::MAX,
    ensures
        violation_after(None, now) == (1u32, now),
        violation_after(Some((count, now)), now) == ((count + 1) as u32, now),
{
}

// ───────────────────────── the limiter ─────────────────────────

/// The limiter: its settings, and its state by client address.
pub struct RateLimiter {
    buckets: StrMap<TokenBucket>,
    conn_buckets: StrMap<TokenBucket>,
    active_connections: StrMap<u32>,
    temp_bans: StrMap<u128>,
    violations: StrMap<(u32, u128)>,
    last_cleanup: u128,
    default_rps: Option<u32>,
    default_burst: u32,
    conn_rps: Option<u32>,
    max_concurrent_connections: u32,
    ban_duration_secs: u64,
    ban_threshold: u32,
    blacklist: Vec<String>,
    whitelist: Vec<String>,
    per_ip_rates: StrMap<u32>,
    enabled: bool,
    origin: std::time::Instant,
}

impl RateLimiter {
    pub closed spec fn wf(&self) -> bool {
        &&& self.buckets.wf()
        &&& self.conn_buckets.wf()
        &&& self.active_connections.wf()
        &&& self.temp_bans.wf()
        &&& self.violations.wf()
        &&& self.per_ip_rates.wf()
    }

    pub closed spec fn is_enabled(&self) -> bool {
        self.enabled
    }

    /// The request buckets by address.
    pub closed spec fn req_buckets(&self) -> Map<Seq<char>, TokenBucket> {
        self.buckets@
    }

    /// The connection buckets by address.
    pub closed spec fn connection_buckets(&self) -> Map<Seq<char>, TokenBucket> {
        self.conn_buckets@
    }

    /// The open connections by address.
    pub closed spec fn active(&self) -> Map<Seq<char>, u32> {
        self.active_connections@
    }

    /// The end of each temporary ban, by address.
    pub closed spec fn bans(&self) -> Map<Seq<char>, u128> {
        self.temp_bans@
    }

    /// The violation count and the start of its window, by address.
    pub closed spec fn violation_records(&self) -> Map<Seq<char>, (u32, u128)> {
        self.violations@
    }

    /// When the request buckets were last swept.
    pub closed spec fn last_sweep(&self) -> u128 {
        self.last_cleanup
    }

    pub closed spec fn black_list(&self) -> Seq<Seq<char>> {
        texts(self.blacklist@)
    }

    pub closed spec fn white_list(&self) -> Seq<Seq<char>> {
        texts(self.whitelist@)
    }

    /// The request rates set for particular addresses.
    pub closed spec fn custom_rates(&self) -> Map<Seq<char>, u32> {
        self.per_ip_rates@
    }

    /// The request rate (`None`: unlimited) and burst for addresses without a rate
    /// of their own.
    pub closed spec fn default_limits(&self) -> (Option<u32>, u32) {
        (self.default_rps, self.default_burst)
    }

    /// The connection rate (`None`: unlimited).
    pub closed spec fn connection_rate(&self) -> Option<u32> {
        self.conn_rps
    }

    pub closed spec fn max_connections(&self) -> u32 {
        self.max_concurrent_connections
    }

    pub closed spec fn ban_seconds(&self) -> u64 {
        self.ban_duration_secs
    }

    pub closed spec fn threshold(&self) -> u32 {
        self.ban_threshold
    }

    /// The settings are those of `other`.
    pub open spec fn same_settings(&self, other: &Self) -> bool {
        &&& self.is_enabled() == other.is_enabled()
        &&& self.black_list() == other.black_list()
        &&& self.white_list() == other.white_list()
        &&& self.custom_rates() == other.custom_rates()
        &&& self.default_limits() == other.default_limits()
        &&& self.connection_rate() == other.connection_rate()
        &&& self.max_connections() == other.max_connections()
        &&& self.ban_seconds() == other.ban_seconds()
        &&& self.threshold() == other.threshold()
    }

    /// The state is that of `other`.
    pub open spec fn same_state(&self, other: &Self) -> bool {
        &&& self.req_buckets() == other.req_buckets()
        &&& self.connection_buckets() == other.connection_buckets()
        &&& self.active() == other.active()
        &&& self.bans() == other.bans()
        &&& self.violation_records() == other.violation_records()
        &&& self.last_sweep() == other.last_sweep()
    }

    /// The request rate and burst that apply to `ip`: its own rate for both, if it
    /// has one, else the defaults.
    pub open spec fn limits_for(&self, ip: Seq<char>) -> (Option<u32>, u32) {
        if self.custom_rates().contains_key(ip) {
            (Some(self.custom_rates()[ip]), self.custom_rates()[ip])
        } else {
            self.default_limits()
        }
    }

    /// Whether `ip` is blocked at `now`: banned, or covered by the black list.
    pub open spec fn blocked(&self, ip: Seq<char>, now: u128) -> bool {
        temp_banned(self.bans(), ip, now) || listed(self.black_list(), ip)
    }

    /// The limiter has the settings that `new_full` gives for these arguments and
    /// an empty state.
    pub open spec fn fresh_from(
        &self,
        enabled: bool,
        requests_per_second: u32,
        burst_size: u32,
        connections_per_second: u32,
        max_concurrent_connections: u32,
        ban_duration_seconds: u64,
        ban_threshold: u32,
        blacklist: Seq<Seq<char>>,
        per_ip_rates: Map<Seq<char>, u32>,
    ) -> bool {
        &&& self.wf()
        &&& self.is_enabled() == enabled
        &&& self.default_limits() == (if requests_per_second > 0 {
            Some(requests_per_second)
        } else {
            None
        }, burst_size)
        &&& self.connection_rate() == (if connections_per_second > 0 {
            Some(connections_per_second)
        } else {
            None
        })
        &&& self.max_connections() == (if max_concurrent_connections > 0 {
            max_concurrent_connections
        } else {
            u32::MAX
        })
        &&& self.ban_seconds() == ban_duration_seconds
        &&& self.threshold() == (if ban_threshold > 0 {
            ban_threshold
        } else {
            u32::MAX
        })
        &&& self.black_list() == blacklist
        &&& self.white_list() == Seq::<Seq<char>>::empty()
        &&& self.custom_rates() == per_ip_rates
        &&& self.req_buckets() == Map::<Seq<char>, TokenBucket>::empty()
        &&& self.connection_buckets() == Map::<Seq<char>, TokenBucket>::empty()
        &&& self.active() == Map::<Seq<char>, u32>::empty()
        &&& self.bans() == Map::<Seq<char>, u128>::empty()
        &&& self.violation_records() == Map::<Seq<char>, (u32, u128)>::empty()
    }

    /// A limiter with the given settings and an empty state. Zero for a rate, for
    /// the connection limit or for the ban threshold means no limit; zero seconds
    /// means that violations ban no one.
    pub fn new_full(
        enabled: bool,
        requests_per_second: u32,
        burst_size: u32,
        connections_per_second: u32,
        max_concurrent_connections: u32,
        ban_duration_seconds: u64,
        ban_threshold: u32,
        blacklist: Vec<String>,
        per_ip_rates: StrMap<u32>,
    ) -> (r: RateLimiter)
        requires
            per_ip_rates.wf(),
        ensures
            r.wf(),
            r.is_enabled() == enabled,
            r.default_limits() == (if requests_per_second > 0 {
                Some(requests_per_second)
            } else {
                None
            }, burst_size),
            r.connection_rate() == (if connections_per_second > 0 {
                Some(connections_per_second)
            } else {
                None
            }),
            r.max_connections() == (if max_concurrent_connections > 0 {
                max_concurrent_connections
            } else {
                u32::MAX
            }),
            r.ban_seconds() == ban_duration_seconds,
            r.threshold() == (if ban_threshold > 0 {
                ban_threshold
            } else {
                u32::MAX
            }),
            r.black_list() == texts(blacklist@),
            r.white_list() == Seq::<Seq<char>>::empty(),
            r.custom_rates() == per_ip_rates@,
            r.req_buckets() == Map::<Seq<char>, TokenBucket>::empty(),
            r.connection_buckets() == Map::<Seq<char>, TokenBucket>::empty(),
            r.active() == Map::<Seq<char>, u32>::empty(),
            r.bans() == Map::<Seq<char>, u128>::empty(),
            r.violation_records() == Map::<Seq<char>, (u32, u128)>::empty(),
            r.fresh_from(
                enabled,
                requests_per_second,
                burst_size,
                connections_per_second,
                max_concurrent_connections,
                ban_duration_seconds,
                ban_threshold,
                texts(blacklist@),
                per_ip_rates@,
            ),
    {
        let empty: Vec<String> = Vec::new();
        assert(texts(empty@) =~= Seq::<Seq<char>>::empty());
        let origin = instant_now();
        let start = nanos_since(&origin);
        RateLimiter {
            origin,
            buckets: StrMap::new(),
            conn_buckets: StrMap::new(),
            active_connections: StrMap::new(),
            temp_bans: StrMap::new(),
            violations: StrMap::new(),
            last_cleanup: start,
            default_rps: if requests_per_second > 0 {
                Some(requests_per_second)
            } else {
                None
            },
            default_burst: burst_size,
            conn_rps: if connections_per_second > 0 {
                Some(connections_per_second)
            } else {
                None
            },
            max_concurrent_connections: if max_concurrent_connections > 0 {
                max_concurrent_connections
            } else {
                u32::MAX
            },
            ban_duration_secs: ban_duration_seconds,
            ban_threshold: if ban_threshold > 0 {
                ban_threshold
            } else {
                u32::MAX
            },
            blacklist,
            whitelist: empty,
            per_ip_rates,
            enabled,
        }
    }

    /// Replaces the white list.
    pub fn add_whitelist(&mut self, ips: Vec<String>)
        requires
            old(self).wf(),
        ensures
            final(self).wf(),
            final(self).white_list() == texts(ips@),
            final(self).is_enabled() == old(self).is_enabled(),
            final(self).black_list() == old(self).black_list(),
            final(self).custom_rates() == old(self).custom_rates(),
            final(self).default_limits() == old(self).default_limits(),
            final(self).connection_rate() == old(self).connection_rate(),
            final(self).max_connections() == old(self).max_connections(),
            final(self).ban_seconds() == old(self).ban_seconds(),
            final(self).threshold() == old(self).threshold(),
            final(self).same_state(old(self)),
    {
        self.whitelist = ips;
    }

    /// Whether `ip` is on the white list.
    pub fn is_whitelisted(&self, ip: &str) -> (b: bool)
        ensures
            b == self.white_list().contains(ip@),
    {
        contains_text(&self.whitelist, ip)
    }

    /// A reading of the limiter's monotonic clock, in nanoseconds since the
    /// limiter was made (the times its state holds are on this clock).
    pub fn clock_nanos(&self) -> (t: u128)
        ensures
            t / 1_000_000_000 <= u64::MAX,
    {
        nanos_since(&self.origin)
    }

    /// A connection attempt from `ip` at `now` answers `b` and takes the limiter
    /// from `self` to `after` (see `try_connect_at`).
    pub open spec fn connect_at(&self, after: Self, ip: Seq<char>, now: u128, b: bool) -> bool {
        &&& !self.is_enabled() ==> b && after.same_state(self)
        &&& self.is_enabled() && self.white_list().contains(ip) ==> b && after.same_state(self)
        &&& self.is_enabled() && !self.white_list().contains(ip) && self.blocked(ip, now) ==> {
            &&& !b
            &&& after.bans() == bans_after_lookup(self.bans(), ip, now)
            &&& after.req_buckets() == self.req_buckets()
            &&& after.connection_buckets() == self.connection_buckets()
            &&& after.active() == self.active()
            &&& after.violation_records() == self.violation_records()
            &&& after.last_sweep() == self.last_sweep()
        }
        &&& self.is_enabled() && !self.white_list().contains(ip) && !self.blocked(ip, now) ==> {
            let bans0 = bans_after_lookup(self.bans(), ip, now);
            let (bucket, ok) = self.connection_attempt(ip, now);
            &&& after.connection_buckets() == self.swept_connection_buckets(now).insert(ip, bucket)
            &&& after.req_buckets() == self.req_buckets()
            &&& after.last_sweep() == self.last_sweep()
            &&& if !ok {
                &&& !b
                &&& after.violation_records() == self.violation_records().insert(ip, self.next_violation(ip, now))
                &&& after.bans() == self.bans_after_violation(bans0, ip, now)
                &&& after.active() == self.active()
            } else if count_of(self.active(), ip) >= self.max_connections() {
                &&& !b
                &&& after.violation_records() == self.violation_records()
                &&& after.bans() == bans0
                &&& after.active() == self.active()
            } else {
                &&& b
                &&& after.violation_records() == self.violation_records()
                &&& after.bans() == bans0
                &&& after.active() == after_connect(self.active(), ip)
            }
        }
    }

    /// A ban of `ip` for `secs` seconds at `now` answers `b` and takes the limiter
    /// from `self` to `after` (see `ban_ip_at`).
    pub open spec fn ban_at(&self, after: Self, ip: Seq<char>, secs: u64, now: u128, b: bool) -> bool {
        &&& b == (self.is_enabled() && secs > 0)
        &&& b ==> after.bans() == self.bans().insert(ip, ban_end(now, secs))
        &&& !b ==> after.bans() == self.bans()
        &&& after.req_buckets() == self.req_buckets()
        &&& after.connection_buckets() == self.connection_buckets()
        &&& after.active() == self.active()
        &&& after.violation_records() == self.violation_records()
        &&& after.last_sweep() == self.last_sweep()
    }

    /// A ban look-up of `ip` at `now` answers `b` and takes the limiter from `self`
    /// to `after`: `b` tells whether a ban of `ip` is in force at `now`, a ban
    /// that has run out is dropped, and nothing else changes.
    pub open spec fn ban_lookup_at(&self, after: Self, ip: Seq<char>, now: u128, b: bool) -> bool {
        &&& b == temp_banned(self.bans(), ip, now)
        &&& after.bans() == bans_after_lookup(self.bans(), ip, now)
        &&& after.req_buckets() == self.req_buckets()
        &&& after.connection_buckets() == self.connection_buckets()
        &&& after.active() == self.active()
        &&& after.violation_records() == self.violation_records()
        &&& after.last_sweep() == self.last_sweep()
    }

    /// A block look-up of `ip` at `now` answers `b` and takes the limiter from
    /// `self` to `after` (see `is_blocked_at`).
    pub open spec fn block_lookup_at(&self, after: Self, ip: Seq<char>, now: u128, b: bool) -> bool {
        &&& after.same_settings(self)
        &&& !self.is_enabled() ==> !b && after.same_state(self)
        &&& self.is_enabled() ==> b == self.blocked(ip, now) && self.ban_lookup_at(after, ip, now, temp_banned(
            self.bans(),
            ip,
            now,
        ))
    }

    /// A request check of `ip` at `now` answers `b` and takes the limiter from
    /// `self` to `after` (see `check_at`).
    pub open spec fn request_check_at(&self, after: Self, ip: Seq<char>, now: u128, b: bool) -> bool {
        &&& !self.is_enabled() ==> b && after.same_state(self)
        &&& self.is_enabled() && self.white_list().contains(ip) ==> b && after.same_state(self)
        &&& self.is_enabled() && !self.white_list().contains(ip) ==> {
            let (bucket, ok) = self.request_attempt(ip, now);
            &&& b == ok
            &&& after.req_buckets() == self.swept_request_buckets(now).insert(ip, bucket)
            &&& after.last_sweep() == if self.sweep_due(now) {
                now
            } else {
                self.last_sweep()
            }
            &&& after.connection_buckets() == self.connection_buckets()
            &&& after.active() == self.active()
            &&& if ok {
                &&& after.violation_records() == self.violation_records()
                &&& after.bans() == self.bans()
            } else {
                &&& after.violation_records() == self.violation_records().insert(ip, self.next_violation(ip, now))
                &&& after.bans() == self.bans_after_violation(self.bans(), ip, now)
            }
        }
    }

    /// Whether `ip` is banned now (see `is_temp_banned_at`).
    pub fn is_temp_banned(&mut self, ip: &str) -> (b: bool)
        requires
            old(self).wf(),
        ensures
            final(self).wf(),
            final(self).same_settings(old(self)),
            exists|now: u128| #[trigger] old(self).ban_lookup_at(*final(self), ip@, now, b),
    {
        let now = nanos_since(&self.origin);
        let b = self.is_temp_banned_at(ip, now);
        assert(old(self).ban_lookup_at(*self, ip@, now, b));
        b
    }

    /// Whether `ip` is banned at `now`; a ban of `ip` that has run out is dropped.
    pub fn is_temp_banned_at(&mut self, ip: &str, now: u128) -> (b: bool)
        requires
            old(self).wf(),
        ensures
            final(self).wf(),
            final(self).same_settings(old(self)),
            b == temp_banned(old(self).bans(), ip@, now),
            final(self).bans() == bans_after_lookup(old(self).bans(), ip@, now),
            final(self).req_buckets() == old(self).req_buckets(),
            final(self).connection_buckets() == old(self).connection_buckets(),
            final(self).active() == old(self).active(),
            final(self).violation_records() == old(self).violation_records(),
            final(self).last_sweep() == old(self).last_sweep(),
    {
        match self.temp_bans.get(ip) {
            Some(until) => {
                if now < *until {
                    return true;
                }
                self.temp_bans.remove(ip);
                false
            },
            None => false,
        }
    }

    /// Whether `ip` is blocked now (see `is_blocked_at`).
    pub fn is_blocked(&mut self, ip: &str) -> (b: bool)
        requires
            old(self).wf(),
        ensures
            final(self).wf(),
            final(self).same_settings(old(self)),
            !old(self).is_enabled() ==> !b && final(self).same_state(old(self)),
            old(self).is_enabled() && listed(old(self).black_list(), ip@) ==> b,
            exists|now: u128| #[trigger] old(self).block_lookup_at(*final(self), ip@, now, b),
    {
        let now = nanos_since(&self.origin);
        let b = self.is_blocked_at(ip, now);
        assert(old(self).block_lookup_at(*self, ip@, now, b));
        b
    }

    /// Whether `ip` is blocked at `now`: never when the limiter is off; otherwise
    /// when it is banned or covered by the black list. A ban that has run out is
    /// dropped on the way.
    pub fn is_blocked_at(&mut self, ip: &str, now: u128) -> (b: bool)
        requires
            old(self).wf(),
        ensures
            final(self).wf(),
            final(self).same_settings(old(self)),
            !old(self).is_enabled() ==> !b && final(self).same_state(old(self)),
            old(self).is_enabled() ==> {
                &&& b == old(self).blocked(ip@, now)
                &&& final(self).bans() == bans_after_lookup(old(self).bans(), ip@, now)
                &&& final(self).req_buckets() == old(self).req_buckets()
                &&& final(self).connection_buckets() == old(self).connection_buckets()
                &&& final(self).active() == old(self).active()
                &&& final(self).violation_records() == old(self).violation_records()
                &&& final(self).last_sweep() == old(self).last_sweep()
            },
    {
        if !self.enabled {
            return false;
        }
        if self.is_temp_banned_at(ip, now) {
            return true;
        }
        if contains_text(&self.blacklist, ip) {
            proof {
                let i = choose|i: int| 0 <= i < self.black_list().len() && self.black_list()[i] == ip@;
                assert(entry_blocks(self.black_list()[i], ip@));
            }
            return true;
        }
        listed_exec(&self.blacklist, ip)
    }

    /// Records a violation by `ip` at `now`, and bans `ip` when its count reaches
    /// the threshold and bans last a positive time; returns whether it banned.
    fn record_violation_at(&mut self, ip: &str, now: u128) -> (banned: bool)
        requires
            old(self).wf(),
        ensures
            final(self).wf(),
            final(self).same_settings(old(self)),
            final(self).violation_records() == old(self).violation_records().insert(
                ip@,
                violation_after(lookup(old(self).violation_records(), ip@), now),
            ),
            banned == (violation_after(lookup(old(self).violation_records(), ip@), now).0
                >= old(self).threshold() && old(self).ban_seconds() > 0),
            final(self).bans() == if banned {
                old(self).bans().insert(ip@, ban_end(now, old(self).ban_seconds()))
            } else {
                old(self).bans()
            },
            final(self).req_buckets() == old(self).req_buckets(),
            final(self).connection_buckets() == old(self).connection_buckets(),
            final(self).active() == old(self).active(),
            final(self).last_sweep() == old(self).last_sweep(),
    {
        let entry: (u32, u128) = match self.violations.get(ip) {
            Some(e) => *e,
            None => (0, now),
        };
        let next: (u32, u128) = if elapsed_exec(now, entry.1) > VIOLATION_WINDOW {
            (1, now)
        } else if entry.0 == u32::MAX {
            entry
        } else {
            (entry.0 + 1, entry.1)
        };
        self.violations.insert(ip.to_owned(), next);
        if next.0 >= self.ban_threshold && self.ban_duration_secs > 0 {
            let until = ban_end_exec(now, self.ban_duration_secs);
            self.temp_bans.insert(ip.to_owned(), until);
            return true;
        }
        false
    }

    /// Drops the connection buckets not refilled for an hour or more.
    fn cleanup_old_at(&mut self, now: u128)
        requires
            old(self).wf(),
        ensures
            final(self).wf(),
            final(self).same_settings(old(self)),
            final(self).connection_buckets() == old(self).connection_buckets().restrict(
                Set::new(|k: Seq<char>| elapsed(now, old(self).connection_buckets()[k].last_refill) < CONN_BUCKET_IDLE),
            ),
            final(self).req_buckets() == old(self).req_buckets(),
            final(self).active() == old(self).active(),
            final(self).bans() == old(self).bans(),
            final(self).violation_records() == old(self).violation_records(),
            final(self).last_sweep() == old(self).last_sweep(),
    {
        let n = self.conn_buckets.len();
        let mut keep: Vec<bool> = Vec::new();
        let mut i: usize = 0;
        while i < n
            invariant
                n == self.conn_buckets.spec_len(),
                i <= n,
                keep@.len() == i,
                forall|j: int| 0 <= j < i ==> #[trigger] keep@[j] == (elapsed(
                    now,
                    self.conn_buckets.entry(j).1.last_refill,
                ) < CONN_BUCKET_IDLE),
            decreases n - i,
        {
            let (_, b) = self.conn_buckets.entry_at(i);
            keep.push(elapsed_exec(now, b.last_refill) < CONN_BUCKET_IDLE);
            i += 1;
        }
        let ghost before = self.conn_buckets;
        proof {
            before.lemma_entries();
        }
        self.conn_buckets.retain_mask(keep.as_slice());
        proof {
            let kept = Set::new(
                |k: Seq<char>|
                    exists|j: int|
                        0 <= j < keep@.len() && keep@[j] && #[trigger] before.entry(j).0 == k,
            );
            let fresh = Set::new(|k: Seq<char>| elapsed(now, before@[k].last_refill) < CONN_BUCKET_IDLE);
            assert(self.conn_buckets@ =~= before@.restrict(fresh)) by {
                assert forall|k: Seq<char>| #[trigger] before@.contains_key(k) implies (kept.contains(k)
                    == fresh.contains(k)) by {
                    let j = choose|j: int| 0 <= j < before.spec_len() && before.entry(j).0 == k;
                    assert(before@[before.entry(j).0] == before.entry(j).1);
                    if kept.contains(k) {
                        let j2 = choose|j2: int|
                            0 <= j2 < keep@.len() && keep@[j2] && #[trigger] before.entry(j2).0 == k;
                        if j2 != j {
                            if j2 < j {
                                assert(before.entry(j2).0 != before.entry(j).0);
                            } else {
                                assert(before.entry(j).0 != before.entry(j2).0);
                            }
                        }
                    }
                    if fresh.contains(k) {
                        assert(keep@[j]);
                    }
                }
            }
        }
    }

    /// The connection buckets left after a sweep at `now`.
    pub open spec fn swept_connection_buckets(&self, now: u128) -> Map<Seq<char>, TokenBucket> {
        self.connection_buckets().restrict(
            Set::new(|k: Seq<char>| elapsed(now, self.connection_buckets()[k].last_refill) < CONN_BUCKET_IDLE),
        )
    }

    /// The connection bucket of `ip` after a sweep at `now` (a full one if it has
    /// none), after the attempt to take a token, and whether that succeeded.
    pub open spec fn connection_attempt(&self, ip: Seq<char>, now: u128) -> (TokenBucket, bool) {
        let cb = self.swept_connection_buckets(now);
        consumed(
            if cb.contains_key(ip) {
                cb[ip]
            } else {
                new_bucket(self.connection_rate(), self.connection_rate(), now)
            },
            now,
        )
    }

    /// The violation record of `ip` after one more violation at `now`.
    pub open spec fn next_violation(&self, ip: Seq<char>, now: u128) -> (u32, u128) {
        violation_after(lookup(self.violation_records(), ip), now)
    }

    /// Whether one more violation by `ip` at `now` bans it.
    pub open spec fn violation_bans(&self, ip: Seq<char>, now: u128) -> bool {
        self.next_violation(ip, now).0 >= self.threshold() && self.ban_seconds() > 0
    }

    /// The bans `bans` after one more violation by `ip` at `now`.
    pub open spec fn bans_after_violation(&self, bans: Map<Seq<char>, u128>, ip: Seq<char>, now: u128) -> Map<Seq<char>, u128> {
        if self.violation_bans(ip, now) {
            bans.insert(ip, ban_end(now, self.ban_seconds()))
        } else {
            bans
        }
    }

    /// Whether a sweep of the request buckets is due at `now`.
    pub open spec fn sweep_due(&self, now: u128) -> bool {
        elapsed(now, self.last_sweep()) >= CLEANUP_INTERVAL
    }

    /// The request buckets after the sweep at `now`: all dropped when a sweep is due
    /// and there are more than `MAX_BUCKETS` of them.
    pub open spec fn swept_request_buckets(&self, now: u128) -> Map<Seq<char>, TokenBucket> {
        if self.sweep_due(now) && self.req_buckets().dom().len() > MAX_BUCKETS {
            Map::empty()
        } else {
            self.req_buckets()
        }
    }

    /// The request bucket of `ip` after the sweep at `now` (a full one with the
    /// limits of `ip` if it has none), after the attempt to take a token, and
    /// whether that succeeded.
    pub open spec fn request_attempt(&self, ip: Seq<char>, now: u128) -> (TokenBucket, bool) {
        let rb = self.swept_request_buckets(now);
        consumed(
            if rb.contains_key(ip) {
                rb[ip]
            } else {
                new_bucket(Some(self.limits_for(ip).1), self.limits_for(ip).0, now)
            },
            now,
        )
    }

    /// Tries to open a connection from `ip` now (see `try_connect_at`).
    pub fn try_connect(&mut self, ip: &str) -> (b: bool)
        requires
            old(self).wf(),
        ensures
            final(self).wf(),
            final(self).same_settings(old(self)),
            !old(self).is_enabled() ==> b && final(self).same_state(old(self)),
            old(self).is_enabled() && old(self).white_list().contains(ip@) ==> b && final(self).same_state(old(self)),
            old(self).is_enabled() && !old(self).white_list().contains(ip@) && listed(old(self).black_list(), ip@) ==> !b,
            exists|now: u128| #[trigger] old(self).connect_at(*final(self), ip@, now, b),
    {
        let now = nanos_since(&self.origin);
        let b = self.try_connect_at(ip, now);
        assert(old(self).connect_at(*self, ip@, now, b));
        b
    }

    /// Tries to open a connection from `ip` at `now`. Always allowed when the limiter
    /// is off or `ip` is on the white list; refused when `ip` is blocked. Otherwise
    /// the connection buckets are swept, the connection bucket of `ip` must give a
    /// token (else the refusal counts as a violation), and the open connections of
    /// `ip` must be under the limit; then they go up by one.
    pub fn try_connect_at(&mut self, ip: &str, now: u128) -> (b: bool)
        requires
            old(self).wf(),
        ensures
            final(self).wf(),
            final(self).same_settings(old(self)),
            !old(self).is_enabled() ==> b && final(self).same_state(old(self)),
            old(self).is_enabled() && old(self).white_list().contains(ip@) ==> b && final(self).same_state(old(self)),
            old(self).is_enabled() && !old(self).white_list().contains(ip@) && old(self).blocked(ip@, now) ==> {
                &&& !b
                &&& final(self).bans() == bans_after_lookup(old(self).bans(), ip@, now)
                &&& final(self).req_buckets() == old(self).req_buckets()
                &&& final(self).connection_buckets() == old(self).connection_buckets()
                &&& final(self).active() == old(self).active()
                &&& final(self).violation_records() == old(self).violation_records()
                &&& final(self).last_sweep() == old(self).last_sweep()
            },
            old(self).is_enabled() && !old(self).white_list().contains(ip@) && !old(self).blocked(ip@, now) ==> {
                let bans0 = bans_after_lookup(old(self).bans(), ip@, now);
                let (bucket, ok) = old(self).connection_attempt(ip@, now);
                &&& final(self).connection_buckets() == old(self).swept_connection_buckets(now).insert(ip@, bucket)
                &&& final(self).req_buckets() == old(self).req_buckets()
                &&& final(self).last_sweep() == old(self).last_sweep()
                &&& if !ok {
                    &&& !b
                    &&& final(self).violation_records() == old(self).violation_records().insert(ip@, old(self).next_violation(ip@, now))
                    &&& final(self).bans() == old(self).bans_after_violation(bans0, ip@, now)
                    &&& final(self).active() == old(self).active()
                } else if count_of(old(self).active(), ip@) >= old(self).max_connections() {
                    &&& !b
                    &&& final(self).violation_records() == old(self).violation_records()
                    &&& final(self).bans() == bans0
                    &&& final(self).active() == old(self).active()
                } else {
                    &&& b
                    &&& final(self).violation_records() == old(self).violation_records()
                    &&& final(self).bans() == bans0
                    &&& final(self).active() == after_connect(old(self).active(), ip@)
                }
            },
    {
        if !self.enabled {
            return true;
        }
        if self.is_whitelisted(ip) {
            return true;
        }
        if self.is_blocked_at(ip, now) {
            return false;
        }
        self.cleanup_old_at(now);
        let bucket = match self.conn_buckets.get(ip) {
            Some(b) => *b,
            None => make_bucket(self.conn_rps, self.conn_rps, now),
        };
        let (next, ok) = try_consume(bucket, now);
        self.conn_buckets.insert(ip.to_owned(), next);
        if !ok {
            self.record_violation_at(ip, now);
            return false;
        }
        let count: u32 = match self.active_connections.get(ip) {
            Some(c) => *c,
            None => 0,
        };
        if count >= self.max_concurrent_connections {
            return false;
        }
        self.active_connections.insert(ip.to_owned(), count + 1);
        true
    }

    /// Records that a connection of `ip` closed (nothing when the limiter is off).
    pub fn disconnect(&mut self, ip: &str)
        requires
            old(self).wf(),
        ensures
            final(self).wf(),
            final(self).same_settings(old(self)),
            !old(self).is_enabled() ==> final(self).same_state(old(self)),
            old(self).is_enabled() ==> final(self).active() == after_disconnect(old(self).active(), ip@),
            final(self).req_buckets() == old(self).req_buckets(),
            final(self).connection_buckets() == old(self).connection_buckets(),
            final(self).bans() == old(self).bans(),
            final(self).violation_records() == old(self).violation_records(),
            final(self).last_sweep() == old(self).last_sweep(),
    {
        if !self.enabled {
            return;
        }
        let count: Option<u32> = match self.active_connections.get(ip) {
            Some(c) => Some(*c),
            None => None,
        };
        match count {
            Some(c) => {
                if c > 1 {
                    self.active_connections.insert(ip.to_owned(), c - 1);
                } else {
                    self.active_connections.remove(ip);
                }
            },
            None => {},
        }
    }

    /// The open connections of `ip` (zero when the limiter is off).
    pub fn active_connections(&self, ip: &str) -> (n: u32)
        requires
            self.wf(),
        ensures
            n == if self.is_enabled() {
                count_of(self.active(), ip@)
            } else {
                0
            },
    {
        if !self.enabled {
            return 0;
        }
        match self.active_connections.get(ip) {
            Some(c) => *c,
            None => 0,
        }
    }

    /// Lets one request from `ip` through now, or not (see `check_at`).
    pub fn check(&mut self, ip: &str) -> (b: bool)
        requires
            old(self).wf(),
        ensures
            final(self).wf(),
            final(self).same_settings(old(self)),
            !old(self).is_enabled() ==> b && final(self).same_state(old(self)),
            old(self).is_enabled() && old(self).white_list().contains(ip@) ==> b && final(self).same_state(old(self)),
            exists|now: u128| #[trigger] old(self).request_check_at(*final(self), ip@, now, b),
    {
        let now = nanos_since(&self.origin);
        let b = self.check_at(ip, now);
        assert(old(self).request_check_at(*self, ip@, now, b));
        b
    }

    /// Lets one request from `ip` through at `now`, or not. Always allowed when the
    /// limiter is off or `ip` is on the white list. Otherwise, when a sweep is due,
    /// the request buckets are all dropped if there are more than `MAX_BUCKETS`, and
    /// the sweep time becomes `now`; then the request bucket of `ip` must give a
    /// token, and a refusal counts as a violation.
    pub fn check_at(&mut self, ip: &str, now: u128) -> (b: bool)
        requires
            old(self).wf(),
        ensures
            final(self).wf(),
            final(self).same_settings(old(self)),
            !old(self).is_enabled() ==> b && final(self).same_state(old(self)),
            old(self).is_enabled() && old(self).white_list().contains(ip@) ==> b && final(self).same_state(old(self)),
            old(self).is_enabled() && !old(self).white_list().contains(ip@) ==> {
                let (bucket, ok) = old(self).request_attempt(ip@, now);
                &&& b == ok
                &&& final(self).req_buckets() == old(self).swept_request_buckets(now).insert(ip@, bucket)
                &&& final(self).last_sweep() == if old(self).sweep_due(now) {
                    now
                } else {
                    old(self).last_sweep()
                }
                &&& final(self).connection_buckets() == old(self).connection_buckets()
                &&& final(self).active() == old(self).active()
                &&& if ok {
                    &&& final(self).violation_records() == old(self).violation_records()
                    &&& final(self).bans() == old(self).bans()
                } else {
                    &&& final(self).violation_records() == old(self).violation_records().insert(ip@, old(self).next_violation(ip@, now))
                    &&& final(self).bans() == old(self).bans_after_violation(old(self).bans(), ip@, now)
                }
            },
    {
        if !self.enabled {
            return true;
        }
        if self.is_whitelisted(ip) {
            return true;
        }
        let (rps, burst): (Option<u32>, u32) = match self.per_ip_rates.get(ip) {
            Some(c) => (Some(*c), *c),
            None => (self.default_rps, self.default_burst),
        };
        if elapsed_exec(now, self.last_cleanup) >= CLEANUP_INTERVAL {
            if self.buckets.len() > MAX_BUCKETS {
                self.buckets = StrMap::new();
            }
            self.last_cleanup = now;
        }
        let bucket = match self.buckets.get(ip) {
            Some(b) => *b,
            None => make_bucket(Some(burst), rps, now),
        };
        let (next, allowed) = try_consume(bucket, now);
        self.buckets.insert(ip.to_owned(), next);
        if !allowed {
            self.record_violation_at(ip, now);
        }
        allowed
    }

    /// Bans `ip` for `duration_seconds` from now (see `ban_ip_at`).
    pub fn ban_ip(&mut self, ip: &str, duration_seconds: u64) -> (b: bool)
        requires
            old(self).wf(),
        ensures
            final(self).wf(),
            final(self).same_settings(old(self)),
            b == (old(self).is_enabled() && duration_seconds > 0),
            b ==> final(self).bans().contains_key(ip@),
            !b ==> final(self).same_state(old(self)),
            exists|now: u128| #[trigger] old(self).ban_at(*final(self), ip@, duration_seconds, now, b),
    {
        let now = nanos_since(&self.origin);
        let b = self.ban_ip_at(ip, duration_seconds, now);
        assert(old(self).ban_at(*self, ip@, duration_seconds, now, b));
        b
    }

    /// Bans `ip` from `now` for `duration_seconds`; refuses (and changes nothing)
    /// when the limiter is off or the duration is zero.
    pub fn ban_ip_at(&mut self, ip: &str, duration_seconds: u64, now: u128) -> (b: bool)
        requires
            old(self).wf(),
        ensures
            final(self).wf(),
            final(self).same_settings(old(self)),
            b == (old(self).is_enabled() && duration_seconds > 0),
            b ==> final(self).bans() == old(self).bans().insert(ip@, ban_end(now, duration_seconds)),
            !b ==> final(self).bans() == old(self).bans(),
            final(self).req_buckets() == old(self).req_buckets(),
            final(self).connection_buckets() == old(self).connection_buckets(),
            final(self).active() == old(self).active(),
            final(self).violation_records() == old(self).violation_records(),
            final(self).last_sweep() == old(self).last_sweep(),
    {
        if !self.enabled {
            return false;
        }
        if duration_seconds > 0 {
            let until = ban_end_exec(now, duration_seconds);
            self.temp_bans.insert(ip.to_owned(), until);
            true
        } else {
            false
        }
    }

    /// Lifts the ban of `ip`; returns whether there was one (false when off).
    pub fn unban_ip(&mut self, ip: &str) -> (b: bool)
        requires
            old(self).wf(),
        ensures
            final(self).wf(),
            final(self).same_settings(old(self)),
            b == (old(self).is_enabled() && old(self).bans().contains_key(ip@)),
            final(self).bans() == if old(self).is_enabled() {
                old(self).bans().remove(ip@)
            } else {
                old(self).bans()
            },
            final(self).req_buckets() == old(self).req_buckets(),
            final(self).connection_buckets() == old(self).connection_buckets(),
            final(self).active() == old(self).active(),
            final(self).violation_records() == old(self).violation_records(),
            final(self).last_sweep() == old(self).last_sweep(),
    {
        if !self.enabled {
            return false;
        }
        let removed = self.temp_bans.remove(ip);
        removed.is_some()
    }

    /// The number of addresses with a ban on record (zero when off).
    pub fn banned_count(&self) -> (n: usize)
        requires
            self.wf(),
        ensures
            n == if self.is_enabled() {
                self.bans().dom().len()
            } else {
                0
            },
    {
        if !self.enabled {
            return 0;
        }
        self.temp_bans.len()
    }
}

/// Violations count within a window of 30 s from the first of them: a violation
/// more than 30 s after the start of the address's window starts a new window
/// with a count of one, and one within it adds one to the count (which stops at
/// its largest value). So an address is banned by violations only when
/// `threshold` of them fall in one window: with a threshold above one, a refusal
/// whose record has gone stale never bans, whatever the count before.
pub proof fn law_violations_expire_with_their_window(
    l: RateLimiter,
    ip: Seq<char>,
    count: u32,
    start: u128,
    now: u128,
)
    requires
        l.violation_records().contains_key(ip),
        l.violation_records()[ip] == (count, start),
    ensures
        now >= start && now - start > 30_000_000_000 ==> {
            &&& l.next_violation(ip, now) == (1u32, now)
            &&& l.threshold() > 1 ==> !l.violation_bans(ip, now)
        },
        now <= start + 30_000_000_000 && count < u32::MAX ==> l.next_violation(ip, now) == (
            (count + 1) as u32,
            start,
        ),
        l.next_violation(ip, now).0 > 1 ==> now <= start + 30_000_000_000
            && l.next_violation(ip, now).1 == start,
{
}

} // verus!
