//! The web management endpoint: its routes, its login sessions, how a request
//! names its session token, how a site is made from and changed by a request,
//! and the small readings it serves (log tails, processor counters).

use vstd::prelude::*;
use crate::config::{ServerConfig, AppConfig};
use crate::strmap::StrMap;
use crate::text::{
    chars_of, decimal_spec, parse_u64_chars, parse_u64_spec, push_decimal, push_str, seq_ends_with,
    seq_starts_with, split_chars, split_spec, starts_with, ends_with, str_eq, string_from_chars,
    sub_chars, trim_chars, trim_spec,
};

verus! {

/// How long a login lasts, in seconds (24 hours).
pub const SESSION_TTL: u64 = 86400;

/// The address of the management endpoint and whether it runs detached.
#[derive(Clone, Debug)]
pub struct ManageConfig {
    pub addr: String,
    pub daemon: bool,
}

// ───────────────────────── routes ─────────────────────────

/// What a request to the management endpoint asks for.
#[derive(Clone, Copy, Debug, PartialEq, Eq, Structural)]
pub enum ManageRoute {
    /// A CORS preflight.
    Preflight,
    /// The administration page.
    Page,
    Login,
    Logout,
    Status,
    SiteList,
    SiteCreate,
    /// Start the sites, for the site number in the path.
    SiteStart,
    SiteStop,
    SiteGet,
    SiteUpdate,
    SiteDelete,
    SiteLogs,
    ServerLogs,
    NotFound,
}

/// The number of `/` in a path.
pub open spec fn slash_count(s: Seq<char>) -> nat
    decreases s.len(),
{
    if s.len() == 0 {
        0
    } else {
        slash_count(s.drop_last()) + if s.last() == '/' {
            1nat
        } else {
            0nat
        }
    }
}

/// The route of a request, by its method and path, in the order the rules are
/// tried.
pub open spec fn route_spec(method: Seq<char>, path: Seq<char>) -> ManageRoute {
    let sites = starts_with(path, "/api/sites/"@);
    if method == "OPTIONS"@ {
        ManageRoute::Preflight
    } else if method == "GET"@ && (path == "/"@ || path == "/index.html"@ || path == "/admin.html"@) {
        ManageRoute::Page
    } else if method == "POST"@ && path == "/api/login"@ {
        ManageRoute::Login
    } else if method == "POST"@ && path == "/api/logout"@ {
        ManageRoute::Logout
    } else if method == "GET"@ && path == "/api/status"@ {
        ManageRoute::Status
    } else if method == "GET"@ && path == "/api/sites"@ {
        ManageRoute::SiteList
    } else if method == "POST"@ && path == "/api/sites"@ {
        ManageRoute::SiteCreate
    } else if method == "POST"@ && sites && ends_with(path, "/start"@) {
        ManageRoute::SiteStart
    } else if method == "POST"@ && sites && ends_with(path, "/stop"@) {
        ManageRoute::SiteStop
    } else if method == "GET"@ && sites && slash_count(path) == 3 && !ends_with(path, "/logs"@) {
        ManageRoute::SiteGet
    } else if method == "PUT"@ && sites && slash_count(path) == 3 {
        ManageRoute::SiteUpdate
    } else if method == "DELETE"@ && sites && slash_count(path) == 3 {
        ManageRoute::SiteDelete
    } else if method == "GET"@ && sites && ends_with(path, "/logs"@) {
        ManageRoute::SiteLogs
    } else if method == "GET"@ && path == "/api/logs"@ {
        ManageRoute::ServerLogs
    } else {
        ManageRoute::NotFound
    }
}

fn count_slashes(s: &[char]) -> (n: usize)
    ensures
        n == slash_count(s@),
{
    let mut n: usize = 0;
    let mut i: usize = 0;
    while i < s.len()
        invariant
            i <= s@.len(),
            n == slash_count(s@.take(i as int)),
            n <= i,
        decreases s@.len() - i,
    {
        assert(s@.take(i + 1).drop_last() =~= s@.take(i as int));
        if s[i] == '/' {
            n += 1;
        }
        i += 1;
    }
    assert(s@.take(s@.len() as int) =~= s@);
    n
}

/// The route of a request to the management endpoint.
pub fn route(method: &str, path: &str) -> (r: ManageRoute)
    ensures
        r == route_spec(method@, path@),
{
    let p = chars_of(path);
    let sites_prefix = chars_of("/api/sites/");
    let start_suffix = chars_of("/start");
    let stop_suffix = chars_of("/stop");
    let logs_suffix = chars_of("/logs");
    let sites = seq_starts_with(p.as_slice(), sites_prefix.as_slice());
    let get = str_eq(method, "GET");
    let post = str_eq(method, "POST");
    if str_eq(method, "OPTIONS") {
        ManageRoute::Preflight
    } else if get && (str_eq(path, "/") || str_eq(path, "/index.html") || str_eq(path, "/admin.html")) {
        ManageRoute::Page
    } else if post && str_eq(path, "/api/login") {
        ManageRoute::Login
    } else if post && str_eq(path, "/api/logout") {
        ManageRoute::Logout
    } else if get && str_eq(path, "/api/status") {
        ManageRoute::Status
    } else if get && str_eq(path, "/api/sites") {
        ManageRoute::SiteList
    } else if post && str_eq(path, "/api/sites") {
        ManageRoute::SiteCreate
    } else if post && sites && seq_ends_with(p.as_slice(), start_suffix.as_slice()) {
        ManageRoute::SiteStart
    } else if post && sites && seq_ends_with(p.as_slice(), stop_suffix.as_slice()) {
        ManageRoute::SiteStop
    } else if get && sites && count_slashes(p.as_slice()) == 3 && !seq_ends_with(p.as_slice(), logs_suffix.as_slice()) {
        ManageRoute::SiteGet
    } else if str_eq(method, "PUT") && sites && count_slashes(p.as_slice()) == 3 {
        ManageRoute::SiteUpdate
    } else if str_eq(method, "DELETE") && sites && count_slashes(p.as_slice()) == 3 {
        ManageRoute::SiteDelete
    } else if get && sites && seq_ends_with(p.as_slice(), logs_suffix.as_slice()) {
        ManageRoute::SiteLogs
    } else if get && str_eq(path, "/api/logs") {
        ManageRoute::ServerLogs
    } else {
        ManageRoute::NotFound
    }
}

/// Whether a route needs a logged-in session.
pub open spec fn needs_login_spec(r: ManageRoute) -> bool {
    match r {
        ManageRoute::Preflight | ManageRoute::Page | ManageRoute::Login | ManageRoute::Logout
        | ManageRoute::NotFound => false,
        _ => true,
    }
}

/// Whether a route needs a logged-in session.
pub fn needs_login(r: ManageRoute) -> (b: bool)
    ensures
        b == needs_login_spec(r),
{
    match r {
        ManageRoute::Preflight | ManageRoute::Page | ManageRoute::Login | ManageRoute::Logout
        | ManageRoute::NotFound => false,
        _ => true,
    }
}

// ───────────────────────── ids in paths ─────────────────────────

/// `s` without its leading copies of `p` (what `str::trim_start_matches(p)` gives;
/// nothing is removed for an empty `p`).
pub open spec fn trim_start_str(s: Seq<char>, p: Seq<char>) -> Seq<char>
    decreases s.len(),
{
    if p.len() > 0 && starts_with(s, p) {
        trim_start_str(s.skip(p.len() as int), p)
    } else {
        s
    }
}

/// `s` without its trailing copies of `p` (what `str::trim_end_matches(p)` gives).
pub open spec fn trim_end_str(s: Seq<char>, p: Seq<char>) -> Seq<char>
    decreases s.len(),
{
    if p.len() > 0 && ends_with(s, p) {
        trim_end_str(s.take(s.len() - p.len()), p)
    } else {
        s
    }
}

/// What `usize::from_str` gives.
pub open spec fn parse_usize_spec(s: Seq<char>) -> Option<usize> {
    match parse_u64_spec(s) {
        Some(v) => if v <= usize::MAX {
            Some(v as usize)
        } else {
            None
        },
        None => None,
    }
}

/// Parses a `usize`.
pub fn parse_usize(s: &[char]) -> (r: Option<usize>)
    ensures
        r == parse_usize_spec(s@),
{
    match parse_u64_chars(s) {
        Some(v) => if v <= usize::MAX as u64 {
            Some(v as usize)
        } else {
            None
        },
        None => None,
    }
}

fn trim_start_str_exec(s: &[char], p: &[char]) -> (r: Vec<char>)
    ensures
        r@ == trim_start_str(s@, p@),
{
    let n = s.len();
    let m = p.len();
    let mut lo: usize = 0;
    assert(s@.skip(0) =~= s@);
    if m == 0 {
        return sub_chars(s, 0, n);
    }
    while lo <= n && crate::text::matches_at(s, p, lo)
        invariant
            n == s@.len(),
            m == p@.len(),
            m > 0,
            lo <= n,
            trim_start_str(s@, p@) == trim_start_str(s@.skip(lo as int), p@),
        decreases n - lo,
    {
        assert(s@.skip(lo as int).take(m as int) =~= s@.subrange(lo as int, lo + m));
        assert(s@.skip(lo as int).skip(m as int) =~= s@.skip(lo + m));
        lo = lo + m;
    }
    proof {
        if lo + m <= n {
            assert(s@.skip(lo as int).take(m as int) =~= s@.subrange(lo as int, lo + m));
        }
    }
    let r = sub_chars(s, lo, n);
    assert(r@ =~= s@.skip(lo as int));
    r
}

fn trim_end_str_exec(s: &[char], p: &[char]) -> (r: Vec<char>)
    ensures
        r@ == trim_end_str(s@, p@),
{
    let m = p.len();
    let mut hi: usize = s.len();
    assert(s@.take(hi as int) =~= s@);
    if m == 0 {
        return sub_chars(s, 0, hi);
    }
    while hi >= m && crate::text::matches_at(s, p, hi - m)
        invariant
            hi <= s@.len(),
            m == p@.len(),
            m > 0,
            trim_end_str(s@, p@) == trim_end_str(s@.take(hi as int), p@),
        decreases hi,
    {
        assert(s@.take(hi as int).skip(hi - m) =~= s@.subrange(hi - m, hi as int));
        assert(s@.take(hi as int).take(hi - m) =~= s@.take(hi - m));
        hi = hi - m;
    }
    proof {
        if hi >= m {
            assert(s@.take(hi as int).skip(hi - m) =~= s@.subrange(hi - m, hi as int));
        }
    }
    sub_chars(s, 0, hi)
}

/// The number in a path such as `/api/sites/1/start`: the path without leading
/// copies of `prefix` and trailing copies of `suffix`, read as a number (0 when it
/// does not read as one).
pub fn extract_id_from_path(path: &str, prefix: &str, suffix: &str) -> (n: usize)
    ensures
        n == match parse_usize_spec(trim_end_str(trim_start_str(path@, prefix@), suffix@)) {
            Some(v) => v,
            None => 0,
        },
{
    let p = chars_of(path);
    let a = chars_of(prefix);
    let b = chars_of(suffix);
    let t = trim_start_str_exec(p.as_slice(), a.as_slice());
    let u = trim_end_str_exec(t.as_slice(), b.as_slice());
    match parse_usize(u.as_slice()) {
        Some(v) => v,
        None => 0,
    }
}

/// The text after `/api/sites/` in a path (all leading copies removed).
pub fn site_id_text(path: &str) -> (r: String)
    ensures
        r@ == trim_start_str(path@, "/api/sites/"@),
{
    let p = chars_of(path);
    let a = chars_of("/api/sites/");
    let t = trim_start_str_exec(p.as_slice(), a.as_slice());
    string_from_chars(t.as_slice())
}

/// The position in the site list of the site numbered `site_id` (numbers start
/// at 1), when there is such a site.
pub fn site_slot(site_id: usize, count: usize) -> (r: Option<usize>)
    ensures
        r == if site_id == 0 || site_id > count {
            None::<usize>
        } else {
            Some((site_id - 1) as usize)
        },
{
    if site_id == 0 || site_id > count {
        None
    } else {
        Some(site_id - 1)
    }
}

// ───────────────────────── session tokens ─────────────────────────

/// The session token a request carries: first a cookie part `manage_token=...`,
/// then an `Authorization: Bearer ...` header, then a `token=...` query parameter.
pub open spec fn token_spec(cookie: Option<Seq<char>>, authorization: Option<Seq<char>>, query: Option<Seq<char>>) -> Option<Seq<char>> {
    let from_cookie = match cookie {
        Some(c) => first_with_prefix(split_spec(c, ';').map_values(|p: Seq<char>| trim_spec(p)), "manage_token="@),
        None => None,
    };
    if from_cookie is Some {
        from_cookie
    } else if authorization matches Some(a) && starts_with(a, "Bearer "@) {
        Some(authorization->0.skip(7))
    } else {
        match query {
            Some(q) => first_with_prefix(split_spec(q, '&'), "token="@),
            None => None,
        }
    }
}

/// What follows `prefix` in the first part that starts with it.
pub open spec fn first_with_prefix(parts: Seq<Seq<char>>, prefix: Seq<char>) -> Option<Seq<char>>
    decreases parts.len(),
{
    if parts.len() == 0 {
        None
    } else if starts_with(parts[0], prefix) {
        Some(parts[0].skip(prefix.len() as int))
    } else {
        first_with_prefix(parts.drop_first(), prefix)
    }
}

fn first_with_prefix_exec(parts: &Vec<Vec<char>>, prefix: &[char], trim_parts: bool) -> (r: Option<String>)
    ensures
        match first_with_prefix(
            if trim_parts {
                parts@.map_values(|p: Vec<char>| trim_spec(p@))
            } else {
                parts@.map_values(|p: Vec<char>| p@)
            },
            prefix@,
        ) {
            Some(v) => r is Some && r->0@ == v,
            None => r is None,
        },
{
    let ghost all = if trim_parts {
        parts@.map_values(|p: Vec<char>| trim_spec(p@))
    } else {
        parts@.map_values(|p: Vec<char>| p@)
    };
    let n = parts.len();
    let mut i: usize = 0;
    assert(all.skip(0) =~= all);
    while i < n
        invariant
            n == parts@.len(),
            n == all.len(),
            i <= n,
            all == if trim_parts {
                parts@.map_values(|p: Vec<char>| trim_spec(p@))
            } else {
                parts@.map_values(|p: Vec<char>| p@)
            },
            first_with_prefix(all, prefix@) == first_with_prefix(all.skip(i as int), prefix@),
        decreases n - i,
    {
        let ghost rest = all.skip(i as int);
        assert(rest[0] == all[i as int]);
        assert(rest.drop_first() =~= all.skip(i + 1));
        let part: Vec<char> = if trim_parts {
            trim_chars(parts[i].as_slice())
        } else {
            sub_chars(parts[i].as_slice(), 0, parts[i].len())
        };
        assert(part@ =~= all[i as int]);
        if seq_starts_with(part.as_slice(), prefix) {
            let v = sub_chars(part.as_slice(), prefix.len(), part.len());
            assert(v@ =~= part@.skip(prefix@.len() as int));
            return Some(string_from_chars(v.as_slice()));
        }
        i += 1;
    }
    None
}

/// The session token a request carries.
pub fn extract_token(cookie: Option<&str>, authorization: Option<&str>, query: Option<&str>) -> (r: Option<String>)
    ensures
        match token_spec(
            crate::handler::opt_text(cookie),
            crate::handler::opt_text(authorization),
            crate::handler::opt_text(query),
        ) {
            Some(v) => r is Some && r->0@ == v,
            None => r is None,
        },
{
    let cookie_prefix = chars_of("manage_token=");
    let from_cookie: Option<String> = match cookie {
        Some(c) => {
            let v = chars_of(c);
            let parts = split_chars(v.as_slice(), ';');
            let ghost views = parts@.map_values(|p: Vec<char>| p@);
            assert(views =~= split_spec(c@, ';'));
            assert(parts@.map_values(|p: Vec<char>| trim_spec(p@)) =~= split_spec(c@, ';').map_values(|p: Seq<char>| trim_spec(p)));
            first_with_prefix_exec(&parts, cookie_prefix.as_slice(), true)
        },
        None => None,
    };
    if from_cookie.is_some() {
        return from_cookie;
    }
    match authorization {
        Some(a) => {
            let v = chars_of(a);
            let bearer = chars_of("Bearer ");
            proof {
                reveal_strlit("Bearer ");
            }
            if seq_starts_with(v.as_slice(), bearer.as_slice()) {
                let t = sub_chars(v.as_slice(), 7, v.len());
                assert(t@ =~= a@.skip(7));
                return Some(string_from_chars(t.as_slice()));
            }
        },
        None => {},
    }
    match query {
        Some(q) => {
            let v = chars_of(q);
            let parts = split_chars(v.as_slice(), '&');
            assert(parts@.map_values(|p: Vec<char>| p@) =~= split_spec(q@, '&'));
            let token_prefix = chars_of("token=");
            first_with_prefix_exec(&parts, token_prefix.as_slice(), false)
        },
        None => None,
    }
}

/// The logins of the management endpoint: by token, the user and the time (in
/// seconds) the login expires.
pub struct ManageSessions {
    sessions: StrMap<(String, u64)>,
}

impl ManageSessions {
    /// The logins by token: the user and the expiry.
    pub closed spec fn logins(&self) -> Map<Seq<char>, (String, u64)> {
        self.sessions@
    }

    pub closed spec fn wf(&self) -> bool {
        self.sessions.wf()
    }

    pub fn new() -> (r: ManageSessions)
        ensures
            r.wf(),
            r.logins() == Map::<Seq<char>, (String, u64)>::empty(),
    {
        ManageSessions { sessions: StrMap::new() }
    }

    /// Records a login with `token` for `username` at `now`; it lasts `SESSION_TTL`
    /// seconds (to the last second there is, at most).
    pub fn login(&mut self, token: String, username: String, now: u64)
        requires
            old(self).wf(),
        ensures
            final(self).wf(),
            final(self).logins() == old(self).logins().insert(token@, (username, if now + SESSION_TTL > u64::MAX {
                u64::MAX
            } else {
                (now + SESSION_TTL) as u64
            })),
    {
        let expires = now.saturating_add(SESSION_TTL);
        self.sessions.insert(token, (username, expires));
    }

    /// Ends the login with `token`, if there is one.
    pub fn logout(&mut self, token: Option<&str>)
        requires
            old(self).wf(),
        ensures
            final(self).wf(),
            final(self).logins() == match token {
                Some(t) => old(self).logins().remove(t@),
                None => old(self).logins(),
            },
    {
        match token {
            Some(t) => {
                self.sessions.remove(t);
            },
            None => {},
        }
    }

    /// Whether `token` names a login that is still valid at `now`; the logins that
    /// have expired are dropped on the way (whether or not a token is given).
    pub fn check_at(&mut self, token: Option<&str>, now: u64) -> (b: bool)
        requires
            old(self).wf(),
        ensures
            final(self).wf(),
            token is None ==> !b && final(self).logins() == old(self).logins(),
            token is Some ==> {
                &&& final(self).logins() == old(self).logins().restrict(
                    Set::new(|k: Seq<char>| old(self).logins()[k].1 > now),
                )
                &&& b == (old(self).logins().contains_key(token->0@) && old(self).logins()[token->0@].1 > now)
            },
    {
        let t = match token {
            Some(t) => t,
            None => return false,
        };
        let n = self.sessions.len();
        let mut keep: Vec<bool> = Vec::new();
        let mut i: usize = 0;
        while i < n
            invariant
                n == self.sessions.spec_len(),
                i <= n,
                keep@.len() == i,
                forall|j: int| 0 <= j < i ==> #[trigger] keep@[j] == (self.sessions.entry(j).1.1 > now),
            decreases n - i,
        {
            let (_, s) = self.sessions.entry_at(i);
            keep.push(s.1 > now);
            i += 1;
        }
        let ghost before = self.sessions;
        proof {
            before.lemma_entries();
        }
        self.sessions.retain_mask(keep.as_slice());
        proof {
            let kept = Set::new(
                |k: Seq<char>|
                    exists|j: int|
                        0 <= j < keep@.len() && keep@[j] && #[trigger] before.entry(j).0 == k,
            );
            let live = Set::new(|k: Seq<char>| before@[k].1 > now);
            assert(self.sessions@ =~= before@.restrict(live)) by {
                assert forall|k: Seq<char>| #[trigger] before@.contains_key(k) implies (kept.contains(k)
                    == live.contains(k)) by {
                    let j = choose|j: int| 0 <= j < before.spec_len() && before.entry(j).0 == k;
                    assert(before@[before.entry(j).0] == before.entry(j).1);
                    if kept.contains(k) {
                        let j2 = choose|j2: int|
                            0 <= j2 < keep@.len() && keep@[j2] && #[trigger] before.entry(j2).0 == k;
                        if j2 != j {
                            if j2 < j {
                                assert(before.entry(j2).0 != before.entry(j).0);
                            } else {
                                assert(before.entry(j).0 != before.entry(j2).0);
                            }
                        }
                    }
                    if live.contains(k) {
                        assert(keep@[j]);
                    }
                }
            }
        }
        match self.sessions.get(t) {
            Some(s) => s.1 > now,
            None => false,
        }
    }
}

/// A login is valid until it expires: checking a token right after logging in
/// with it succeeds while the expiry lies ahead, and fails after logging out.
pub proof fn law_login_then_check(logins: Map<Seq<char>, (String, u64)>, token: Seq<char>, user: String, expires: u64, now: u64)
    requires
        now < expires,
    ensures
        ({
            let after = logins.insert(token, (user, expires));
            after.contains_key(token) && after[token].1 > now
        }),
        !logins.insert(token, (user, expires)).remove(token).contains_key(token),
{
}

/// The cookie that hands out a login token.
pub fn login_cookie(token: &str) -> (r: String)
    ensures
        r@ == "manage_token="@ + token@ + "; HttpOnly; SameSite=Lax; Path=/; Max-Age="@ + decimal_spec(SESSION_TTL as nat),
{
    let mut out = String::new();
    push_str(&mut out, "manage_token=");
    push_str(&mut out, token);
    push_str(&mut out, "; HttpOnly; SameSite=Lax; Path=/; Max-Age=");
    push_decimal(&mut out, SESSION_TTL);
    out
}

// ───────────────────────── logs and counters ─────────────────────────

/// The last `max_lines` lines, joined with line feeds.
pub open spec fn tail_spec(lines: Seq<Seq<char>>, max_lines: nat) -> Seq<char> {
    let start = if lines.len() > max_lines {
        lines.len() - max_lines
    } else {
        0
    };
    crate::text::join_with(lines.skip(start), '\n')
}

/// The last `max_lines` lines of a log, joined with line feeds.
pub fn last_lines(lines: &[String], max_lines: usize) -> (r: String)
    ensures
        r@ == tail_spec(lines@.map_values(|s: String| s@), max_lines as nat),
{
    let total = lines.len();
    let start = if total > max_lines {
        total - max_lines
    } else {
        0
    };
    let ghost all = lines@.map_values(|s: String| s@);
    let ghost tail = all.skip(start as int);
    let mut out = String::new();
    let mut i: usize = start;
    assert(tail.take(0) =~= Seq::<Seq<char>>::empty());
    while i < total
        invariant
            total == lines@.len(),
            start <= i <= total,
            all == lines@.map_values(|s: String| s@),
            tail == all.skip(start as int),
            out@ == crate::text::join_with(tail.take(i - start), '\n'),
        decreases total - i,
    {
        let ghost before = tail.take(i - start);
        assert(tail.take(i - start + 1) =~= before.push(all[i as int]));
        if i > start {
            crate::text::push_char(&mut out, '\n');
        }
        push_str(&mut out, lines[i].as_str());
        proof {
            crate::text::lemma_join_push(before, all[i as int], '\n');
        }
        i += 1;
    }
    assert(tail.take(total - start) =~= tail);
    out
}

/// The first line of `/proc/stat` read as processor counters: it must be `cpu`
/// and at least four numbers (as words separated by white space); the numbers
/// that read are kept, and there must be at least four of them. The result is
/// their sum and the fourth (the idle time); `None` otherwise, also when the sum
/// does not fit in 64 bits.
pub open spec fn cpu_counters_spec(words: Seq<Seq<char>>) -> Option<(u64, u64)> {
    let values = words.skip(1).filter(|w: Seq<char>| parse_u64_spec(w) is Some).map_values(|w: Seq<char>| parse_u64_spec(w)->0);
    if words.len() < 5 || words[0] != "cpu"@ || values.len() < 4 || sum_of(values) > u64::MAX {
        None
    } else {
        Some((sum_of(values) as u64, values[3]))
    }
}

/// The sum of some numbers.
pub open spec fn sum_of(v: Seq<u64>) -> int
    decreases v.len(),
{
    if v.len() == 0 {
        0
    } else {
        sum_of(v.drop_last()) + v.last()
    }
}

/// The processor counters in the words of the first line of `/proc/stat`.
pub fn cpu_counters(words: &[String]) -> (r: Option<(u64, u64)>)
    ensures
        r == cpu_counters_spec(words@.map_values(|s: String| s@)),
{
    let ghost ws = words@.map_values(|s: String| s@);
    if words.len() < 5 || !str_eq(words[0].as_str(), "cpu") {
        return None;
    }
    let ghost keep = |w: Seq<char>| parse_u64_spec(w) is Some;
    let ghost val = |w: Seq<char>| parse_u64_spec(w)->0;
    let mut values: Vec<u64> = Vec::new();
    let mut sum: u64 = 0;
    let mut overflow = false;
    let n = words.len();
    let mut i: usize = 1;
    assert(ws.skip(1).take(0) =~= Seq::<Seq<char>>::empty());
    proof {
        reveal(Seq::filter);
    }
    while i < n
        invariant
            n == words@.len(),
            n >= 5,
            1 <= i <= n,
            ws == words@.map_values(|s: String| s@),
            keep == (|w: Seq<char>| parse_u64_spec(w) is Some),
            val == (|w: Seq<char>| parse_u64_spec(w)->0),
            values@ == ws.skip(1).take(i - 1).filter(keep).map_values(val),
            !overflow ==> sum == sum_of(values@),
            overflow ==> sum_of(values@) > u64::MAX,
        decreases n - i,
    {
        proof {
            reveal(Seq::filter);
        }
        let ghost before = values@;
        let ghost pre = ws.skip(1).take(i - 1);
        assert(ws.skip(1).take(i as int) =~= pre.push(ws[i as int]));
        let v = chars_of(words[i].as_str());
        assert(ws[i as int] == v@);
        proof {
            pre.lemma_filter_push(ws[i as int], keep);
        }
        match parse_u64_chars(v.as_slice()) {
            Some(x) => {
                values.push(x);
                assert(pre.push(ws[i as int]).filter(keep) == pre.filter(keep).push(ws[i as int]));
                assert(values@ =~= pre.push(ws[i as int]).filter(keep).map_values(val));
                assert(values@.drop_last() =~= before);
                if !overflow {
                    match sum.checked_add(x) {
                        Some(s2) => {
                            sum = s2;
                        },
                        None => {
                            overflow = true;
                        },
                    }
                } else {
                    assert(sum_of(values@) >= sum_of(before));
                }
            },
            None => {
                assert(pre.push(ws[i as int]).filter(keep) == pre.filter(keep));
            },
        }
        i += 1;
    }
    assert(ws.skip(1).take(n - 1) =~= ws.skip(1));
    if values.len() < 4 || overflow {
        return None;
    }
    Some((sum, values[3]))
}

/// How busy the processors were between two readings: the growth of the total
/// and of the busy part (total less idle), each not below zero; `None` when there
/// was no earlier reading or the total did not grow.
pub open spec fn cpu_busy_spec(prev_total: u64, prev_idle: u64, total: u64, idle: u64) -> Option<(u64, u64)> {
    let dtotal: u64 = if total > prev_total {
        (total - prev_total) as u64
    } else {
        0
    };
    let didle: u64 = if idle > prev_idle {
        (idle - prev_idle) as u64
    } else {
        0
    };
    if prev_total == 0 || prev_idle == 0 || dtotal == 0 {
        None
    } else {
        Some((if dtotal > didle {
            (dtotal - didle) as u64
        } else {
            0
        }, dtotal))
    }
}

/// The busy and total time between two readings of the processor counters.
pub fn cpu_busy(prev_total: u64, prev_idle: u64, total: u64, idle: u64) -> (r: Option<(u64, u64)>)
    ensures
        r == cpu_busy_spec(prev_total, prev_idle, total, idle),
{
    if prev_total == 0 || prev_idle == 0 {
        return None;
    }
    let dtotal = total.saturating_sub(prev_total);
    let didle = idle.saturating_sub(prev_idle);
    if dtotal == 0 {
        return None;
    }
    Some((dtotal.saturating_sub(didle), dtotal))
}

// ───────────────────────── sites ─────────────────────────

/// A request to make or change a site: the address and root, and each other
/// setting when it is given.
#[derive(Clone, Debug)]
pub struct SiteRequest {
    pub bind: String,
    pub root: String,
    pub domains: Option<Vec<String>>,
    pub workers: Option<usize>,
    pub upload_max_size: Option<String>,
    pub cache_enabled: Option<bool>,
    pub cache_ttl: Option<String>,
    pub cache_max_size: Option<String>,
    pub directory_listing: Option<bool>,
    pub access_log: Option<String>,
    pub log_rotate_size: Option<String>,
    pub ssl_cert: Option<String>,
    pub ssl_key: Option<String>,
    pub http3_port: Option<String>,
    pub cors_origin: Option<String>,
    pub cors_methods: Option<String>,
    pub cors_headers: Option<String>,
    pub allow_ip_access: Option<bool>,
    pub allow_delete: Option<bool>,
    pub allow_upload: Option<bool>,
    pub forbidden_dirs: Option<Vec<String>>,
    pub forbidden_files: Option<Vec<String>>,
}

/// The text given, or `d`.
pub open spec fn text_or(o: Option<String>, d: Seq<char>) -> Seq<char> {
    match o {
        Some(s) => s@,
        None => d,
    }
}

/// The list given, or none.
pub open spec fn list_or_empty(o: Option<Vec<String>>) -> Seq<String> {
    match o {
        Some(v) => v@,
        None => Seq::empty(),
    }
}

fn string_or(o: Option<String>, d: &str) -> (r: String)
    ensures
        r@ == text_or(o, d@),
{
    match o {
        Some(s) => s,
        None => d.to_owned(),
    }
}

fn list_or(o: Option<Vec<String>>) -> (r: Vec<String>)
    ensures
        r@ == list_or_empty(o),
{
    match o {
        Some(v) => v,
        None => Vec::new(),
    }
}

/// The new site that a request describes (before `finalize`): the given settings,
/// and for the others 10MB uploads, no workers count, one thread, no cache (1h,
/// 100MB), no listing, no rotation, the usual CORS methods and headers, no
/// HTTP/3, IP access allowed, and no deleting or uploading.
pub open spec fn requested_site(req: SiteRequest, c: ServerConfig) -> bool {
    &&& c.bind == req.bind
    &&& c.root == req.root
    &&& c.domains@ == list_or_empty(req.domains)
    &&& c.upload_max_size@ == text_or(req.upload_max_size, "10MB"@)
    &&& c.upload_max_size_bytes == 0
    &&& c.workers == match req.workers {
        Some(w) => w,
        None => 0,
    }
    &&& c.threads == 1
    &&& c.cache_enabled == match req.cache_enabled {
        Some(b) => b,
        None => false,
    }
    &&& c.cache_ttl@ == text_or(req.cache_ttl, "1h"@)
    &&& c.cache_ttl_seconds == 0
    &&& c.cache_max_size@ == text_or(req.cache_max_size, "100MB"@)
    &&& c.cache_max_size_bytes == 0
    &&& c.directory_listing == match req.directory_listing {
        Some(b) => b,
        None => false,
    }
    &&& c.access_log == req.access_log
    &&& c.log_rotate_size@ == text_or(req.log_rotate_size, "0"@)
    &&& c.log_rotate_size_bytes == 0
    &&& c.pid_file is None
    &&& c.rewrite@.len() == 0
    &&& c.cgi@.len() == 0
    &&& c.location@.len() == 0
    &&& c.cors_origin@ == text_or(req.cors_origin, Seq::empty())
    &&& c.cors_methods@ == text_or(req.cors_methods, "GET,POST,PUT,DELETE,PATCH,OPTIONS,HEAD"@)
    &&& c.cors_headers@ == text_or(req.cors_headers, "*"@)
    &&& c.cert == req.ssl_cert
    &&& c.key == req.ssl_key
    &&& c.http3_port@ == text_or(req.http3_port, "0"@)
    &&& c.rate_limit is None
    &&& c.blacklist@.len() == 0
    &&& c.per_ip_rates.wf()
    &&& c.per_ip_rates@ == Map::<Seq<char>, u32>::empty()
    &&& c.session is None
    &&& c.allow_ip_access == match req.allow_ip_access {
        Some(b) => b,
        None => true,
    }
    &&& c.forbidden_dirs@ == list_or_empty(req.forbidden_dirs)
    &&& c.forbidden_files@ == list_or_empty(req.forbidden_files)
    &&& c.allow_delete == match req.allow_delete {
        Some(b) => b,
        None => false,
    }
    &&& c.allow_upload == match req.allow_upload {
        Some(b) => b,
        None => false,
    }
}

/// The new site that a request describes, before `finalize`.
pub fn site_from_request(req: SiteRequest) -> (c: ServerConfig)
    ensures
        requested_site(req, c),
{
    let ghost r = req;
    let SiteRequest {
        bind,
        root,
        domains,
        workers,
        upload_max_size,
        cache_enabled,
        cache_ttl,
        cache_max_size,
        directory_listing,
        access_log,
        log_rotate_size,
        ssl_cert,
        ssl_key,
        http3_port,
        cors_origin,
        cors_methods,
        cors_headers,
        allow_ip_access,
        allow_delete,
        allow_upload,
        forbidden_dirs,
        forbidden_files,
    } = req;
    let c = ServerConfig {
        bind,
        root,
        domains: list_or(domains),
        upload_max_size: string_or(upload_max_size, "10MB"),
        upload_max_size_bytes: 0,
        workers: match workers {
            Some(w) => w,
            None => 0,
        },
        threads: 1,
        cache_enabled: match cache_enabled {
            Some(b) => b,
            None => false,
        },
        cache_ttl: string_or(cache_ttl, "1h"),
        cache_ttl_seconds: 0,
        cache_max_size: string_or(cache_max_size, "100MB"),
        cache_max_size_bytes: 0,
        directory_listing: match directory_listing {
            Some(b) => b,
            None => false,
        },
        access_log,
        log_rotate_size: string_or(log_rotate_size, "0"),
        log_rotate_size_bytes: 0,
        pid_file: None,
        rewrite: Vec::new(),
        cgi: Vec::new(),
        location: Vec::new(),
        cors_origin: string_or(cors_origin, ""),
        cors_methods: string_or(cors_methods, "GET,POST,PUT,DELETE,PATCH,OPTIONS,HEAD"),
        cors_headers: string_or(cors_headers, "*"),
        cert: ssl_cert,
        key: ssl_key,
        http3_port: string_or(http3_port, "0"),
        rate_limit: None,
        blacklist: Vec::new(),
        per_ip_rates: StrMap::new(),
        session: None,
        allow_ip_access: match allow_ip_access {
            Some(b) => b,
            None => true,
        },
        forbidden_dirs: list_or(forbidden_dirs),
        forbidden_files: list_or(forbidden_files),
        allow_delete: match allow_delete {
            Some(b) => b,
            None => false,
        },
        allow_upload: match allow_upload {
            Some(b) => b,
            None => false,
        },
    };
    proof {
        reveal_strlit("");
    }
    assert(c.cors_origin@ == text_or(r.cors_origin, Seq::empty()));
    c
}

/// A given text, with an empty one standing for `d`.
pub open spec fn text_or_blank(s: Seq<char>, d: Seq<char>) -> Seq<char> {
    if s.len() == 0 {
        d
    } else {
        s
    }
}

/// The site after a change request (before `finalize`): the address and root
/// always change; each other setting changes when it is given, an empty text
/// standing for that setting's default (or for no log, certificate or key).
pub open spec fn updated_site(old: ServerConfig, req: SiteRequest, c: ServerConfig) -> bool {
    &&& c.bind == req.bind
    &&& c.root == req.root
    &&& c.domains == match req.domains {
        Some(d) => d,
        None => old.domains,
    }
    &&& c.workers == match req.workers {
        Some(w) => w,
        None => old.workers,
    }
    &&& c.upload_max_size@ == match req.upload_max_size {
        Some(s) => text_or_blank(s@, "10MB"@),
        None => old.upload_max_size@,
    }
    &&& c.cache_enabled == match req.cache_enabled {
        Some(b) => b,
        None => old.cache_enabled,
    }
    &&& c.cache_ttl@ == match req.cache_ttl {
        Some(s) => text_or_blank(s@, "1h"@),
        None => old.cache_ttl@,
    }
    &&& c.cache_max_size@ == match req.cache_max_size {
        Some(s) => text_or_blank(s@, "100MB"@),
        None => old.cache_max_size@,
    }
    &&& c.directory_listing == match req.directory_listing {
        Some(b) => b,
        None => old.directory_listing,
    }
    &&& c.access_log == match req.access_log {
        Some(s) => if s@.len() == 0 {
            None
        } else {
            Some(s)
        },
        None => old.access_log,
    }
    &&& c.log_rotate_size@ == match req.log_rotate_size {
        Some(s) => text_or_blank(s@, "0"@),
        None => old.log_rotate_size@,
    }
    &&& c.http3_port@ == match req.http3_port {
        Some(s) => text_or_blank(s@, "0"@),
        None => old.http3_port@,
    }
    &&& c.cors_origin == match req.cors_origin {
        Some(s) => s,
        None => old.cors_origin,
    }
    &&& c.cors_methods@ == match req.cors_methods {
        Some(s) => text_or_blank(s@, "GET,POST,PUT,DELETE,PATCH,OPTIONS,HEAD"@),
        None => old.cors_methods@,
    }
    &&& c.cors_headers@ == match req.cors_headers {
        Some(s) => text_or_blank(s@, "*"@),
        None => old.cors_headers@,
    }
    &&& c.cert == match req.ssl_cert {
        Some(s) => if s@.len() == 0 {
            None
        } else {
            Some(s)
        },
        None => old.cert,
    }
    &&& c.key == match req.ssl_key {
        Some(s) => if s@.len() == 0 {
            None
        } else {
            Some(s)
        },
        None => old.key,
    }
    &&& c.allow_ip_access == match req.allow_ip_access {
        Some(b) => b,
        None => old.allow_ip_access,
    }
    &&& c.allow_delete == match req.allow_delete {
        Some(b) => b,
        None => old.allow_delete,
    }
    &&& c.allow_upload == match req.allow_upload {
        Some(b) => b,
        None => old.allow_upload,
    }
    &&& c.forbidden_dirs == match req.forbidden_dirs {
        Some(d) => d,
        None => old.forbidden_dirs,
    }
    &&& c.forbidden_files == match req.forbidden_files {
        Some(d) => d,
        None => old.forbidden_files,
    }
    &&& c.upload_max_size_bytes == old.upload_max_size_bytes
    &&& c.threads == old.threads
    &&& c.cache_ttl_seconds == old.cache_ttl_seconds
    &&& c.cache_max_size_bytes == old.cache_max_size_bytes
    &&& c.log_rotate_size_bytes == old.log_rotate_size_bytes
    &&& c.pid_file == old.pid_file
    &&& c.rewrite == old.rewrite
    &&& c.cgi == old.cgi
    &&& c.location == old.location
    &&& c.rate_limit == old.rate_limit
    &&& c.blacklist == old.blacklist
    &&& c.per_ip_rates == old.per_ip_rates
    &&& c.session == old.session
}

fn blank_or(s: String, d: &str) -> (r: String)
    ensures
        r@ == text_or_blank(s@, d@),
{
    let v = chars_of(s.as_str());
    if v.len() == 0 {
        d.to_owned()
    } else {
        s
    }
}

fn none_if_blank(s: String) -> (r: Option<String>)
    ensures
        r == if s@.len() == 0 {
            None
        } else {
            Some(s)
        },
{
    let v = chars_of(s.as_str());
    if v.len() == 0 {
        None
    } else {
        Some(s)
    }
}

fn set_list(field: &mut Vec<String>, given: Option<Vec<String>>)
    ensures
        *final(field) == match given {
            Some(d) => d,
            None => *old(field),
        },
{
    if let Some(d) = given {
        *field = d;
    }
}

fn set_count(field: &mut usize, given: Option<usize>)
    ensures
        *final(field) == match given {
            Some(d) => d,
            None => *old(field),
        },
{
    if let Some(d) = given {
        *field = d;
    }
}

fn set_flag(field: &mut bool, given: Option<bool>)
    ensures
        *final(field) == match given {
            Some(d) => d,
            None => *old(field),
        },
{
    if let Some(d) = given {
        *field = d;
    }
}

fn set_text(field: &mut String, given: Option<String>)
    ensures
        *final(field) == match given {
            Some(d) => d,
            None => *old(field),
        },
{
    if let Some(d) = given {
        *field = d;
    }
}

fn set_text_blank(field: &mut String, given: Option<String>, d: &str)
    ensures
        final(field)@ == match given {
            Some(s) => text_or_blank(s@, d@),
            None => old(field)@,
        },
{
    if let Some(s) = given {
        *field = blank_or(s, d);
    }
}

fn set_optional(field: &mut Option<String>, given: Option<String>)
    ensures
        *final(field) == match given {
            Some(s) => if s@.len() == 0 {
                None
            } else {
                Some(s)
            },
            None => *old(field),
        },
{
    if let Some(s) = given {
        *field = none_if_blank(s);
    }
}

/// Applies a change request to a site (before `finalize`).
pub fn apply_site_update(srv: &mut ServerConfig, req: SiteRequest)
    ensures
        updated_site(*old(srv), req, *final(srv)),
{
    let SiteRequest {
        bind,
        root,
        domains,
        workers,
        upload_max_size,
        cache_enabled,
        cache_ttl,
        cache_max_size,
        directory_listing,
        access_log,
        log_rotate_size,
        ssl_cert,
        ssl_key,
        http3_port,
        cors_origin,
        cors_methods,
        cors_headers,
        allow_ip_access,
        allow_delete,
        allow_upload,
        forbidden_dirs,
        forbidden_files,
    } = req;
    srv.bind = bind;
    srv.root = root;
    set_list(&mut srv.domains, domains);
    set_count(&mut srv.workers, workers);
    set_text_blank(&mut srv.upload_max_size, upload_max_size, "10MB");
    set_flag(&mut srv.cache_enabled, cache_enabled);
    set_text_blank(&mut srv.cache_ttl, cache_ttl, "1h");
    set_text_blank(&mut srv.cache_max_size, cache_max_size, "100MB");
    set_flag(&mut srv.directory_listing, directory_listing);
    set_optional(&mut srv.access_log, access_log);
    set_text_blank(&mut srv.log_rotate_size, log_rotate_size, "0");
    set_text_blank(&mut srv.http3_port, http3_port, "0");
    set_text(&mut srv.cors_origin, cors_origin);
    set_text_blank(&mut srv.cors_methods, cors_methods, "GET,POST,PUT,DELETE,PATCH,OPTIONS,HEAD");
    set_text_blank(&mut srv.cors_headers, cors_headers, "*");
    set_optional(&mut srv.cert, ssl_cert);
    set_optional(&mut srv.key, ssl_key);
    set_flag(&mut srv.allow_ip_access, allow_ip_access);
    set_flag(&mut srv.allow_delete, allow_delete);
    set_flag(&mut srv.allow_upload, allow_upload);
    set_list(&mut srv.forbidden_dirs, forbidden_dirs);
    set_list(&mut srv.forbidden_files, forbidden_files);
}

/// What the site list shows of a site.
#[derive(Clone, Debug)]
pub struct SiteInfo {
    pub id: usize,
    pub bind: String,
    pub root: String,
    pub domains: Vec<String>,
    pub workers: usize,
    pub upload_max_size: String,
    pub cache_enabled: bool,
    pub cache_ttl: String,
    pub cache_max_size: String,
    pub directory_listing: bool,
    pub access_log: Option<String>,
    pub log_rotate_size: String,
    pub ssl_enabled: bool,
    pub cert: Option<String>,
    pub key: Option<String>,
    pub http3_port: String,
    pub cors_origin: String,
    pub cors_methods: String,
    pub cors_headers: String,
    pub allow_ip_access: bool,
    pub allow_delete: bool,
    pub allow_upload: bool,
    pub forbidden_dirs: Vec<String>,
    pub forbidden_files: Vec<String>,
    pub status: String,
}

fn copy_texts(v: &Vec<String>) -> (r: Vec<String>)
    ensures
        r@ == v@,
{
    let mut out: Vec<String> = Vec::new();
    let mut i: usize = 0;
    while i < v.len()
        invariant
            i <= v@.len(),
            out@ == v@.take(i as int),
        decreases v@.len() - i,
    {
        out.push(v[i].clone());
        i += 1;
        assert(out@ =~= v@.take(i as int));
    }
    assert(v@.take(v@.len() as int) =~= v@);
    out
}

fn copy_opt(o: &Option<String>) -> (r: Option<String>)
    ensures
        r == *o,
{
    match o {
        Some(s) => Some(s.clone()),
        None => None,
    }
}

/// The entry of the site list for site number `id`: its settings as they are,
/// TLS shown as on when both a certificate and a key are set, and the status
/// `running` or `stopped`.
pub fn site_info(id: usize, s: &ServerConfig, running: bool) -> (r: SiteInfo)
    ensures
        r.id == id,
        r.bind == s.bind,
        r.root == s.root,
        r.domains@ == s.domains@,
        r.workers == s.workers,
        r.upload_max_size == s.upload_max_size,
        r.cache_enabled == s.cache_enabled,
        r.cache_ttl == s.cache_ttl,
        r.cache_max_size == s.cache_max_size,
        r.directory_listing == s.directory_listing,
        r.access_log == s.access_log,
        r.log_rotate_size == s.log_rotate_size,
        r.ssl_enabled == (s.cert is Some && s.key is Some),
        r.cert == s.cert,
        r.key == s.key,
        r.http3_port == s.http3_port,
        r.cors_origin == s.cors_origin,
        r.cors_methods == s.cors_methods,
        r.cors_headers == s.cors_headers,
        r.allow_ip_access == s.allow_ip_access,
        r.allow_delete == s.allow_delete,
        r.allow_upload == s.allow_upload,
        r.forbidden_dirs@ == s.forbidden_dirs@,
        r.forbidden_files@ == s.forbidden_files@,
        r.status@ == if running {
            "running"@
        } else {
            "stopped"@
        },
{
    SiteInfo {
        id,
        bind: s.bind.clone(),
        root: s.root.clone(),
        domains: copy_texts(&s.domains),
        workers: s.workers,
        upload_max_size: s.upload_max_size.clone(),
        cache_enabled: s.cache_enabled,
        cache_ttl: s.cache_ttl.clone(),
        cache_max_size: s.cache_max_size.clone(),
        directory_listing: s.directory_listing,
        access_log: copy_opt(&s.access_log),
        log_rotate_size: s.log_rotate_size.clone(),
        ssl_enabled: s.cert.is_some() && s.key.is_some(),
        cert: copy_opt(&s.cert),
        key: copy_opt(&s.key),
        http3_port: s.http3_port.clone(),
        cors_origin: s.cors_origin.clone(),
        cors_methods: s.cors_methods.clone(),
        cors_headers: s.cors_headers.clone(),
        allow_ip_access: s.allow_ip_access,
        allow_delete: s.allow_delete,
        allow_upload: s.allow_upload,
        forbidden_dirs: copy_texts(&s.forbidden_dirs),
        forbidden_files: copy_texts(&s.forbidden_files),
        status: if running {
            "running".to_owned()
        } else {
            "stopped".to_owned()
        },
    }
}

/// The site list of a configuration: one entry per site, numbered from 1.
pub fn site_list(cfg: &AppConfig, running: bool) -> (r: Vec<SiteInfo>)
    requires
        cfg.server@.len() < usize::MAX,
    ensures
        r@.len() == cfg.server@.len(),
        forall|i: int| 0 <= i < r@.len() ==> #[trigger] r@[i].id == i + 1 && r@[i].bind == cfg.server@[i].bind
            && r@[i].root == cfg.server@[i].root,
{
    let mut out: Vec<SiteInfo> = Vec::new();
    let n = cfg.server.len();
    let mut i: usize = 0;
    while i < n
        invariant
            n == cfg.server@.len(),
            n < usize::MAX,
            i <= n,
            out@.len() == i,
            forall|j: int| 0 <= j < i ==> #[trigger] out@[j].id == j + 1 && out@[j].bind == cfg.server@[j].bind
                && out@[j].root == cfg.server@[j].root,
        decreases n - i,
    {
        out.push(site_info(i + 1, &cfg.server[i], running));
        i += 1;
    }
    out
}

/// A new login token: 32 random bytes in URL-safe Base64 without padding.
pub fn generate_session_token() -> (t: String)
    ensures
        exists|b: Seq<u8>| b.len() == 32 && t@ == crate::auth::base64url_of(b),
{
    let bytes = crate::clock::random_bytes(32);
    crate::auth::encode_base64_url(bytes.as_slice())
}

} // verus!
