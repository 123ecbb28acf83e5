//! The decisions a request goes through: which methods and sizes are refused,
//! whether the host may be served, which path a rewrite leaves, which location
//! rule applies, what is forbidden, what CORS answers, and how the output of a
//! CGI script is read. Sending and receiving stay with the caller, which hands
//! these functions plain values.

use vstd::prelude::*;
use std::io::Write;
use crate::config::{CgiConfig, LocationConfig};
use crate::paths::{path_extension, path_extension_of, path_strip_prefix, path_strip_prefix_of};
use crate::text::{last_index_of, lemma_last_index_bounds};
use crate::text::{
    chars_of, contains_seq, decimal_spec, ends_with, hex_spec, lowercase_of, parse_u64_chars,
    parse_u64_spec, push_char, push_chars, push_decimal, push_hex, push_signed_decimal, push_str,
    seq_contains, seq_ends_with, seq_starts_with, signed_decimal_spec, split_chars, split_spec,
    starts_with, str_eq, string_from_chars, sub_chars, to_lowercase, trim_chars, trim_end_char,
    trim_end_char_spec, trim_spec, trim_start_char, trim_start_char_spec,
};

verus! {

// ───────────────────────── forbidden paths ─────────────────────────

/// The directory that a forbidden-directory rule names: the rule without its
/// trailing `*`s, then without its trailing `/`s.
pub open spec fn rule_dir(rule: Seq<char>) -> Seq<char> {
    trim_end_char_spec(trim_end_char_spec(rule, '*'), '/')
}

/// Whether a forbidden-directory rule covers `path`: its directory is not empty,
/// and `path` is that directory or lies under it.
pub open spec fn dir_rule_blocks(rule: Seq<char>, path: Seq<char>) -> bool {
    let d = rule_dir(rule);
    d.len() > 0 && (path == d || starts_with(path, d.push('/')))
}

/// Whether a forbidden-file rule covers `path`: the rule starts with `*` and
/// `path` ends with the rest of it.
pub open spec fn file_rule_blocks(rule: Seq<char>, path: Seq<char>) -> bool {
    rule.len() > 0 && rule[0] == '*' && ends_with(path, rule.drop_first())
}

/// The view of a list of strings.
pub open spec fn texts(v: Seq<String>) -> Seq<Seq<char>> {
    v.map_values(|s: String| s@)
}

/// Whether some directory rule or some file rule covers `path`.
pub open spec fn path_forbidden(path: Seq<char>, dirs: Seq<Seq<char>>, files: Seq<Seq<char>>) -> bool {
    (exists|i: int| 0 <= i < dirs.len() && dir_rule_blocks(#[trigger] dirs[i], path)) || (exists|
        i: int,
    | 0 <= i < files.len() && file_rule_blocks(#[trigger] files[i], path))
}

fn dir_rule_blocks_exec(rule: &str, path: &[char]) -> (b: bool)
    ensures
        b == dir_rule_blocks(rule@, path@),
{
    let r = chars_of(rule);
    let no_stars = trim_end_char(r.as_slice(), '*');
    let d = trim_end_char(no_stars.as_slice(), '/');
    if d.len() == 0 {
        return false;
    }
    let same = d.len() == path.len() && seq_starts_with(path, d.as_slice());
    proof {
        if d@.len() == path@.len() && starts_with(path@, d@) {
            assert(path@.take(d@.len() as int) =~= path@);
        }
        if path@ == d@ {
            assert(path@.take(d@.len() as int) =~= d@);
        }
    }
    if same {
        return true;
    }
    let mut under = d;
    under.push('/');
    seq_starts_with(path, under.as_slice())
}

fn file_rule_blocks_exec(rule: &str, path: &[char]) -> (b: bool)
    ensures
        b == file_rule_blocks(rule@, path@),
{
    let r = chars_of(rule);
    if r.len() == 0 || r[0] != '*' {
        return false;
    }
    let rest = sub_chars(r.as_slice(), 1, r.len());
    assert(rest@ =~= r@.drop_first());
    seq_ends_with(path, rest.as_slice())
}

/// Whether `path` is covered by a forbidden-directory rule (such as `/runtime/*`:
/// the directory and everything under it) or a forbidden-file rule (such as
/// `*.toml`: every path ending in `.toml`).
pub fn is_path_forbidden(path: &str, forbidden_dirs: &[String], forbidden_files: &[String]) -> (b:
    bool)
    ensures
        b == path_forbidden(path@, texts(forbidden_dirs@), texts(forbidden_files@)),
{
    let p = chars_of(path);
    let n = forbidden_dirs.len();
    let mut i: usize = 0;
    while i < n
        invariant
            n == forbidden_dirs@.len(),
            i <= n,
            p@ == path@,
            forall|j: int| 0 <= j < i ==> !dir_rule_blocks(#[trigger] texts(forbidden_dirs@)[j], path@),
        decreases n - i,
    {
        assert(texts(forbidden_dirs@)[i as int] == forbidden_dirs@[i as int]@);
        if dir_rule_blocks_exec(forbidden_dirs[i].as_str(), p.as_slice()) {
            return true;
        }
        i += 1;
    }
    let m = forbidden_files.len();
    let mut j: usize = 0;
    while j < m
        invariant
            m == forbidden_files@.len(),
            j <= m,
            p@ == path@,
            forall|k: int| 0 <= k < j ==> !file_rule_blocks(#[trigger] texts(forbidden_files@)[k], path@),
        decreases m - j,
    {
        assert(texts(forbidden_files@)[j as int] == forbidden_files@[j as int]@);
        if file_rule_blocks_exec(forbidden_files[j].as_str(), p.as_slice()) {
            return true;
        }
        j += 1;
    }
    false
}

/// A path is forbidden exactly when one rule covers it: adding rules never lifts
/// a ban, and a path covered by a rule stays forbidden whatever else is listed.
pub proof fn law_forbidden_monotone(
    path: Seq<char>,
    dirs: Seq<Seq<char>>,
    files: Seq<Seq<char>>,
    more_dirs: Seq<Seq<char>>,
    more_files: Seq<Seq<char>>,
)
    requires
        path_forbidden(path, dirs, files),
    ensures
        path_forbidden(path, dirs + more_dirs, files + more_files),
{
    if exists|i: int| 0 <= i < dirs.len() && dir_rule_blocks(#[trigger] dirs[i], path) {
        let i = choose|i: int| 0 <= i < dirs.len() && dir_rule_blocks(#[trigger] dirs[i], path);
        assert((dirs + more_dirs)[i] == dirs[i]);
    } else {
        let i = choose|i: int| 0 <= i < files.len() && file_rule_blocks(#[trigger] files[i], path);
        assert((files + more_files)[i] == files[i]);
    }
}

// ───────────────────────── expiry of cached responses ─────────────────────────

/// The number and the unit, in seconds, of an expiry written in lower case: a
/// trailing `d`, `h` or `m` gives days, hours or minutes; otherwise trailing `s`s
/// are dropped and the unit is the second. Trailing unit letters are all dropped.
pub open spec fn expires_parts(t: Seq<char>) -> (Seq<char>, nat) {
    if t.len() > 0 && t.last() == 'd' {
        (trim_end_char_spec(t, 'd'), 86400)
    } else if t.len() > 0 && t.last() == 'h' {
        (trim_end_char_spec(t, 'h'), 3600)
    } else if t.len() > 0 && t.last() == 'm' {
        (trim_end_char_spec(t, 'm'), 60)
    } else {
        (trim_end_char_spec(t, 's'), 1)
    }
}

/// The number of seconds an expiry in lower case stands for: the number times the
/// unit, a number that does not parse counting as zero.
pub open spec fn expires_seconds(t: Seq<char>) -> int {
    let (num, unit) = expires_parts(t);
    let n: int = match parse_u64_spec(num) {
        Some(v) => v as int,
        None => 0,
    };
    n * unit
}

/// The seconds of an expiry already trimmed and in lower case.
pub fn parse_expires_lower(t: &str) -> (r: u64)
    requires
        expires_seconds(t@) <= u64::MAX,
    ensures
        r == expires_seconds(t@),
{
    let v = chars_of(t);
    let n = v.len();
    let (letter, unit): (char, u64) = if n > 0 && v[n - 1] == 'd' {
        ('d', 86400)
    } else if n > 0 && v[n - 1] == 'h' {
        ('h', 3600)
    } else if n > 0 && v[n - 1] == 'm' {
        ('m', 60)
    } else {
        ('s', 1)
    };
    assert(n > 0 ==> v@.last() == v@[n - 1]);
    let num = trim_end_char(v.as_slice(), letter);
    assert(num@ == expires_parts(t@).0 && unit == expires_parts(t@).1);
    let value: u64 = match parse_u64_chars(num.as_slice()) {
        Some(x) => x,
        None => 0,
    };
    assert(value * unit <= u64::MAX);
    value * unit
}

/// The seconds of an expiry such as `7d`, `12h`, `30m` or `45s` (trimmed and read
/// without regard to case), or `None` when that number of seconds does not fit in
/// 64 bits.
pub fn parse_expires(expires: &str) -> (r: Option<u64>)
    ensures
        match r {
            Some(v) => v == expires_seconds(lowercase_of(trim_spec(expires@))),
            None => expires_seconds(lowercase_of(trim_spec(expires@))) > u64::MAX,
        },
{
    let v = chars_of(expires);
    let t = trim_chars(v.as_slice());
    let ts = string_from_chars(t.as_slice());
    let lower = to_lowercase(ts.as_str());
    let lv = chars_of(lower.as_str());
    let n = lv.len();
    let (letter, unit): (char, u64) = if n > 0 && lv[n - 1] == 'd' {
        ('d', 86400)
    } else if n > 0 && lv[n - 1] == 'h' {
        ('h', 3600)
    } else if n > 0 && lv[n - 1] == 'm' {
        ('m', 60)
    } else {
        ('s', 1)
    };
    assert(n > 0 ==> lv@.last() == lv@[n - 1]);
    let num = trim_end_char(lv.as_slice(), letter);
    let value: u64 = match parse_u64_chars(num.as_slice()) {
        Some(x) => x,
        None => 0,
    };
    match value.checked_mul(unit) {
        Some(_) => Some(parse_expires_lower(lower.as_str())),
        None => None,
    }
}

/// The `Cache-Control` value for an expiry of `seconds`.
pub fn cache_control_value(seconds: u64) -> (r: String)
    ensures
        r@ == "max-age="@ + decimal_spec(seconds as nat),
{
    let mut out = String::new();
    push_str(&mut out, "max-age=");
    push_decimal(&mut out, seconds);
    out
}

// ───────────────────────── CORS ─────────────────────────

/// Whether a request with the `Origin` header `origin` gets CORS headers: never
/// when no origin is configured, always when `*` is, and otherwise when the
/// request names exactly the configured origin.
pub open spec fn origin_allowed(cors_origin: Seq<char>, origin: Option<Seq<char>>) -> bool {
    if cors_origin.len() == 0 {
        false
    } else if cors_origin == "*"@ {
        true
    } else {
        origin == Some(cors_origin)
    }
}

/// The view of an optional string.
pub open spec fn opt_text(o: Option<&str>) -> Option<Seq<char>> {
    match o {
        Some(s) => Some(s@),
        None => None,
    }
}

/// Whether a request whose `Origin` header is `origin` gets CORS headers.
pub fn is_origin_allowed(cors_origin: &str, origin: Option<&str>) -> (b: bool)
    ensures
        b == origin_allowed(cors_origin@, opt_text(origin)),
{
    let c = chars_of(cors_origin);
    if c.len() == 0 {
        return false;
    }
    if str_eq(cors_origin, "*") {
        return true;
    }
    match origin {
        Some(o) => str_eq(o, cors_origin),
        None => false,
    }
}

/// The `Access-Control-Allow-Origin` value for a request, when it gets CORS
/// headers: `*` when any origin is allowed, else the request's own origin.
pub fn cors_allow_origin(cors_origin: &str, origin: Option<&str>) -> (r: Option<String>)
    ensures
        match r {
            None => !origin_allowed(cors_origin@, opt_text(origin)),
            Some(v) => origin_allowed(cors_origin@, opt_text(origin)) && v@ == (if cors_origin@
                == "*"@ {
                "*"@
            } else {
                cors_origin@
            }),
        },
{
    if !is_origin_allowed(cors_origin, origin) {
        return None;
    }
    if str_eq(cors_origin, "*") {
        Some(cors_origin.to_owned())
    } else {
        match origin {
            Some(o) => Some(o.to_owned()),
            None => None,
        }
    }
}

// ───────────────────────── request checks ─────────────────────────

/// Whether the headers ask for a WebSocket upgrade: `Upgrade` mentions
/// `websocket` and `Connection` mentions `upgrade`, without regard to case.
pub open spec fn websocket_upgrade(upgrade: Option<Seq<char>>, connection: Option<Seq<char>>) -> bool {
    &&& upgrade is Some && contains_seq(lowercase_of(upgrade->0), "websocket"@)
    &&& connection is Some && contains_seq(lowercase_of(connection->0), "upgrade"@)
}

fn mentions(value: Option<&str>, word: &str) -> (b: bool)
    ensures
        b == (value is Some && contains_seq(lowercase_of(value->0@), word@)),
{
    match value {
        Some(v) => {
            let l = to_lowercase(v);
            let lv = chars_of(l.as_str());
            let w = chars_of(word);
            seq_contains(lv.as_slice(), w.as_slice())
        },
        None => false,
    }
}

/// Whether a request with these `Upgrade` and `Connection` headers asks for a
/// WebSocket.
pub fn is_websocket_upgrade(upgrade: Option<&str>, connection: Option<&str>) -> (b: bool)
    ensures
        b == websocket_upgrade(opt_text(upgrade), opt_text(connection)),
{
    let u = mentions(upgrade, "websocket");
    let c = mentions(connection, "upgrade");
    u && c
}

/// Whether the method is refused before anything else (`TRACE` and `CONNECT`).
pub fn is_refused_method(method: &str) -> (b: bool)
    ensures
        b == (method@ == "TRACE"@ || method@ == "CONNECT"@),
{
    str_eq(method, "TRACE") || str_eq(method, "CONNECT")
}

/// The largest request body taken in, in bytes (10 MiB).
pub const MAX_BODY: u64 = 10_485_760;

/// The IP address of a client, from its socket address as `SocketAddr` writes it
/// (`1.2.3.4:5678`, `[::1]:5678`): the text before the last `:`, without the
/// brackets around an IPv6 address. A text without `:` is taken whole.
pub open spec fn peer_ip(peer: Seq<char>) -> Seq<char> {
    let k = last_index_of(peer, ':');
    let host = if k >= 0 {
        peer.take(k)
    } else {
        peer
    };
    if host.len() >= 2 && host[0] == '[' && host.last() == ']' {
        host.subrange(1, host.len() - 1)
    } else {
        host
    }
}

/// The IP address of a client, by which its requests are limited and blocked.
pub fn client_ip(peer: &str) -> (r: String)
    ensures
        r@ == peer_ip(peer@),
{
    let v = chars_of(peer);
    proof {
        lemma_last_index_bounds(v@, ':');
    }
    let mut i: usize = v.len();
    while i > 0 && v[i - 1] != ':'
        invariant
            i <= v@.len(),
            forall|j: int| i <= j < v@.len() ==> v@[j] != ':',
            v@ == peer@,
            -1 <= last_index_of(v@, ':') < v@.len(),
            last_index_of(v@, ':') >= 0 ==> v@[last_index_of(v@, ':')] == ':',
            forall|j: int| last_index_of(v@, ':') < j < v@.len() ==> v@[j] != ':',
        decreases i,
    {
        i -= 1;
    }
    let host: Vec<char> = if i > 0 {
        assert(last_index_of(v@, ':') == i - 1);
        sub_chars(v.as_slice(), 0, i - 1)
    } else {
        assert(last_index_of(v@, ':') == -1);
        v
    };
    let n = host.len();
    if n >= 2 && host[0] == '[' && host[n - 1] == ']' {
        let inner = sub_chars(host.as_slice(), 1, n - 1);
        string_from_chars(inner.as_slice())
    } else {
        string_from_chars(host.as_slice())
    }
}

/// The status a request is turned away with before anything else: 405 for a
/// refused method, then 413 for a body above `MAX_BODY`.
pub fn request_refusal(method: &str, body_len: u64) -> (r: Option<u16>)
    ensures
        r == (if method@ == "TRACE"@ || method@ == "CONNECT"@ {
            Some(405u16)
        } else if body_len > MAX_BODY {
            Some(413u16)
        } else {
            None
        }),
{
    if is_refused_method(method) {
        Some(405)
    } else if body_len > MAX_BODY {
        Some(413)
    } else {
        None
    }
}

/// The value of a `Content-Length` header, read as a 64-bit number.
pub open spec fn content_length(header: Option<Seq<char>>) -> Option<u64> {
    match header {
        Some(h) => parse_u64_spec(h),
        None => None,
    }
}

/// Whether an upload is refused before its body is read: the method is `POST`,
/// `PUT` or `PATCH` and the `Content-Length` header reads as a number above the
/// site's limit.
pub fn is_declared_upload_too_large(method: &str, content_length_header: Option<&str>, max: u64) -> (b:
    bool)
    ensures
        b == ((method@ == "POST"@ || method@ == "PUT"@ || method@ == "PATCH"@) && match content_length(
            opt_text(content_length_header),
        ) {
            Some(n) => n > max,
            None => false,
        }),
{
    if !(str_eq(method, "POST") || str_eq(method, "PUT") || str_eq(method, "PATCH")) {
        return false;
    }
    match content_length_header {
        Some(h) => {
            let v = chars_of(h);
            match parse_u64_chars(v.as_slice()) {
                Some(n) => n > max,
                None => false,
            }
        },
        None => false,
    }
}

/// Whether a stored upload is refused: its declared length (zero when missing or
/// unreadable) or its actual length is above the site's limit.
pub fn is_upload_too_large(content_length_header: Option<&str>, body_len: u64, max: u64) -> (b: bool)
    ensures
        b == (match content_length(opt_text(content_length_header)) {
            Some(n) => n,
            None => 0,
        } > max || body_len > max),
{
    let declared: u64 = match content_length_header {
        Some(h) => {
            let v = chars_of(h);
            match parse_u64_chars(v.as_slice()) {
                Some(n) => n,
                None => 0,
            }
        },
        None => 0,
    };
    declared > max || body_len > max
}

/// The host name of a `Host` header: what comes before its first `:`.
pub open spec fn host_name(host: Seq<char>) -> Seq<char> {
    split_spec(host, ':')[0]
}

/// Whether a request may be served when the site refuses direct IP access: always
/// when it allows such access or lists no domain; otherwise when the host name of
/// the `Host` header (empty when there is none) is one of the site's domains.
pub open spec fn host_allowed(allow_ip_access: bool, domains: Seq<Seq<char>>, host: Option<Seq<char>>) -> bool {
    allow_ip_access || domains.len() == 0 || domains.contains(
        host_name(
            match host {
                Some(h) => h,
                None => Seq::empty(),
            },
        ),
    )
}

/// Whether a request with this `Host` header may be served.
pub fn is_host_allowed(allow_ip_access: bool, domains: &[String], host: Option<&str>) -> (b: bool)
    ensures
        b == host_allowed(allow_ip_access, texts(domains@), opt_text(host)),
{
    if allow_ip_access || domains.len() == 0 {
        return true;
    }
    let h: Vec<char> = match host {
        Some(s) => chars_of(s),
        None => Vec::new(),
    };
    let parts = split_chars(h.as_slice(), ':');
    proof {
        crate::text::lemma_split_nonempty(h@, ':');
    }
    let name = string_from_chars(parts[0].as_slice());
    let ghost hv: Seq<char> = match host {
        Some(s) => s@,
        None => Seq::empty(),
    };
    assert(h@ == hv);
    let n = domains.len();
    let mut i: usize = 0;
    while i < n
        invariant
            n == domains@.len(),
            i <= n,
            name@ == host_name(hv),
            hv == match opt_text(host) {
                Some(h) => h,
                None => Seq::<char>::empty(),
            },
            !allow_ip_access,
            forall|j: int| 0 <= j < i ==> #[trigger] texts(domains@)[j] != name@,
        decreases n - i,
    {
        if str_eq(domains[i].as_str(), name.as_str()) {
            assert(texts(domains@)[i as int] == name@);
            return true;
        }
        assert(texts(domains@)[i as int] == domains@[i as int]@);
        i += 1;
    }
    false
}

// ───────────────────────── rewrite and locations ─────────────────────────

/// Whether a rewrite result asks for a look at the file system: it changed the path.
pub open spec fn rewrite_changes(path: Seq<char>, rewritten: Option<Seq<char>>) -> bool {
    rewritten matches Some(r) && r != path
}

/// The path a request is served under: the rewrite result when it changed the
/// path and the requested path names no existing file; otherwise the requested path.
pub open spec fn final_path(path: Seq<char>, rewritten: Option<Seq<char>>, requested_exists: bool) -> Seq<
    char,
> {
    if rewrite_changes(path, rewritten) && !requested_exists {
        rewritten->0
    } else {
        path
    }
}

/// The view of an optional owned string.
pub open spec fn opt_string(o: Option<String>) -> Option<Seq<char>> {
    match o {
        Some(s) => Some(s@),
        None => None,
    }
}

/// Whether the rewrite result changed the path (so that the requested file must be
/// looked for).
pub fn rewrite_changes_path(path: &str, rewritten: &Option<String>) -> (b: bool)
    ensures
        b == rewrite_changes(path@, opt_string(*rewritten)),
{
    match rewritten {
        Some(r) => !str_eq(r.as_str(), path),
        None => false,
    }
}

/// The path a request is served under.
pub fn select_final_path(path: &str, rewritten: Option<String>, requested_exists: bool) -> (r: String)
    ensures
        r@ == final_path(path@, opt_string(rewritten), requested_exists),
{
    let changes = rewrite_changes_path(path, &rewritten);
    match rewritten {
        Some(r) => if changes && !requested_exists {
            r
        } else {
            path.to_owned()
        },
        None => path.to_owned(),
    }
}

/// The path of the file a path names under a root: the path without its leading `/`s.
pub fn root_relative(path: &str) -> (r: String)
    ensures
        r@ == trim_start_char_spec(path@, '/'),
{
    let v = chars_of(path);
    let t = trim_start_char(v.as_slice(), '/');
    string_from_chars(t.as_slice())
}

/// Whether a location rule may serve `path` (and, when `need_proxy`, proxies).
pub open spec fn location_fits(loc: LocationConfig, path: Seq<char>, need_proxy: bool) -> bool {
    starts_with(path, loc.path@) && (need_proxy ==> loc.proxy_pass is Some)
}

/// The location rule that serves `path`: of those whose path prefixes it, one with
/// the longest prefix, the first listed among equals.
pub open spec fn best_location(locs: Seq<LocationConfig>, path: Seq<char>, need_proxy: bool, i: int) -> bool {
    &&& 0 <= i < locs.len()
    &&& location_fits(locs[i], path, need_proxy)
    &&& forall|j: int| 0 <= j < locs.len() && location_fits(#[trigger] locs[j], path, need_proxy)
        ==> locs[j].path@.len() < locs[i].path@.len() || (locs[j].path@.len() == locs[i].path@.len()
        && i <= j)
}

/// The location rule that serves `path`: the longest prefix wins, and among rules
/// with prefixes of one length, the first listed; with `need_proxy`, only rules
/// that proxy count.
pub fn match_location(locations: &[LocationConfig], path: &str, need_proxy: bool) -> (r: Option<usize>)
    ensures
        match r {
            Some(i) => best_location(locations@, path@, need_proxy, i as int),
            None => forall|j: int| 0 <= j < locations@.len() ==> !location_fits(#[trigger] locations@[j], path@, need_proxy),
        },
{
    let p = chars_of(path);
    let n = locations.len();
    let mut best: Option<usize> = None;
    let mut best_len: usize = 0;
    let mut i: usize = 0;
    while i < n
        invariant
            n == locations@.len(),
            i <= n,
            p@ == path@,
            match best {
                Some(b) => {
                    &&& b < i
                    &&& best_len == locations@[b as int].path@.len()
                    &&& location_fits(locations@[b as int], path@, need_proxy)
                    &&& forall|j: int| 0 <= j < i && location_fits(#[trigger] locations@[j], path@, need_proxy)
                        ==> locations@[j].path@.len() < best_len || (locations@[j].path@.len() == best_len && b <= j)
                },
                None => forall|j: int| 0 <= j < i ==> !location_fits(#[trigger] locations@[j], path@, need_proxy),
            },
        decreases n - i,
    {
        let loc = &locations[i];
        let lp = chars_of(loc.path.as_str());
        let fits = seq_starts_with(p.as_slice(), lp.as_slice()) && (!need_proxy || loc.proxy_pass.is_some());
        if fits {
            let better = match best {
                Some(_) => lp.len() > best_len,
                None => true,
            };
            if better {
                best = Some(i);
                best_len = lp.len();
            }
        }
        i += 1;
    }
    best
}

/// Whether some location rule proxies (to one back end or to several).
pub open spec fn any_reverse_proxy(locs: Seq<LocationConfig>) -> bool {
    exists|i: int| 0 <= i < locs.len() && (#[trigger] locs[i].proxy_pass is Some
        || locs[i].load_balance_targets@.len() > 0)
}

/// Whether some location rule proxies (to one back end or to several).
pub fn has_reverse_proxy(locations: &[LocationConfig]) -> (b: bool)
    ensures
        b == any_reverse_proxy(locations@),
{
    let n = locations.len();
    let mut i: usize = 0;
    while i < n
        invariant
            n == locations@.len(),
            i <= n,
            forall|j: int| 0 <= j < i ==> !(#[trigger] locations@[j].proxy_pass is Some
                || locations@[j].load_balance_targets@.len() > 0),
        decreases n - i,
    {
        if locations[i].proxy_pass.is_some() || locations[i].load_balance_targets.len() > 0 {
            return true;
        }
        i += 1;
    }
    false
}

/// What a path means under a location rule's own root: the path without the
/// rule's prefix (the whole path when it does not start with it), then without
/// leading `/`s.
pub open spec fn location_relative(path: Seq<char>, prefix: Seq<char>) -> Seq<char> {
    trim_start_char_spec(
        if starts_with(path, prefix) {
            path.skip(prefix.len() as int)
        } else {
            path
        },
        '/',
    )
}

/// The path, under a location rule's own root, of the file that `path` names.
pub fn relative_to_location(path: &str, prefix: &str) -> (r: String)
    ensures
        r@ == location_relative(path@, prefix@),
{
    let p = chars_of(path);
    let q = chars_of(prefix);
    let rest = if seq_starts_with(p.as_slice(), q.as_slice()) {
        sub_chars(p.as_slice(), q.len(), p.len())
    } else {
        p
    };
    assert(starts_with(path@, prefix@) ==> rest@ =~= path@.skip(prefix@.len() as int));
    let t = trim_start_char(rest.as_slice(), '/');
    string_from_chars(t.as_slice())
}

// ───────────────────────── responses ─────────────────────────

/// The status a response gets for the code `code`: the code itself when it lies
/// in `100..=999`, which the `http` crate accepts, else `fallback`.
pub open spec fn status_or(code: u16, fallback: u16) -> u16 {
    if 100 <= code <= 999 {
        code
    } else {
        fallback
    }
}

/// The status of an error response with code `code` (500 when the code is not a
/// valid status).
pub fn error_status(code: u16) -> (r: u16)
    ensures
        r == status_or(code, 500),
{
    if 100 <= code && code <= 999 {
        code
    } else {
        500
    }
}

/// The HTML page of an error response.
pub open spec fn error_page_spec(status: u16, message: Seq<char>) -> Seq<char> {
    let head = decimal_spec(status as nat) + " "@ + message;
    "<!DOCTYPE html><html><head><meta charset='utf-8'><title>"@ + head + "</title></head><body><h1>"@
        + head + "</h1><hr><p>ohos-server/1.0</p></body></html>"@
}

/// The HTML page of an error response: the code and the message, as title and
/// as heading.
pub fn error_page(status: u16, message: &str) -> (r: String)
    ensures
        r@ == error_page_spec(status, message@),
{
    let mut out = String::new();
    push_str(&mut out, "<!DOCTYPE html><html><head><meta charset='utf-8'><title>");
    push_decimal(&mut out, status as u64);
    push_str(&mut out, " ");
    push_str(&mut out, message);
    push_str(&mut out, "</title></head><body><h1>");
    push_decimal(&mut out, status as u64);
    push_str(&mut out, " ");
    push_str(&mut out, message);
    push_str(&mut out, "</h1><hr><p>ohos-server/1.0</p></body></html>");
    assert(out@ =~= error_page_spec(status, message@));
    out
}

/// The entity tag of a file: its modification time in seconds and its length,
/// both in hexadecimal, joined by `-` and quoted.
pub fn etag_value(modified_secs: u64, len: u64) -> (r: String)
    ensures
        r@ == "\""@ + hex_spec(modified_secs as nat) + "-"@ + hex_spec(len as nat) + "\""@,
{
    let mut out = String::new();
    push_str(&mut out, "\"");
    push_hex(&mut out, modified_secs as u128);
    push_str(&mut out, "-");
    push_hex(&mut out, len as u128);
    push_str(&mut out, "\"");
    out
}

/// The name under which an upload is stored: the time stamp and `.bin`.
pub fn upload_file_name(timestamp: i64) -> (r: String)
    ensures
        r@ == signed_decimal_spec(timestamp as int) + ".bin"@,
{
    let mut out = String::new();
    push_signed_decimal(&mut out, timestamp);
    push_str(&mut out, ".bin");
    out
}

/// The JSON reply to a stored upload: its size and where it went.
pub fn upload_reply(size: u64, file_name: &str) -> (r: String)
    ensures
        r@ == "{\"status\":\"ok\",\"size\":"@ + decimal_spec(size as nat) + ",\"file\":\"uploads/"@
            + file_name@ + "\"}"@,
{
    let mut out = String::new();
    push_str(&mut out, "{\"status\":\"ok\",\"size\":");
    push_decimal(&mut out, size);
    push_str(&mut out, ",\"file\":\"uploads/");
    push_str(&mut out, file_name);
    push_str(&mut out, "\"}");
    out
}

// ───────────────────────── CGI output ─────────────────────────

/// Whether the bytes `p` occur in `s` at position `i`.
pub open spec fn bytes_at(s: Seq<u8>, p: Seq<u8>, i: int) -> bool {
    0 <= i && i + p.len() <= s.len() && s.subrange(i, i + p.len()) == p
}

/// The first position of `p` in `s`, if it occurs.
#[verifier::opaque]
pub open spec fn first_index(s: Seq<u8>, p: Seq<u8>) -> Option<int> {
    if exists|i: int| bytes_at(s, p, i) {
        Some(choose|i: int| bytes_at(s, p, i) && forall|j: int| 0 <= j < i ==> !bytes_at(s, p, j))
    } else {
        None
    }
}

/// `\r\n\r\n` and `\n\n`.
pub open spec fn crlf2() -> Seq<u8> {
    seq![13u8, 10u8, 13u8, 10u8]
}

pub open spec fn lf2() -> Seq<u8> {
    seq![10u8, 10u8]
}

/// Where the headers of CGI output end: the first `\r\n\r\n`, else the first
/// `\n\n`, else 0.
pub open spec fn header_end(s: Seq<u8>) -> int {
    match first_index(s, crlf2()) {
        Some(i) => i,
        None => match first_index(s, lf2()) {
            Some(i) => i,
            None => 0,
        },
    }
}

/// The header part of CGI output: up to the end of the headers, or everything
/// when that end is at 0.
pub open spec fn header_part(s: Seq<u8>) -> Seq<u8> {
    if header_end(s) > 0 {
        s.take(header_end(s))
    } else {
        s
    }
}

/// The body of CGI output: what follows the blank line after the headers
/// (nothing when the headers end at 0).
pub open spec fn body_part(s: Seq<u8>) -> Seq<u8> {
    let e = header_end(s);
    let start = if e > 0 {
        e + if bytes_at(s, crlf2(), e) {
            4int
        } else {
            2int
        }
    } else {
        0
    };
    if e > 0 && start < s.len() {
        s.skip(start)
    } else {
        Seq::empty()
    }
}

/// What `String::from_utf8_lossy` gives for some bytes.
pub uninterp spec fn utf8_lossy_of(bytes: Seq<u8>) -> Seq<char>;

/// `String::from_utf8_lossy`: the text of `bytes`, with each invalid sequence
/// replaced by U+FFFD; bytes that are valid UTF-8 read as the text they encode.
#[verifier::external_body]
pub(crate) fn utf8_lossy(bytes: &[u8]) -> (r: String)
    ensures
        r@ == utf8_lossy_of(bytes@),
        forall|s: Seq<char>| #[trigger] vstd::utf8::encode_utf8(s) == bytes@ ==> r@ == s,
{
    String::from_utf8_lossy(bytes).into_owned()
}

/// The leading characters of `t` up to its first white space.
pub open spec fn first_word(t: Seq<char>) -> Seq<char>
    decreases t.len(),
{
    if t.len() == 0 || crate::text::is_ws(t[0]) {
        Seq::empty()
    } else {
        seq![t[0]] + first_word(t.drop_first())
    }
}

/// What `u16::from_str` gives.
pub open spec fn parse_u16_spec(s: Seq<char>) -> Option<u16> {
    match parse_u64_spec(s) {
        Some(v) => if v <= u16::MAX {
            Some(v as u16)
        } else {
            None
        },
        None => None,
    }
}

/// The status, content type and redirect target read so far from CGI headers.
pub struct CgiHeaders {
    pub status: u16,
    pub content_type: String,
    pub location: Option<String>,
}

/// The status, content type and redirect target that a header line sets, given
/// those set before it. The line is trimmed; `Status:` sets the status to the
/// number its first word reads as (200 when it does not read as one; nothing
/// changes without a word), `Content-Type:` the trimmed content type and
/// `Location:` the trimmed target (each also in lower case); other lines change
/// nothing.
pub open spec fn header_step(st: (u16, Seq<char>, Option<Seq<char>>), raw: Seq<char>) -> (u16, Seq<char>, Option<Seq<char>>) {
    let line = trim_spec(raw);
    if line.len() == 0 {
        st
    } else if starts_with(line, "Status:"@) || starts_with(line, "status:"@) {
        let word = first_word(trim_spec(line.skip(7)));
        if word.len() == 0 {
            st
        } else {
            (
                match parse_u16_spec(word) {
                    Some(c) => c,
                    None => 200,
                },
                st.1,
                st.2,
            )
        }
    } else if starts_with(line, "Content-Type:"@) || starts_with(line, "content-type:"@) {
        (st.0, trim_spec(line.skip(13)), st.2)
    } else if starts_with(line, "Location:"@) || starts_with(line, "location:"@) {
        (st.0, st.1, Some(trim_spec(line.skip(9))))
    } else {
        st
    }
}

/// The headers after the first `k` lines.
pub open spec fn headers_upto(lines: Seq<Seq<char>>, k: nat) -> (u16, Seq<char>, Option<Seq<char>>)
    decreases k,
{
    if k == 0 {
        (200, "text/html; charset=utf-8"@, None)
    } else {
        header_step(headers_upto(lines, (k - 1) as nat), lines[k - 1])
    }
}

/// The status, content type and redirect target of CGI output, read line by line
/// from the text of its header part.
pub open spec fn cgi_headers_spec(stdout: Seq<u8>) -> (u16, Seq<char>, Option<Seq<char>>) {
    let lines = split_spec(utf8_lossy_of(header_part(stdout)), '\n');
    headers_upto(lines, lines.len())
}

/// Whether the bytes `p` occur in `s` at position `i`.
fn bytes_match(s: &[u8], p: &[u8], i: usize) -> (b: bool)
    ensures
        b == bytes_at(s@, p@, i as int),
{
    let n = s.len();
    let m = p.len();
    if i > n || m > n - i {
        return false;
    }
    let mut k: usize = 0;
    while k < m
        invariant
            n == s@.len(),
            m == p@.len(),
            i + m <= n,
            k <= m,
            forall|t: int| 0 <= t < k ==> s@[i + t] == p@[t],
        decreases m - k,
    {
        if s[i + k] != p[k] {
            assert(s@.subrange(i as int, i + m)[k as int] == s@[i + k]);
            return false;
        }
        k += 1;
    }
    assert(s@.subrange(i as int, i + m) =~= p@);
    true
}

/// The first position of `p` in `s`.
fn find_bytes(s: &[u8], p: &[u8]) -> (r: Option<usize>)
    requires
        p@.len() > 0,
    ensures
        match r {
            Some(i) => first_index(s@, p@) == Some(i as int) && i + p@.len() <= s@.len(),
            None => first_index(s@, p@) is None,
        },
{
    reveal(first_index);
    let n = s.len();
    let m = p.len();
    if m > n {
        assert(!exists|i: int| bytes_at(s@, p@, i));
        return None;
    }
    let mut i: usize = 0;
    while i <= n - m
        invariant
            n == s@.len(),
            m == p@.len(),
            0 < m <= n,
            i <= n - m + 1,
            forall|j: int| 0 <= j < i ==> !bytes_at(s@, p@, j),
        decreases n - m + 1 - i,
    {
        if bytes_match(s, p, i) {
            proof {
                reveal(first_index);
            }
            let ghost w = choose|w: int| bytes_at(s@, p@, w) && forall|j: int| 0 <= j < w ==> !bytes_at(s@, p@, j);
            assert(w == i as int) by {
                if w < i {
                } else if w > i {
                }
            }
            return Some(i);
        }
        i += 1;
    }
    assert(!exists|j: int| bytes_at(s@, p@, j)) by {
        if exists|j: int| bytes_at(s@, p@, j) {
            let j = choose|j: int| bytes_at(s@, p@, j);
            assert(j < i);
        }
    }
    None
}

/// The first word of a trimmed text.
fn first_word_exec(t: &[char]) -> (r: Vec<char>)
    ensures
        r@ == first_word(t@),
{
    let n = t.len();
    let mut k: usize = 0;
    while k < n && !crate::text::is_whitespace(t[k])
        invariant
            n == t@.len(),
            k <= n,
            forall|j: int| 0 <= j < k ==> !crate::text::is_ws(#[trigger] t@[j]),
        decreases n - k,
    {
        k += 1;
    }
    proof {
        lemma_first_word(t@, k as int);
    }
    sub_chars(t, 0, k)
}

proof fn lemma_first_word(t: Seq<char>, k: int)
    requires
        0 <= k <= t.len(),
        forall|j: int| 0 <= j < k ==> !crate::text::is_ws(#[trigger] t[j]),
        k == t.len() || crate::text::is_ws(t[k]),
    ensures
        first_word(t) == t.take(k),
    decreases t.len(),
{
    if k == 0 {
        assert(t.take(0) =~= Seq::<char>::empty());
    } else {
        let u = t.drop_first();
        assert forall|j: int| 0 <= j < k - 1 implies !crate::text::is_ws(#[trigger] u[j]) by {
            assert(u[j] == t[j + 1]);
        }
        if k < t.len() {
            assert(u[k - 1] == t[k]);
        }
        lemma_first_word(u, k - 1);
        assert(seq![t[0]] + u.take(k - 1) =~= t.take(k));
    }
}

fn header_step_exec(st: CgiHeaders, raw: &[char]) -> (r: CgiHeaders)
    ensures
        (r.status, r.content_type@, opt_string(r.location)) == header_step(
            (st.status, st.content_type@, opt_string(st.location)),
            raw@,
        ),
{
    let line = trim_chars(raw);
    if line.len() == 0 {
        return st;
    }
    let status_a = chars_of("Status:");
    let status_b = chars_of("status:");
    let ctype_a = chars_of("Content-Type:");
    let ctype_b = chars_of("content-type:");
    let loc_a = chars_of("Location:");
    let loc_b = chars_of("location:");
    proof {
        reveal_strlit("Status:");
        reveal_strlit("status:");
        reveal_strlit("Content-Type:");
        reveal_strlit("content-type:");
        reveal_strlit("Location:");
        reveal_strlit("location:");
    }
    if seq_starts_with(line.as_slice(), status_a.as_slice()) || seq_starts_with(
        line.as_slice(),
        status_b.as_slice(),
    ) {
        let val = sub_chars(line.as_slice(), 7, line.len());
        assert(val@ =~= line@.skip(7));
        let tv = trim_chars(val.as_slice());
        let word = first_word_exec(tv.as_slice());
        if word.len() == 0 {
            return st;
        }
        let code: u16 = match parse_u64_chars(word.as_slice()) {
            Some(v) => if v <= 65535 {
                v as u16
            } else {
                200
            },
            None => 200,
        };
        CgiHeaders { status: code, content_type: st.content_type, location: st.location }
    } else if seq_starts_with(line.as_slice(), ctype_a.as_slice()) || seq_starts_with(
        line.as_slice(),
        ctype_b.as_slice(),
    ) {
        let val = sub_chars(line.as_slice(), 13, line.len());
        assert(val@ =~= line@.skip(13));
        let tv = trim_chars(val.as_slice());
        CgiHeaders { status: st.status, content_type: string_from_chars(tv.as_slice()), location: st.location }
    } else if seq_starts_with(line.as_slice(), loc_a.as_slice()) || seq_starts_with(
        line.as_slice(),
        loc_b.as_slice(),
    ) {
        let val = sub_chars(line.as_slice(), 9, line.len());
        assert(val@ =~= line@.skip(9));
        let tv = trim_chars(val.as_slice());
        CgiHeaders { status: st.status, content_type: st.content_type, location: Some(string_from_chars(tv.as_slice())) }
    } else {
        st
    }
}

/// The headers of CGI output: status, content type and redirect target.
pub fn parse_cgi_headers(stdout: &[u8]) -> (r: CgiHeaders)
    ensures
        (r.status, r.content_type@, opt_string(r.location)) == cgi_headers_spec(stdout@),
{
    let end = cgi_header_end(stdout);
    let head: Vec<u8> = if end > 0 {
        take_bytes(stdout, end)
    } else {
        take_bytes(stdout, stdout.len())
    };
    assert(head@ =~= header_part(stdout@));
    let text = utf8_lossy(head.as_slice());
    let tv = chars_of(text.as_str());
    let lines = split_chars(tv.as_slice(), '\n');
    let ghost all = split_spec(utf8_lossy_of(header_part(stdout@)), '\n');
    let mut st = CgiHeaders { status: 200, content_type: String::new(), location: None };
    push_str(&mut st.content_type, "text/html; charset=utf-8");
    let n = lines.len();
    let mut i: usize = 0;
    while i < n
        invariant
            n == lines@.len(),
            n == all.len(),
            i <= n,
            forall|j: int| 0 <= j < n ==> #[trigger] lines@[j]@ == all[j],
            (st.status, st.content_type@, opt_string(st.location)) == headers_upto(all, i as nat),
        decreases n - i,
    {
        st = header_step_exec(st, lines[i].as_slice());
        i += 1;
    }
    st
}

/// Where the headers of CGI output end.
fn cgi_header_end(stdout: &[u8]) -> (e: usize)
    ensures
        e == header_end(stdout@),
        e <= stdout@.len(),
        e > 0 ==> e + 2 <= stdout@.len(),
{
    let crlf: [u8; 4] = [13, 10, 13, 10];
    let lf: [u8; 2] = [10, 10];
    assert(crlf@ == crlf2());
    assert(lf@ == lf2());
    match find_bytes(stdout, &crlf) {
        Some(i) => i,
        None => match find_bytes(stdout, &lf) {
            Some(i) => i,
            None => 0,
        },
    }
}

fn take_bytes(s: &[u8], n: usize) -> (r: Vec<u8>)
    requires
        n <= s@.len(),
    ensures
        r@ == s@.take(n as int),
{
    let mut r: Vec<u8> = Vec::new();
    let mut i: usize = 0;
    while i < n
        invariant
            n <= s@.len(),
            i <= n,
            r@ == s@.take(i as int),
        decreases n - i,
    {
        r.push(s[i]);
        i += 1;
        assert(r@ =~= s@.take(i as int));
    }
    r
}

/// The body of CGI output.
pub fn cgi_body(stdout: &[u8]) -> (r: Vec<u8>)
    ensures
        r@ == body_part(stdout@),
{
    let e = cgi_header_end(stdout);
    if e == 0 {
        return Vec::new();
    }
    let n = stdout.len();
    let crlf: [u8; 4] = [13, 10, 13, 10];
    assert(crlf@ == crlf2());
    let four = bytes_match(stdout, &crlf, e);
    let start: usize = if four {
        e + 4
    } else {
        e + 2
    };
    if start >= n {
        return Vec::new();
    }
    let mut r: Vec<u8> = Vec::new();
    let mut i: usize = start;
    while i < n
        invariant
            start <= i <= n,
            n == stdout@.len(),
            r@ == stdout@.subrange(start as int, i as int),
        decreases n - i,
    {
        r.push(stdout[i]);
        i += 1;
        assert(r@ =~= stdout@.subrange(start as int, i as int));
    }
    assert(r@ =~= stdout@.skip(start as int));
    r
}

/// The status of the response to CGI output: 302 when it names a redirect
/// target, else its status when valid, else 200.
pub fn cgi_response_status(headers: &CgiHeaders) -> (r: u16)
    ensures
        r == if headers.location is Some {
            302
        } else {
            status_or(headers.status, 200)
        },
{
    if headers.location.is_some() {
        302
    } else if 100 <= headers.status && headers.status <= 999 {
        headers.status
    } else {
        200
    }
}

// ───────────────────────── CGI scripts ─────────────────────────

/// Whether a CGI configuration runs files with the extension `ext` (listed with
/// its dot).
pub open spec fn cgi_runs(cgi: CgiConfig, ext: Seq<char>) -> bool {
    texts(cgi.extensions@).contains(seq!['.'] + ext)
}

/// The CGI configuration that runs `file_path`: the first one that lists the
/// path's extension, with its dot.
#[verifier::loop_isolation(false)]
pub fn find_cgi_config(cgi: &[CgiConfig], file_path: &str) -> (r: Option<usize>)
    ensures
        match path_extension_of(file_path@) {
            None => r is None,
            Some(ext) => match r {
                Some(i) => i < cgi@.len() && cgi_runs(cgi@[i as int], ext) && forall|j: int|
                    0 <= j < i ==> !cgi_runs(#[trigger] cgi@[j], ext),
                None => forall|j: int| 0 <= j < cgi@.len() ==> !cgi_runs(#[trigger] cgi@[j], ext),
            },
        },
{
    let ext = match path_extension(file_path) {
        Some(e) => e,
        None => return None,
    };
    let mut dotted = String::new();
    push_char(&mut dotted, '.');
    push_str(&mut dotted, ext.as_str());
    assert(dotted@ =~= seq!['.'] + ext@);
    let n = cgi.len();
    let mut i: usize = 0;
    while i < n
        invariant
            n == cgi@.len(),
            i <= n,
            dotted@ == seq!['.'] + ext@,
            opt_string(Some(ext)) == path_extension_of(file_path@),
            forall|j: int| 0 <= j < i ==> !cgi_runs(#[trigger] cgi@[j], ext@),
        decreases n - i,
    {
        let exts = &cgi[i].extensions;
        let m = exts.len();
        let mut k: usize = 0;
        while k < m
            invariant
                m == exts@.len(),
                k <= m,
                forall|t: int| 0 <= t < k ==> #[trigger] exts@[t]@ != dotted@,
            decreases m - k,
        {
            if str_eq(exts[k].as_str(), dotted.as_str()) {
                assert(texts(exts@)[k as int] == dotted@);
                return Some(i);
            }
            k += 1;
        }
        assert(!texts(exts@).contains(dotted@)) by {
            if texts(exts@).contains(dotted@) {
                let t = choose|t: int| 0 <= t < texts(exts@).len() && texts(exts@)[t] == dotted@;
                assert(exts@[t]@ == dotted@);
            }
        }
        i += 1;
    }
    None
}

/// The port part of a bind address: what follows its first `:` up to the next
/// one, or `80` when there is no `:`.
pub open spec fn server_port_spec(bind: Seq<char>) -> Seq<char> {
    let parts = split_spec(bind, ':');
    if parts.len() >= 2 {
        parts[1]
    } else {
        "80"@
    }
}

/// The port of a bind address.
pub fn server_port(bind: &str) -> (r: String)
    ensures
        r@ == server_port_spec(bind@),
{
    let v = chars_of(bind);
    let parts = split_chars(v.as_slice(), ':');
    if parts.len() >= 2 {
        string_from_chars(parts[1].as_slice())
    } else {
        "80".to_owned()
    }
}

/// The name a script is known by: `/` and its path under the site root (its
/// whole path when it does not lie under the root).
pub open spec fn script_name_spec(script_path: Seq<char>, root: Seq<char>) -> Seq<char> {
    seq!['/'] + match path_strip_prefix_of(script_path, root) {
        Some(rest) => rest,
        None => script_path,
    }
}

/// The request URI a script sees: its name, and `?` and the query when there is one.
pub open spec fn request_uri_spec(script_name: Seq<char>, query: Seq<char>) -> Seq<char> {
    if query.len() == 0 {
        script_name
    } else {
        script_name + seq!['?'] + query
    }
}

/// What `str::to_uppercase` gives.
pub uninterp spec fn uppercase_of(s: Seq<char>) -> Seq<char>;

/// `str::to_uppercase`: the upper-case mapping of the text.
#[verifier::external_body]
fn to_uppercase(s: &str) -> (r: String)
    ensures
        r@ == uppercase_of(s@),
{
    s.to_uppercase()
}

/// The variable that carries a request header to a script: `HTTP_` and the name in
/// upper case with each `-` made `_`.
pub open spec fn http_env_name_spec(name: Seq<char>) -> Seq<char> {
    "HTTP_"@ + crate::text::replace_spec(uppercase_of(name), seq!['-'], seq!['_'])
}

/// The variable that carries a request header to a script.
pub fn http_env_name(name: &str) -> (r: String)
    ensures
        r@ == http_env_name_spec(name@),
{
    let up = to_uppercase(name);
    let v = chars_of(up.as_str());
    let dash = ['-'];
    let under = ['_'];
    assert(dash@ == seq!['-']);
    assert(under@ == seq!['_']);
    let replaced = crate::text::replace_all(v.as_slice(), &dash, &under);
    let mut out = String::new();
    push_str(&mut out, "HTTP_");
    push_chars(&mut out, replaced.as_slice());
    out
}

/// The view of a list of pairs of strings.
pub open spec fn pairs(v: Seq<(String, String)>) -> Seq<(Seq<char>, Seq<char>)> {
    v.map_values(|p: (String, String)| (p.0@, p.1@))
}

/// The environment of a CGI script, in the order it is set (a later entry for the
/// same name wins): the server's own variables, then one variable per request
/// header.
pub open spec fn cgi_env_spec(
    software: Seq<char>,
    bind: Seq<char>,
    method: Seq<char>,
    script_path: Seq<char>,
    root: Seq<char>,
    query: Seq<char>,
    remote_addr: Seq<char>,
    content_type: Seq<char>,
    body_len: u64,
    headers: Seq<(Seq<char>, Seq<char>)>,
) -> Seq<(Seq<char>, Seq<char>)> {
    let name = script_name_spec(script_path, root);
    let uri = request_uri_spec(name, query);
    seq![
        ("SERVER_SOFTWARE"@, software),
        ("SERVER_NAME"@, "localhost"@),
        ("GATEWAY_INTERFACE"@, "CGI/1.1"@),
        ("SERVER_PROTOCOL"@, "HTTP/1.1"@),
        ("SERVER_PORT"@, server_port_spec(bind)),
        ("REQUEST_METHOD"@, method),
        ("PATH_INFO"@, uri),
        ("PATH_TRANSLATED"@, script_path),
        ("SCRIPT_NAME"@, name),
        ("SCRIPT_FILENAME"@, script_path),
        ("QUERY_STRING"@, query),
        ("REMOTE_ADDR"@, remote_addr),
        ("CONTENT_TYPE"@, content_type),
        ("CONTENT_LENGTH"@, decimal_spec(body_len as nat)),
        ("REQUEST_URI"@, uri),
        ("REDIRECT_STATUS"@, "1"@),
    ] + headers.map_values(|h: (Seq<char>, Seq<char>)| (http_env_name_spec(h.0), h.1))
}

fn env_pair(name: &str, value: &str) -> (r: (String, String))
    ensures
        r.0@ == name@,
        r.1@ == value@,
{
    (name.to_owned(), value.to_owned())
}

/// The environment of a CGI script run for a request.
pub fn cgi_env(
    software: &str,
    bind: &str,
    method: &str,
    script_path: &str,
    root: &str,
    query: Option<&str>,
    remote_addr: &str,
    content_type: &str,
    body_len: u64,
    headers: &[(String, String)],
) -> (r: Vec<(String, String)>)
    ensures
        pairs(r@) == cgi_env_spec(
            software@,
            bind@,
            method@,
            script_path@,
            root@,
            match query {
                Some(q) => q@,
                None => Seq::empty(),
            },
            remote_addr@,
            content_type@,
            body_len,
            pairs(headers@),
        ),
{
    let q: &str = match query {
        Some(q) => q,
        None => "",
    };
    proof {
        reveal_strlit("");
    }
    assert(q@ == match query {
        Some(q) => q@,
        None => Seq::<char>::empty(),
    });
    let mut name = String::new();
    push_char(&mut name, '/');
    match path_strip_prefix(script_path, root) {
        Some(rest) => push_str(&mut name, rest.as_str()),
        None => push_str(&mut name, script_path),
    }
    assert(name@ =~= script_name_spec(script_path@, root@));
    let mut uri = String::new();
    push_str(&mut uri, name.as_str());
    let qv = chars_of(q);
    if qv.len() > 0 {
        push_char(&mut uri, '?');
        push_str(&mut uri, q);
    }
    assert(uri@ =~= request_uri_spec(name@, q@));
    let mut len_text = String::new();
    push_decimal(&mut len_text, body_len);
    let port = server_port(bind);
    let mut env: Vec<(String, String)> = Vec::new();
    env.push(env_pair("SERVER_SOFTWARE", software));
    env.push(env_pair("SERVER_NAME", "localhost"));
    env.push(env_pair("GATEWAY_INTERFACE", "CGI/1.1"));
    env.push(env_pair("SERVER_PROTOCOL", "HTTP/1.1"));
    env.push(env_pair("SERVER_PORT", port.as_str()));
    env.push(env_pair("REQUEST_METHOD", method));
    env.push(env_pair("PATH_INFO", uri.as_str()));
    env.push(env_pair("PATH_TRANSLATED", script_path));
    env.push(env_pair("SCRIPT_NAME", name.as_str()));
    env.push(env_pair("SCRIPT_FILENAME", script_path));
    env.push(env_pair("QUERY_STRING", q));
    env.push(env_pair("REMOTE_ADDR", remote_addr));
    env.push(env_pair("CONTENT_TYPE", content_type));
    env.push(env_pair("CONTENT_LENGTH", len_text.as_str()));
    env.push(env_pair("REQUEST_URI", uri.as_str()));
    env.push(env_pair("REDIRECT_STATUS", "1"));
    let ghost fixed = pairs(env@);
    let n = headers.len();
    let mut i: usize = 0;
    while i < n
        invariant
            n == headers@.len(),
            i <= n,
            env@.len() == 16 + i,
            pairs(env@).take(16) == fixed,
            forall|j: int| 0 <= j < i ==> #[trigger] pairs(env@)[16 + j] == (http_env_name_spec(headers@[j].0@), headers@[j].1@),
        decreases n - i,
    {
        let ghost before = env@;
        let key = http_env_name(headers[i].0.as_str());
        let value = headers[i].1.clone();
        env.push((key, value));
        assert(pairs(env@).take(16) =~= pairs(before).take(16));
        assert forall|j: int| 0 <= j < i + 1 implies #[trigger] pairs(env@)[16 + j] == (http_env_name_spec(headers@[j].0@), headers@[j].1@) by {
            if j < i {
                assert(pairs(env@)[16 + j] == pairs(before)[16 + j]);
            }
        }
        i += 1;
    }
    let ghost spec = cgi_env_spec(
        software@,
        bind@,
        method@,
        script_path@,
        root@,
        q@,
        remote_addr@,
        content_type@,
        body_len,
        pairs(headers@),
    );
    assert(pairs(env@) =~= spec) by {
        assert(fixed =~= spec.take(16));
        assert forall|j: int| 0 <= j < pairs(env@).len() implies pairs(env@)[j] == spec[j] by {
            if j < 16 {
                assert(pairs(env@).take(16)[j] == fixed[j]);
                assert(spec.take(16)[j] == spec[j]);
            } else {
                assert(pairs(env@)[16 + (j - 16)] == (http_env_name_spec(headers@[j - 16].0@), headers@[j - 16].1@));
            }
        }
    }
    env
}

// ───────────────────────── compression ─────────────────────────

/// Whether a content type is text worth compressing.
pub open spec fn compressible_type(ct: Seq<char>) -> bool {
    starts_with(ct, "text/"@) || contains_seq(ct, "json"@) || contains_seq(ct, "javascript"@)
        || contains_seq(ct, "xml"@) || contains_seq(ct, "yaml"@)
}

/// Whether a response body is offered to gzip: the client accepts gzip, the
/// content type (empty when missing) is text, and the body has 256 bytes or more.
pub open spec fn gzip_wanted(accept_encoding: Option<Seq<char>>, content_type: Option<Seq<char>>, len: nat) -> bool {
    &&& accept_encoding matches Some(a) && contains_seq(a, "gzip"@)
    &&& compressible_type(
        match content_type {
            Some(c) => c,
            None => Seq::empty(),
        },
    )
    &&& len >= 256
}

/// What gzip compression at the default level makes of some bytes (nothing when
/// the encoder fails).
pub uninterp spec fn gzip_of(data: Seq<u8>) -> Option<Seq<u8>>;

/// `flate2::write::GzEncoder` at `Compression::default()`: writes `data` and
/// finishes; the compressed bytes, or `None` when writing or finishing fails.
#[verifier::external_body]
fn gzip(data: &[u8]) -> (r: Option<Vec<u8>>)
    ensures
        match r {
            Some(v) => gzip_of(data@) == Some(v@),
            None => gzip_of(data@) is None,
        },
{
    let mut encoder = flate2::write::GzEncoder::new(Vec::new(), flate2::Compression::default());
    if encoder.write_all(data).is_err() {
        return None;
    }
    encoder.finish().ok()
}

/// The body sent and whether it is compressed: the gzip form when gzip is wanted
/// and that form is shorter, else the body as it is.
pub open spec fn compressed_spec(accept_encoding: Option<Seq<char>>, content_type: Option<Seq<char>>, body: Seq<u8>) -> (Seq<u8>, bool) {
    if gzip_wanted(accept_encoding, content_type, body.len()) && (gzip_of(body) is Some && gzip_of(body)->0.len() < body.len()) {
        (gzip_of(body)->0, true)
    } else {
        (body, false)
    }
}

/// The body of a response as sent, and whether it is gzip-compressed.
pub fn compress_body(accept_encoding: Option<&str>, content_type: Option<&str>, body: Vec<u8>) -> (r: (Vec<u8>, bool))
    ensures
        (r.0@, r.1) == compressed_spec(opt_text(accept_encoding), opt_text(content_type), body@),
{
    let accepts = match accept_encoding {
        Some(a) => crate::text::str_contains(a, "gzip"),
        None => false,
    };
    if !accepts {
        return (body, false);
    }
    let ct: &str = match content_type {
        Some(c) => c,
        None => "",
    };
    proof {
        reveal_strlit("");
    }
    assert(ct@ == match opt_text(content_type) {
        Some(c) => c,
        None => Seq::<char>::empty(),
    });
    let text = crate::text::str_starts_with(ct, "text/") || crate::text::str_contains(ct, "json")
        || crate::text::str_contains(ct, "javascript") || crate::text::str_contains(ct, "xml")
        || crate::text::str_contains(ct, "yaml");
    if !text || body.len() < 256 {
        return (body, false);
    }
    match gzip(body.as_slice()) {
        Some(c) => if c.len() < body.len() {
            (c, true)
        } else {
            (body, false)
        },
        None => (body, false),
    }
}

// ───────────────────────── paths ─────────────────────────

/// The parts of a path that name something: those that are not empty, `.` or `..`.
pub open spec fn named_parts(path: Seq<char>) -> Seq<Seq<char>> {
    split_spec(path, '/').filter(|p: Seq<char>| p.len() > 0 && p != "."@ && p != ".."@)
}

/// The path rebuilt from its components without any `..`: a root `/` when it is
/// absolute, a leading `.` when it starts with a `.` component, then the named
/// parts joined with `/`.
pub open spec fn lexical_normal(path: Seq<char>) -> Seq<char> {
    let parts = named_parts(path);
    if path.len() > 0 && path[0] == '/' {
        seq!['/'] + crate::text::join_with(parts, '/')
    } else if path == "."@ || starts_with(path, "./"@) {
        if parts.len() == 0 {
            "."@
        } else {
            "./"@ + crate::text::join_with(parts, '/')
        }
    } else {
        crate::text::join_with(parts, '/')
    }
}

/// Path security: no component of a normalized path is `..`, so a path joined
/// onto a directory after normalization cannot climb out of it.
pub proof fn law_normal_path_has_no_parent_step(path: Seq<char>)
    ensures
        forall|i: int| 0 <= i < split_spec(lexical_normal(path), '/').len()
            ==> #[trigger] split_spec(lexical_normal(path), '/')[i] != ".."@,
{
    let keep = |p: Seq<char>| p.len() > 0 && p != "."@ && p != ".."@;
    let all = split_spec(path, '/');
    let parts = named_parts(path);
    assert(parts == all.filter(keep));
    crate::text::lemma_split_pieces_clean(path, '/');
    assert forall|i: int| 0 <= i < parts.len() implies !(#[trigger] parts[i]).contains('/') && parts[i] != ".."@ by {
        all.lemma_filter_pred(keep, i);
        assert(parts.contains(parts[i]));
        all.lemma_filter_contains_rev(keep, parts[i]);
        let k = choose|k: int| 0 <= k < all.len() && all[k] == parts[i];
        assert(!all[k].contains('/'));
    }
    let joined = crate::text::join_with(parts, '/');
    let n = lexical_normal(path);
    assert(".."@.len() == 2 && ".."@[0] == '.' && ".."@[1] == '.') by {
        reveal_strlit("..");
    }
    assert("."@ =~= seq!['.']) by {
        reveal_strlit(".");
    }
    assert("./"@ =~= seq!['.'].push('/')) by {
        reveal_strlit("./");
    }
    let empty = Seq::<char>::empty();
    crate::text::lemma_split_without_sep(empty, '/');
    crate::text::lemma_split_without_sep(seq!['.'], '/');
    if parts.len() >= 1 {
        crate::text::lemma_split_join(parts, '/');
    } else {
        assert(joined =~= empty);
    }
    if path.len() > 0 && path[0] == '/' {
        assert(n =~= empty.push('/') + joined);
        crate::text::lemma_split_concat(empty, '/', joined);
    } else if path == "."@ || starts_with(path, "./"@) {
        if parts.len() > 0 {
            assert(n =~= seq!['.'].push('/') + joined);
            crate::text::lemma_split_concat(seq!['.'], '/', joined);
        }
    }
}

/// A path with every `..` component dropped, so that it cannot climb out of the
/// directory it starts in (the look-up of links on disk comes after).
pub fn normalize_lexical(path: &str) -> (r: String)
    ensures
        r@ == lexical_normal(path@),
{
    let v = chars_of(path);
    let pieces = split_chars(v.as_slice(), '/');
    let ghost all = split_spec(path@, '/');
    let ghost keep = |p: Seq<char>| p.len() > 0 && p != "."@ && p != ".."@;
    let mut joined = String::new();
    let mut count: usize = 0;
    let n = pieces.len();
    let mut i: usize = 0;
    proof {
        reveal_strlit(".");
        reveal_strlit("..");
        reveal(Seq::filter);
        assert(all.take(0) =~= Seq::<Seq<char>>::empty());
    }
    while i < n
        invariant
            n == pieces@.len(),
            n == all.len(),
            all == split_spec(path@, '/'),
            i <= n,
            forall|j: int| 0 <= j < n ==> #[trigger] pieces@[j]@ == all[j],
            keep == (|p: Seq<char>| p.len() > 0 && p != "."@ && p != ".."@),
            count == all.take(i as int).filter(keep).len(),
            joined@ == crate::text::join_with(all.take(i as int).filter(keep), '/'),
        decreases n - i,
    {
        proof {
            reveal(Seq::filter);
            reveal_strlit(".");
            reveal_strlit("..");
        }
        let ghost before = all.take(i as int).filter(keep);
        assert(all.take(i + 1).drop_last() =~= all.take(i as int));
        assert(all.take(i + 1).last() == all[i as int]);
        let piece = &pieces[i];
        let is_dot = piece.len() == 1 && piece[0] == '.';
        let is_dotdot = piece.len() == 2 && piece[0] == '.' && piece[1] == '.';
        assert(is_dot == (piece@ == "."@)) by {
            if piece@ == "."@ {
                assert(piece@[0] == '.');
            }
            if is_dot {
                assert(piece@ =~= "."@);
            }
        }
        assert(is_dotdot == (piece@ == ".."@)) by {
            if piece@ == ".."@ {
                assert(piece@[0] == '.' && piece@[1] == '.');
            }
            if is_dotdot {
                assert(piece@ =~= ".."@);
            }
        }
        if piece.len() > 0 && !is_dot && !is_dotdot {
            let ghost newparts = before.push(all[i as int]);
            assert(newparts.drop_last() =~= before);
            assert(newparts.last() == all[i as int]);
            if count > 0 {
                push_char(&mut joined, '/');
            }
            push_chars(&mut joined, piece.as_slice());
            assert(all.take(i + 1).filter(keep) == before.push(all[i as int]));
            assert(joined@ =~= crate::text::join_with(before.push(all[i as int]), '/'));
            assert(count < usize::MAX) by {
                all.take(i as int).lemma_filter_len(keep);
            }
            count += 1;
        } else {
            assert(all.take(i + 1).filter(keep) == before);
        }
        i += 1;
    }
    assert(all.take(n as int) =~= all);
    assert(all.filter(keep) == named_parts(path@));
    let mut out = String::new();
    if v.len() > 0 && v[0] == '/' {
        push_char(&mut out, '/');
        push_str(&mut out, joined.as_str());
        return out;
    }
    let is_cur = (v.len() == 1 && v[0] == '.') || (v.len() >= 2 && v[0] == '.' && v[1] == '/');
    proof {
        reveal_strlit("./");
    }
    assert(is_cur == (path@ == "."@ || starts_with(path@, "./"@))) by {
        if path@ == "."@ {
            assert(v@[0] == '.');
        }
        if starts_with(path@, "./"@) {
            assert(v@.take(2)[0] == v@[0]);
            assert(v@.take(2)[1] == v@[1]);
        }
        if v@.len() == 1 && v@[0] == '.' {
            assert(v@ =~= "."@);
        }
        if v@.len() >= 2 && v@[0] == '.' && v@[1] == '/' {
            assert(v@.take(2) =~= "./"@);
        }
    }
    if is_cur {
        if count == 0 {
            push_char(&mut out, '.');
            assert(out@ =~= "."@);
        } else {
            push_str(&mut out, "./");
            push_str(&mut out, joined.as_str());
        }
        out
    } else {
        joined
    }
}

// ───────────────────────── WebSocket tunnels ─────────────────────────

/// Whether a request header, by its name in lower case, goes on to the back end
/// of a WebSocket tunnel (all but `transfer-encoding` and the proxy credentials).
pub open spec fn tunnel_keeps(name: Seq<char>) -> bool {
    name != "transfer-encoding"@ && name != "proxy-authenticate"@ && name != "proxy-authorization"@
}

/// The bytes of one header line: the name, `: `, the value and CR LF.
pub open spec fn header_line_bytes(h: (Seq<char>, Seq<u8>)) -> Seq<u8> {
    vstd::utf8::encode_utf8(h.0) + seq![58u8, 32u8] + h.1 + seq![13u8, 10u8]
}

/// The header lines passed on to a tunnel's back end, in order.
pub open spec fn tunnel_header_bytes(h: Seq<(Seq<char>, Seq<u8>)>) -> Seq<u8>
    decreases h.len(),
{
    if h.len() == 0 {
        Seq::empty()
    } else {
        tunnel_header_bytes(h.drop_last()) + if tunnel_keeps(lowercase_of(h.last().0)) {
            header_line_bytes(h.last())
        } else {
            Seq::empty()
        }
    }
}

/// The request that opens a tunnel at the back end: `GET`, the path and query,
/// `HTTP/1.1`, the passed headers, a `Host` header for the back end, and a blank
/// line.
pub open spec fn tunnel_request_spec(path_and_query: Seq<char>, headers: Seq<(Seq<char>, Seq<u8>)>, host: Seq<char>) -> Seq<u8> {
    vstd::utf8::encode_utf8("GET "@ + path_and_query + " HTTP/1.1\r\n"@) + tunnel_header_bytes(headers)
        + vstd::utf8::encode_utf8("Host: "@ + host + "\r\n"@) + seq![13u8, 10u8]
}

fn push_bytes(out: &mut Vec<u8>, b: &[u8])
    ensures
        final(out)@ == old(out)@ + b@,
{
    let n = b.len();
    let mut i: usize = 0;
    while i < n
        invariant
            n == b@.len(),
            i <= n,
            out@ == old(out)@ + b@.take(i as int),
        decreases n - i,
    {
        out.push(b[i]);
        i += 1;
        assert(out@ =~= old(out)@ + b@.take(i as int));
    }
    assert(b@.take(n as int) =~= b@);
}

/// The request that opens a WebSocket tunnel at the back end `host`.
pub fn tunnel_request(path_and_query: &str, headers: &[(String, Vec<u8>)], host: &str) -> (r: Vec<u8>)
    ensures
        r@ == tunnel_request_spec(path_and_query@, crate::proxy::header_views(headers@), host@),
{
    let mut line = String::new();
    push_str(&mut line, "GET ");
    push_str(&mut line, path_and_query);
    push_str(&mut line, " HTTP/1.1\r\n");
    let mut out: Vec<u8> = Vec::new();
    push_bytes(&mut out, line.as_str().as_bytes());
    let ghost hv = crate::proxy::header_views(headers@);
    let ghost head = out@;
    let n = headers.len();
    let mut i: usize = 0;
    while i < n
        invariant
            n == headers@.len(),
            hv == crate::proxy::header_views(headers@),
            i <= n,
            out@ == head + tunnel_header_bytes(hv.take(i as int)),
        decreases n - i,
    {
        assert(hv.take(i + 1).drop_last() =~= hv.take(i as int));
        assert(hv.take(i + 1).last() == hv[i as int]);
        let lower = to_lowercase(headers[i].0.as_str());
        let keep = !(str_eq(lower.as_str(), "transfer-encoding") || str_eq(lower.as_str(), "proxy-authenticate")
            || str_eq(lower.as_str(), "proxy-authorization"));
        if keep {
            let ghost before = out@;
            push_bytes(&mut out, headers[i].0.as_str().as_bytes());
            let sep: [u8; 2] = [58, 32];
            push_bytes(&mut out, &sep);
            push_bytes(&mut out, headers[i].1.as_slice());
            let crlf: [u8; 2] = [13, 10];
            push_bytes(&mut out, &crlf);
            assert(out@ =~= before + header_line_bytes(hv[i as int]));
        }
        i += 1;
    }
    assert(hv.take(n as int) =~= hv);
    let mut host_line = String::new();
    push_str(&mut host_line, "Host: ");
    push_str(&mut host_line, host);
    push_str(&mut host_line, "\r\n");
    push_bytes(&mut out, host_line.as_str().as_bytes());
    let end: [u8; 2] = [13, 10];
    push_bytes(&mut out, &end);
    out
}

/// Whether the first line from a tunnel's back end accepts the upgrade: at least
/// 12 bytes were read and the line holds ` 101 `.
pub fn tunnel_accepted(bytes_read: usize, status_line: &str) -> (b: bool)
    ensures
        b == (bytes_read >= 12 && contains_seq(status_line@, " 101 "@)),
{
    bytes_read >= 12 && crate::text::str_contains(status_line, " 101 ")
}

/// A header line from a tunnel's back end: the name and the value around its
/// first `:`, both trimmed (nothing when there is no `:`).
pub open spec fn tunnel_header_spec(line: Seq<char>) -> Option<(Seq<char>, Seq<char>)> {
    let parts = split_spec(line, ':');
    if parts.len() < 2 {
        None
    } else {
        let name = parts[0];
        Some((trim_spec(name), trim_spec(line.skip(name.len() as int + 1))))
    }
}

/// Splits a header line from a tunnel's back end into its name and value.
pub fn tunnel_header(line: &str) -> (r: Option<(String, String)>)
    ensures
        match tunnel_header_spec(line@) {
            Some((n, v)) => r matches Some(p) && p.0@ == n && p.1@ == v,
            None => r is None,
        },
{
    let v = chars_of(line);
    let parts = split_chars(v.as_slice(), ':');
    if parts.len() < 2 {
        return None;
    }
    let name = &parts[0];
    assert(parts@[0]@ == split_spec(v@, ':')[0]);
    proof {
        lemma_first_piece_len(v@, ':');
    }
    assert(name@.len() < v@.len());
    let rest = sub_chars(v.as_slice(), name.len() + 1, v.len());
    assert(rest@ =~= v@.skip(name@.len() as int + 1));
    let tn = trim_chars(name.as_slice());
    let tv = trim_chars(rest.as_slice());
    Some((string_from_chars(tn.as_slice()), string_from_chars(tv.as_slice())))
}

/// When a text holds a separator, its first piece ends just before it.
proof fn lemma_first_piece_len(s: Seq<char>, c: char)
    requires
        split_spec(s, c).len() >= 2,
    ensures
        split_spec(s, c)[0].len() < s.len(),
        s[split_spec(s, c)[0].len() as int] == c,
    decreases s.len(),
{
    let t = s.drop_last();
    crate::text::lemma_split_nonempty(t, c);
    if s.last() == c && split_spec(t, c).len() == 1 {
        lemma_single_piece(t, c);
        assert(split_spec(s, c)[0] == t);
    } else {
        lemma_first_piece_len(t, c);
        assert(split_spec(s, c)[0] == split_spec(t, c)[0]);
        assert(s[split_spec(t, c)[0].len() as int] == t[split_spec(t, c)[0].len() as int]);
    }
}

/// A text that splits into one piece is that piece.
proof fn lemma_single_piece(s: Seq<char>, c: char)
    requires
        split_spec(s, c).len() == 1,
    ensures
        split_spec(s, c)[0] == s,
    decreases s.len(),
{
    if s.len() > 0 {
        let t = s.drop_last();
        crate::text::lemma_split_nonempty(t, c);
        lemma_single_piece(t, c);
        assert(t.push(s.last()) =~= s);
    }
}

// ───────────────────────── directory listings ─────────────────────────

/// Whether `a` comes before `b` in the order of `str`: character by character
/// by code point, a proper prefix first.
pub open spec fn text_lt(a: Seq<char>, b: Seq<char>) -> bool
    decreases a.len(),
{
    if a.len() == 0 {
        b.len() > 0
    } else if b.len() == 0 {
        false
    } else if a[0] != b[0] {
        (a[0] as u32) < (b[0] as u32)
    } else {
        text_lt(a.drop_first(), b.drop_first())
    }
}

proof fn lemma_text_lt_transitive(a: Seq<char>, b: Seq<char>, c: Seq<char>)
    requires
        text_lt(a, b),
        text_lt(b, c),
    ensures
        text_lt(a, c),
    decreases a.len(),
{
    if a.len() > 0 && b.len() > 0 && c.len() > 0 && a[0] == b[0] && b[0] == c[0] {
        lemma_text_lt_transitive(a.drop_first(), b.drop_first(), c.drop_first());
    }
}

/// Whether `a` comes before `b`.
fn text_less(a: &[char], b: &[char]) -> (r: bool)
    ensures
        r == text_lt(a@, b@),
{
    let n = a.len();
    let m = b.len();
    let mut i: usize = 0;
    assert(a@.skip(0) =~= a@);
    assert(b@.skip(0) =~= b@);
    while i < n && i < m && a[i] == b[i]
        invariant
            n == a@.len(),
            m == b@.len(),
            i <= n,
            i <= m,
            text_lt(a@, b@) == text_lt(a@.skip(i as int), b@.skip(i as int)),
        decreases n - i,
    {
        assert(a@.skip(i as int).drop_first() =~= a@.skip(i + 1));
        assert(b@.skip(i as int).drop_first() =~= b@.skip(i + 1));
        i += 1;
    }
    if i == n {
        assert(a@.skip(i as int).len() == 0);
        i < m
    } else if i == m {
        false
    } else {
        assert(a@.skip(i as int)[0] == a@[i as int]);
        assert(b@.skip(i as int)[0] == b@[i as int]);
        (a[i] as u32) < (b[i] as u32)
    }
}

/// The entries of a listing, by name and whether each is a directory.
pub open spec fn entry_views(v: Seq<(String, bool)>) -> Seq<(Seq<char>, bool)> {
    v.map_values(|e: (String, bool)| (e.0@, e.1))
}

/// No entry comes after one that it should precede.
pub open spec fn sorted_by_name(v: Seq<(Seq<char>, bool)>) -> bool {
    forall|i: int, j: int| 0 <= i < j < v.len() ==> !text_lt(#[trigger] v[j].0, #[trigger] v[i].0)
}

/// The entries in name order (the sort is stable).
pub fn sort_entries(entries: Vec<(String, bool)>) -> (r: Vec<(String, bool)>)
    ensures
        sorted_by_name(entry_views(r@)),
        r@.to_multiset() == entries@.to_multiset(),
{
    broadcast use vstd::seq_lib::to_multiset_insert;
    let mut out: Vec<(String, bool)> = Vec::new();
    let mut rest = entries;
    let ghost orig = rest@;
    let mut taken: Vec<bool> = Vec::new();
    let n = rest.len();
    let mut k: usize = 0;
    assert(orig.take(0) =~= Seq::<(String, bool)>::empty());
    while k < n
        invariant
            n == rest@.len(),
            rest@ == orig,
            k <= n,
            sorted_by_name(entry_views(out@)),
            out@.to_multiset() == orig.take(k as int).to_multiset(),
        decreases n - k,
    {
        let name = chars_of(rest[k].0.as_str());
        let item = (rest[k].0.clone(), rest[k].1);
        assert(item == orig[k as int]);
        let m = out.len();
        let mut pos: usize = 0;
        let mut found = false;
        while pos < m && !found
            invariant
                m == out@.len(),
                pos <= m,
                name@ == item.0@,
                found ==> pos < m && text_lt(item.0@, out@[pos as int].0@),
                forall|t: int| 0 <= t < pos ==> !text_lt(item.0@, #[trigger] out@[t].0@),
            decreases m - pos + if found { 0int } else { 1int },
        {
            let other = chars_of(out[pos].0.as_str());
            if text_less(name.as_slice(), other.as_slice()) {
                found = true;
            } else {
                pos += 1;
            }
        }
        let ghost before = out@;
        proof {
            assert forall|t: int| pos <= t < m implies !text_lt(#[trigger] before[t].0@, item.0@) by {
                if pos < m {
                    assert(entry_views(before)[pos as int].0 == before[pos as int].0@);
                    assert(entry_views(before)[t].0 == before[t].0@);
                    if t > pos {
                        assert(!text_lt(entry_views(before)[t].0, entry_views(before)[pos as int].0));
                    }
                    if text_lt(before[t].0@, item.0@) {
                        if t == pos {
                            lemma_text_lt_asym(item.0@, before[t].0@);
                        } else {
                            lemma_text_lt_transitive(before[t].0@, item.0@, before[pos as int].0@);
                        }
                    }
                }
            }
        }
        out.insert(pos, item);
        proof {
            let ev = entry_views(out@);
            assert forall|i: int, j: int| 0 <= i < j < ev.len() implies !text_lt(#[trigger] ev[j].0, #[trigger] ev[i].0) by {
                assert(ev[i].0 == out@[i].0@);
                assert(ev[j].0 == out@[j].0@);
                let bi = if i < pos { i } else { i - 1 };
                let bj = if j < pos { j } else { j - 1 };
                if i != pos && j != pos {
                    assert(out@[i] == before[bi]);
                    assert(out@[j] == before[bj]);
                    assert(entry_views(before)[bi].0 == before[bi].0@);
                    assert(entry_views(before)[bj].0 == before[bj].0@);
                } else if i == pos {
                    assert(out@[j] == before[bj]);
                } else {
                    assert(out@[i] == before[bi]);
                }
            }
            assert(orig.take(k + 1) =~= orig.take(k as int).push(orig[k as int]));
            vstd::seq_lib::to_multiset_build(orig.take(k as int), orig[k as int]);
            vstd::seq_lib::to_multiset_insert(before, pos as int, item);
            assert(out@.to_multiset() == orig.take(k + 1).to_multiset());
        }
        k += 1;
    }
    assert(orig.take(n as int) =~= orig);
    out
}

proof fn lemma_text_lt_asym(a: Seq<char>, b: Seq<char>)
    requires
        text_lt(a, b),
    ensures
        !text_lt(b, a),
    decreases a.len(),
{
    if a.len() > 0 && b.len() > 0 && a[0] == b[0] {
        lemma_text_lt_asym(a.drop_first(), b.drop_first());
    }
}

/// The head of a listing page.
pub open spec fn listing_head() -> Seq<char> {
    "<!DOCTYPE html><html><head><meta charset='utf-8'><title>Directory Listing</title>"@
        + "<style>body{font-family:sans-serif;margin:40px auto;max-width:800px}"@
        + "a{color:#0366d6;text-decoration:none}a:hover{text-decoration:underline}"@
        + "td{padding:4px 16px}tr:nth-child(even){background:#f6f8fa}</style></head>"@
        + "<body><h1>Directory Listing</h1><hr><table>"@ + "<tr><th>Name</th><th>Type</th></tr>"@
}

/// The row of one entry: an icon, a link to it (with a trailing `/` for a
/// directory) and its kind.
pub open spec fn listing_row(e: (Seq<char>, bool)) -> Seq<char> {
    let icon = if e.1 {
        "📁"@
    } else {
        "📄"@
    };
    let suffix = if e.1 {
        "/"@
    } else {
        ""@
    };
    "<tr><td>"@ + icon + " <a href='./"@ + e.0 + suffix + "'>"@ + e.0 + suffix + "</a></td><td>"@
        + if e.1 {
        "directory"@
    } else {
        "file"@
    } + "</td></tr>"@
}

/// The rows of the entries, in order.
pub open spec fn listing_rows(es: Seq<(Seq<char>, bool)>) -> Seq<char>
    decreases es.len(),
{
    if es.len() == 0 {
        Seq::empty()
    } else {
        listing_rows(es.drop_last()) + listing_row(es.last())
    }
}

/// The page listing a directory whose entries are `es`, in name order.
pub open spec fn listing_spec(es: Seq<(Seq<char>, bool)>) -> Seq<char> {
    listing_head() + listing_rows(es) + "</table><hr></body></html>"@
}

fn push_listing_row(html: &mut String, name: &str, is_dir: bool)
    ensures
        final(html)@ == old(html)@ + listing_row((name@, is_dir)),
{
    push_str(html, "<tr><td>");
    if is_dir {
        push_str(html, "📁");
    } else {
        push_str(html, "📄");
    }
    push_str(html, " <a href='./");
    push_str(html, name);
    if is_dir {
        push_str(html, "/");
    } else {
        push_str(html, "");
    }
    push_str(html, "'>");
    push_str(html, name);
    if is_dir {
        push_str(html, "/");
    } else {
        push_str(html, "");
    }
    push_str(html, "</a></td><td>");
    if is_dir {
        push_str(html, "directory");
    } else {
        push_str(html, "file");
    }
    push_str(html, "</td></tr>");
    assert(final(html)@ =~= old(html)@ + listing_row((name@, is_dir)));
}

/// The HTML page that lists a directory: its entries sorted by name, one row each.
pub fn listing_html(entries: Vec<(String, bool)>) -> (r: String)
    ensures
        exists|sorted: Seq<(String, bool)>| #![trigger sorted.to_multiset()]
            sorted.to_multiset() == entries@.to_multiset() && sorted_by_name(entry_views(sorted))
            && r@ == listing_spec(entry_views(sorted)),
{
    let sorted = sort_entries(entries);
    let mut html = String::new();
    push_str(&mut html, "<!DOCTYPE html><html><head><meta charset='utf-8'><title>Directory Listing</title>");
    push_str(&mut html, "<style>body{font-family:sans-serif;margin:40px auto;max-width:800px}");
    push_str(&mut html, "a{color:#0366d6;text-decoration:none}a:hover{text-decoration:underline}");
    push_str(&mut html, "td{padding:4px 16px}tr:nth-child(even){background:#f6f8fa}</style></head>");
    push_str(&mut html, "<body><h1>Directory Listing</h1><hr><table>");
    push_str(&mut html, "<tr><th>Name</th><th>Type</th></tr>");
    assert(html@ =~= listing_head());
    let ghost ev = entry_views(sorted@);
    let n = sorted.len();
    let mut i: usize = 0;
    while i < n
        invariant
            n == sorted@.len(),
            ev == entry_views(sorted@),
            i <= n,
            html@ == listing_head() + listing_rows(ev.take(i as int)),
        decreases n - i,
    {
        assert(ev.take(i + 1).drop_last() =~= ev.take(i as int));
        assert(ev.take(i + 1).last() == ev[i as int]);
        let ghost before = html@;
        push_listing_row(&mut html, sorted[i].0.as_str(), sorted[i].1);
        assert(html@ =~= before + listing_row(ev[i as int]));
        i += 1;
    }
    assert(ev.take(n as int) =~= ev);
    push_str(&mut html, "</table><hr></body></html>");
    assert(html@ =~= listing_spec(ev));
    html
}

// ───────────────────────── dispatch ─────────────────────────

/// What a request that no location rule takes turns into.
#[derive(Clone, Copy, Debug, PartialEq, Eq, Structural)]
pub enum RegularAction {
    /// Run the CGI script the path names (a `HEAD` runs as a `GET`).
    RunCgi,
    /// Serve the file or directory the path names.
    ServeFile,
    /// Refuse an upload that is too large (413).
    TooLarge,
    /// Refuse the method (405).
    NotAllowed,
    /// Store the body as an upload.
    StoreUpload,
    /// Delete the file the path names.
    Delete,
}

/// The action for a request that no location rule takes: `GET` and `HEAD` run a
/// CGI script or serve a file; `POST` runs a script or stores an upload not too
/// large; `PUT` and `PATCH` do the same when uploads are allowed; `DELETE`
/// deletes when deleting is allowed; other methods are refused.
pub open spec fn regular_action_spec(method: Seq<char>, has_cgi: bool, too_large: bool, allow_upload: bool, allow_delete: bool) -> RegularAction {
    if method == "GET"@ || method == "HEAD"@ {
        if has_cgi {
            RegularAction::RunCgi
        } else {
            RegularAction::ServeFile
        }
    } else if method == "POST"@ {
        if has_cgi {
            RegularAction::RunCgi
        } else if too_large {
            RegularAction::TooLarge
        } else {
            RegularAction::StoreUpload
        }
    } else if method == "PUT"@ || method == "PATCH"@ {
        if !allow_upload {
            RegularAction::NotAllowed
        } else if has_cgi {
            RegularAction::RunCgi
        } else if too_large {
            RegularAction::TooLarge
        } else {
            RegularAction::StoreUpload
        }
    } else if method == "DELETE"@ {
        if allow_delete {
            RegularAction::Delete
        } else {
            RegularAction::NotAllowed
        }
    } else {
        RegularAction::NotAllowed
    }
}

/// The action for a request that no location rule takes.
pub fn regular_action(method: &str, has_cgi: bool, too_large: bool, allow_upload: bool, allow_delete: bool) -> (a: RegularAction)
    ensures
        a == regular_action_spec(method@, has_cgi, too_large, allow_upload, allow_delete),
{
    if str_eq(method, "GET") || str_eq(method, "HEAD") {
        if has_cgi {
            RegularAction::RunCgi
        } else {
            RegularAction::ServeFile
        }
    } else if str_eq(method, "POST") {
        if has_cgi {
            RegularAction::RunCgi
        } else if too_large {
            RegularAction::TooLarge
        } else {
            RegularAction::StoreUpload
        }
    } else if str_eq(method, "PUT") || str_eq(method, "PATCH") {
        if !allow_upload {
            RegularAction::NotAllowed
        } else if has_cgi {
            RegularAction::RunCgi
        } else if too_large {
            RegularAction::TooLarge
        } else {
            RegularAction::StoreUpload
        }
    } else if str_eq(method, "DELETE") {
        if allow_delete {
            RegularAction::Delete
        } else {
            RegularAction::NotAllowed
        }
    } else {
        RegularAction::NotAllowed
    }
}

// ───────────────────────── per-site state ─────────────────────────

/// A back end of a location by URL and weight.
pub open spec fn location_targets(loc: LocationConfig) -> Seq<(Seq<char>, u32)> {
    loc.load_balance_targets@.map_values(|t: crate::config::LoadBalanceTarget| (t.url@, t.weight))
}

/// The back ends of each load-balanced path among the first `k` locations: the
/// last location with a path and back ends decides.
pub open spec fn balanced_paths(locs: Seq<LocationConfig>, k: nat) -> Map<Seq<char>, Seq<(Seq<char>, u32)>>
    decreases k,
{
    if k == 0 {
        Map::empty()
    } else {
        let m = balanced_paths(locs, (k - 1) as nat);
        let loc = locs[k - 1];
        if loc.load_balance_targets@.len() > 0 {
            m.insert(loc.path@, location_targets(loc))
        } else {
            m
        }
    }
}

/// The request-independent parts of serving a site: its rewrite rules, its rate
/// limiter, session store and file cache when configured, a load balancer per
/// balanced path, and whether a proxy client is needed.
pub struct SiteState {
    pub rewrite: crate::rewrite::RewriteEngine,
    pub cache: Option<crate::cache::FileCache>,
    pub limiter: Option<crate::rate_limiter::RateLimiter>,
    pub sessions: Option<crate::session::SessionStore>,
    pub balancers: crate::strmap::StrMap<crate::load_balancer::LoadBalancer>,
    pub proxy_needed: bool,
}

fn copy_texts(v: &Vec<String>) -> (r: Vec<String>)
    ensures
        r@ == v@,
{
    let mut out: Vec<String> = Vec::new();
    let mut i: usize = 0;
    while i < v.len()
        invariant
            i <= v@.len(),
            out@ == v@.take(i as int),
        decreases v@.len() - i,
    {
        out.push(v[i].clone());
        i += 1;
        assert(out@ =~= v@.take(i as int));
    }
    assert(v@.take(v@.len() as int) =~= v@);
    out
}

fn balance_targets(loc: &LocationConfig) -> (r: Vec<crate::load_balancer::BalanceTarget>)
    ensures
        crate::load_balancer::targets_view(r@) == location_targets(*loc),
{
    let mut out: Vec<crate::load_balancer::BalanceTarget> = Vec::new();
    let ts = &loc.load_balance_targets;
    let mut i: usize = 0;
    while i < ts.len()
        invariant
            ts == &loc.load_balance_targets,
            i <= ts@.len(),
            crate::load_balancer::targets_view(out@) == location_targets(*loc).take(i as int),
        decreases ts@.len() - i,
    {
        let ghost before = out@;
        out.push(crate::load_balancer::BalanceTarget { url: ts[i].url.clone(), weight: ts[i].weight });
        assert(crate::load_balancer::targets_view(out@) =~= crate::load_balancer::targets_view(before).push(location_targets(*loc)[i as int]));
        i += 1;
        assert(crate::load_balancer::targets_view(out@) =~= location_targets(*loc).take(i as int));
    }
    assert(location_targets(*loc).take(ts@.len() as int) =~= location_targets(*loc));
    out
}

impl SiteState {
    /// The state a site starts with. Each location's back-end weights must add
    /// up within 32 bits.
    pub fn new(config: &crate::config::ServerConfig) -> (r: SiteState)
        requires
            config.per_ip_rates.wf(),
            forall|i: int| 0 <= i < config.location@.len() ==> crate::load_balancer::total_weight(
                #[trigger] location_targets(config.location@[i]),
            ) <= u32::MAX,
        ensures
            r.rewrite.rules() == crate::rewrite::valid_rules(config.rewrite@),
            match config.rate_limit {
                Some(rl) => r.limiter matches Some(l) && l.fresh_from(
                    rl.enabled,
                    rl.requests_per_second,
                    rl.burst_size,
                    rl.connections_per_second,
                    rl.max_concurrent_connections,
                    rl.ban_duration_seconds,
                    rl.ban_threshold,
                    texts(config.blacklist@),
                    config.per_ip_rates@,
                ),
                None => r.limiter is None,
            },
            match config.session {
                Some(sc) if sc.enabled => r.sessions matches Some(st) && st.wf() && st.cookie() == sc.cookie_name@
                    && st.ttl() == sc.ttl && st.sessions() == Map::<Seq<char>, crate::session::Session>::empty(),
                _ => r.sessions is None,
            },
            match r.cache {
                Some(c) => config.cache_enabled && c.wf() && c.contents().len() == 0 && c.limit()
                    == config.cache_max_size_bytes && c.accounted() == 0,
                None => !config.cache_enabled,
            },
            r.balancers.wf(),
            r.balancers@.dom() == balanced_paths(config.location@, config.location@.len()).dom(),
            forall|p: Seq<char>| #[trigger] r.balancers@.contains_key(p) ==> r.balancers@[p].rotation()
                == crate::load_balancer::rotation_of(balanced_paths(config.location@, config.location@.len())[p])
                && r.balancers@[p].position() == 0,
            r.proxy_needed == ((exists|i: int| 0 <= i < config.location@.len() && #[trigger] config.location@[i].proxy_pass is Some)
                || r.balancers@.dom().len() > 0),
    {
        let rewrite = crate::rewrite::RewriteEngine::new(config.rewrite.as_slice());
        let limiter = match &config.rate_limit {
            Some(rl) => Some(crate::rate_limiter::RateLimiter::new_full(
                rl.enabled,
                rl.requests_per_second,
                rl.burst_size,
                rl.connections_per_second,
                rl.max_concurrent_connections,
                rl.ban_duration_seconds,
                rl.ban_threshold,
                copy_texts(&config.blacklist),
                config.per_ip_rates.copy_map(),
            )),
            None => None,
        };
        let sessions = match &config.session {
            Some(sc) => if sc.enabled {
                Some(crate::session::SessionStore::new(sc.cookie_name.as_str(), sc.ttl))
            } else {
                None
            },
            None => None,
        };
        let mut balancers: crate::strmap::StrMap<crate::load_balancer::LoadBalancer> = crate::strmap::StrMap::new();
        let mut has_proxy = false;
        let locs = &config.location;
        let n = locs.len();
        let mut i: usize = 0;
        while i < n
            invariant
                locs == &config.location,
                n == locs@.len(),
                i <= n,
                balancers.wf(),
                forall|j: int| 0 <= j < locs@.len() ==> crate::load_balancer::total_weight(
                    #[trigger] location_targets(locs@[j]),
                ) <= u32::MAX,
                balancers@.dom() == balanced_paths(locs@, i as nat).dom(),
                forall|p: Seq<char>| #[trigger] balancers@.contains_key(p) ==> balancers@[p].rotation()
                    == crate::load_balancer::rotation_of(balanced_paths(locs@, i as nat)[p])
                    && balancers@[p].position() == 0,
                has_proxy == exists|j: int| 0 <= j < i && #[trigger] locs@[j].proxy_pass is Some,
            decreases n - i,
        {
            let loc = &locs[i];
            if loc.proxy_pass.is_some() {
                has_proxy = true;
            }
            if loc.load_balance_targets.len() > 0 {
                let targets = balance_targets(loc);
                let lb = crate::load_balancer::LoadBalancer::new(targets);
                balancers.insert(loc.path.clone(), lb);
            }
            proof {
                let m = balanced_paths(locs@, i as nat);
                assert(balanced_paths(locs@, (i + 1) as nat) == if locs@[i as int].load_balance_targets@.len() > 0 {
                    m.insert(locs@[i as int].path@, location_targets(locs@[i as int]))
                } else {
                    m
                });
            }
            i += 1;
        }
        let count = balancers.len();
        let cache = if config.cache_enabled {
            Some(crate::cache::FileCache::new(config.cache_max_size_bytes))
        } else {
            None
        };
        SiteState { rewrite, cache, limiter, sessions, balancers, proxy_needed: has_proxy || count > 0 }
    }
}


// ───────────────────────── routing ─────────────────────────

/// Where a request goes once it has been let in and its path rewritten.
#[derive(Clone, Debug, PartialEq, Eq)]
pub enum Route {
    /// The path is forbidden (403).
    Forbidden,
    /// The load balancer of the location rule with this index.
    Balanced(usize),
    /// The `proxy_pass` back end of the location rule with this index.
    Proxy(usize),
    /// A proxying rule matched, but there is no proxy client (502).
    ProxyMissing,
    /// The CGI program of the location rule with this index, on this file.
    Cgi(usize, String),
    /// This file, under the root of the location rule with this index.
    File(usize, String),
    /// The site's own handling of the path.
    Regular,
}

/// The route that the location rule `loc`, at index `i`, gives `path`: its load
/// balancer when one is kept for its path, else its back end (when a proxy client
/// exists), else the file under its own root (run as CGI when it has a CGI
/// program), else the site's own handling.
pub open spec fn location_route(r: Route, loc: LocationConfig, i: int, balanced: bool, path: Seq<char>, has_client: bool) -> bool {
    if balanced {
        r == Route::Balanced(i as usize)
    } else if loc.proxy_pass is Some {
        if has_client {
            r == Route::Proxy(i as usize)
        } else {
            r == Route::ProxyMissing
        }
    } else if loc.root is Some {
        let file = crate::paths::join_spec(loc.root->0@, location_relative(path, loc.path@));
        if loc.cgi is Some {
            r matches Route::Cgi(k, f) && k == i && f@ == file
        } else {
            r matches Route::File(k, f) && k == i && f@ == file
        }
    } else {
        r == Route::Regular
    }
}

proof fn lemma_best_location_unique(locs: Seq<LocationConfig>, path: Seq<char>, need_proxy: bool, i: int, k: int)
    requires
        best_location(locs, path, need_proxy, i),
        best_location(locs, path, need_proxy, k),
    ensures
        i == k,
{
    assert(location_fits(locs[k], path, need_proxy));
    assert(location_fits(locs[i], path, need_proxy));
}

impl SiteState {
    /// Where a request for `final_path` goes: when no location rule proxies and
    /// the path is forbidden, nowhere; else by the location rule that serves the
    /// path (see `location_route`), or the site's own handling when none does.
    pub fn route(&self, config: &crate::config::ServerConfig, final_path: &str, has_proxy_client: bool) -> (r: Route)
        requires
            self.balancers.wf(),
        ensures
            !any_reverse_proxy(config.location@) && path_forbidden(
                final_path@,
                texts(config.forbidden_dirs@),
                texts(config.forbidden_files@),
            ) ==> r == Route::Forbidden,
            any_reverse_proxy(config.location@) ==> r != Route::Forbidden,
            !(!any_reverse_proxy(config.location@) && path_forbidden(
                final_path@,
                texts(config.forbidden_dirs@),
                texts(config.forbidden_files@),
            )) ==> {
                &&& (forall|j: int| 0 <= j < config.location@.len() ==> !location_fits(
                    #[trigger] config.location@[j],
                    final_path@,
                    false,
                )) ==> r == Route::Regular
                &&& (exists|j: int| 0 <= j < config.location@.len() && location_fits(
                    #[trigger] config.location@[j],
                    final_path@,
                    false,
                )) ==> exists|i: int| #[trigger] best_location(config.location@, final_path@, false, i)
                &&& forall|i: int| #[trigger] best_location(config.location@, final_path@, false, i) ==> location_route(
                    r,
                    config.location@[i],
                    i,
                    self.balancers@.contains_key(config.location@[i].path@),
                    final_path@,
                    has_proxy_client,
                )
            },
    {
        if !has_reverse_proxy(config.location.as_slice()) && is_path_forbidden(
            final_path,
            config.forbidden_dirs.as_slice(),
            config.forbidden_files.as_slice(),
        ) {
            return Route::Forbidden;
        }
        match match_location(config.location.as_slice(), final_path, false) {
            None => Route::Regular,
            Some(i) => {
                proof {
                    assert forall|k: int| #[trigger] best_location(config.location@, final_path@, false, k) implies k
                        == i by {
                        lemma_best_location_unique(config.location@, final_path@, false, i as int, k);
                    }
                }
                let loc = &config.location[i];
                if self.balancers.contains_key(loc.path.as_str()) {
                    Route::Balanced(i)
                } else if loc.proxy_pass.is_some() {
                    if has_proxy_client {
                        Route::Proxy(i)
                    } else {
                        Route::ProxyMissing
                    }
                } else {
                    match &loc.root {
                        Some(root) => {
                            let rel = relative_to_location(final_path, loc.path.as_str());
                            let file = crate::paths::join_path(root.as_str(), rel.as_str());
                            if loc.cgi.is_some() {
                                Route::Cgi(i, file)
                            } else {
                                Route::File(i, file)
                            }
                        },
                        None => Route::Regular,
                    }
                }
            },
        }
    }
}

impl SiteState {
    /// Screening `ip` at `now` answers `r` and takes the state from `self` to
    /// `after`: without a limiter nothing happens; with one, a block look-up comes
    /// first, and unless it blocks (403), a request check follows, whose refusal
    /// answers 429. Only the limiter changes.
    pub open spec fn screened_at(&self, after: SiteState, ip: Seq<char>, now: u128, r: Option<u16>) -> bool {
        &&& after.rewrite == self.rewrite
        &&& after.cache == self.cache
        &&& after.sessions == self.sessions
        &&& after.balancers == self.balancers
        &&& after.proxy_needed == self.proxy_needed
        &&& match self.limiter {
            None => r is None && after.limiter is None,
            Some(l) => after.limiter matches Some(l2) && exists|mid: crate::rate_limiter::RateLimiter, b: bool|
                {
                    &&& #[trigger] l.block_lookup_at(mid, ip, now, b)
                    &&& b ==> r == Some(403u16) && l2 == mid
                    &&& !b ==> mid.request_check_at(l2, ip, now, r is None) && (r is None || r == Some(
                        429u16,
                    ))
                },
        }
    }
}

impl SiteState {
    /// Screens the client at the socket address `peer` at `now` with the site's
    /// rate limiter (nothing happens without one), by its IP address (see
    /// `peer_ip`): 403 when the limiter is on and the IP is blocked, else 429 when
    /// the limiter refuses the request (see `RateLimiter::check_at`), else `None`.
    /// The limiter is consulted as `is_blocked_at` and then, unless blocked,
    /// `check_at` consult it; the rest of the state is left alone.
    pub fn screen_client_at(&mut self, peer: &str, now: u128) -> (r: Option<u16>)
        requires
            old(self).limiter matches Some(l) ==> l.wf(),
        ensures
            final(self).rewrite == old(self).rewrite,
            final(self).cache == old(self).cache,
            final(self).sessions == old(self).sessions,
            final(self).balancers == old(self).balancers,
            final(self).proxy_needed == old(self).proxy_needed,
            match old(self).limiter {
                None => r is None && final(self).limiter is None,
                Some(l) => final(self).limiter matches Some(l2) && {
                    &&& l2.wf()
                    &&& l2.same_settings(&l)
                    &&& !l.is_enabled() ==> r is None && l2.same_state(&l)
                    &&& l.is_enabled() && l.blocked(peer_ip(peer@), now) ==> r == Some(403u16)
                    &&& l.is_enabled() && !l.blocked(peer_ip(peer@), now) ==> r == (if l.white_list().contains(peer_ip(peer@))
                        || l.request_attempt(peer_ip(peer@), now).1 {
                        None
                    } else {
                        Some(429u16)
                    })
                },
            },
            old(self).screened_at(*final(self), peer_ip(peer@), now, r),
    {
        match self.limiter.take() {
            None => None,
            Some(mut l) => {
                let client = client_ip(peer);
                let ip = client.as_str();
                let ghost l0 = l;
                let blocked = l.is_blocked_at(ip, now);
                let ghost l1 = l;
                assert(l0.block_lookup_at(l1, peer_ip(peer@), now, blocked));
                let r = if blocked {
                    Some(403u16)
                } else {
                    let ok = l.check_at(ip, now);
                    proof {
                        if l0.is_enabled() {
                            assert(l1.request_attempt(peer_ip(peer@), now) == l0.request_attempt(peer_ip(peer@), now));
                        }
                        assert(l1.request_check_at(l, peer_ip(peer@), now, ok));
                    }
                    if ok {
                        None
                    } else {
                        Some(429u16)
                    }
                };
                self.limiter = Some(l);
                r
            },
        }
    }

    /// Screens a client now (see `screen_client_at`): without a limiter, or with
    /// one that is off, the client passes.
    pub fn screen_client(&mut self, peer: &str) -> (r: Option<u16>)
        requires
            old(self).limiter matches Some(l) ==> l.wf(),
        ensures
            final(self).rewrite == old(self).rewrite,
            final(self).cache == old(self).cache,
            final(self).sessions == old(self).sessions,
            final(self).balancers == old(self).balancers,
            final(self).proxy_needed == old(self).proxy_needed,
            match old(self).limiter {
                None => r is None && final(self).limiter is None,
                Some(l) => final(self).limiter matches Some(l2) && l2.wf() && l2.same_settings(&l) && (
                !l.is_enabled() ==> r is None && l2.same_state(&l)),
            },
            exists|now: u128| #[trigger] old(self).screened_at(*final(self), peer_ip(peer@), now, r),
    {
        let now: u128 = match &self.limiter {
            Some(l) => l.clock_nanos(),
            None => 0,
        };
        let r = self.screen_client_at(peer, now);
        assert(old(self).screened_at(*self, peer_ip(peer@), now, r));
        r
    }
}

/// How a request is let in, or turned away, before it is routed.
#[derive(Clone, Copy, Debug, PartialEq, Eq, Structural)]
pub enum Admission {
    /// `TRACE` or `CONNECT` (405).
    MethodNotAllowed,
    /// A body above `MAX_BODY` (413).
    TooLarge,
    /// The client's IP is blocked (403).
    Blocked,
    /// The client's IP is over its request rate (429).
    TooManyRequests,
    /// The `Host` header names none of the site's domains (403).
    HostNotAllowed,
    /// An `OPTIONS` request: the CORS preflight answer (204).
    Preflight,
    /// The request goes on to rewriting and routing.
    Proceed,
}

impl SiteState {
    /// Letting a request in takes the state from `self` to `after` and answers
    /// `r`, checking in this order: the method and the body size (nothing
    /// changes), then the client at the socket address `peer`, screened by its IP
    /// at some time `now` (see `screened_at`), then the `Host` header, then the
    /// session side is opened (see `session_opened`) and an `OPTIONS` request is
    /// answered as a preflight.
    pub open spec fn admitted_as(
        &self,
        after: SiteState,
        config: crate::config::ServerConfig,
        method: Seq<char>,
        body_len: u64,
        peer: Seq<char>,
        host: Option<Seq<char>>,
        cookie: Option<Seq<char>>,
        r: Admission,
    ) -> bool {
        if method == "TRACE"@ || method == "CONNECT"@ {
            r == Admission::MethodNotAllowed && after == *self
        } else if body_len > MAX_BODY {
            r == Admission::TooLarge && after == *self
        } else {
            exists|mid: SiteState, now: u128, s: Option<u16>|
                {
                    &&& #[trigger] self.screened_at(mid, peer_ip(peer), now, s)
                    &&& if s == Some(403u16) {
                        r == Admission::Blocked && after == mid
                    } else if s is Some {
                        r == Admission::TooManyRequests && after == mid
                    } else if !host_allowed(config.allow_ip_access, texts(config.domains@), host) {
                        r == Admission::HostNotAllowed && after == mid
                    } else {
                        &&& mid.session_opened(after, cookie)
                        &&& r == if method == "OPTIONS"@ {
                            Admission::Preflight
                        } else {
                            Admission::Proceed
                        }
                    }
                }
        }
    }

    /// Lets a request in or turns it away (see `admitted_as`).
    pub fn let_in(
        &mut self,
        config: &crate::config::ServerConfig,
        method: &str,
        body_len: u64,
        peer: &str,
        host: Option<&str>,
        cookie: Option<&str>,
    ) -> (r: Admission)
        requires
            old(self).limiter matches Some(l) ==> l.wf(),
            old(self).sessions matches Some(st) ==> st.wf(),
        ensures
            old(self).admitted_as(*final(self), *config, method@, body_len, peer@, opt_text(host), opt_text(cookie), r),
    {
        proof {
            reveal_strlit("TRACE");
            reveal_strlit("CONNECT");
            reveal_strlit("OPTIONS");
        }
        match request_refusal(method, body_len) {
            Some(405) => return Admission::MethodNotAllowed,
            Some(_) => return Admission::TooLarge,
            None => {},
        }
        let ghost s0 = *self;
        let screened = self.screen_client(peer);
        let ghost mid = *self;
        let ghost now = choose|now: u128| s0.screened_at(mid, peer_ip(peer@), now, screened);
        assert(s0.screened_at(mid, peer_ip(peer@), now, screened));
        match screened {
            Some(403) => return Admission::Blocked,
            Some(_) => return Admission::TooManyRequests,
            None => {},
        }
        if !is_host_allowed(config.allow_ip_access, config.domains.as_slice(), host) {
            return Admission::HostNotAllowed;
        }
        self.open_session(cookie);
        if str_eq(method, "OPTIONS") {
            Admission::Preflight
        } else {
            Admission::Proceed
        }
    }
}

/// Whether a `Cookie` header carries a session identifier for the cookie `name`.
pub open spec fn carries_session(cookie_header: Option<Seq<char>>, name: Seq<char>) -> bool {
    match cookie_header {
        Some(h) => crate::session::session_id_in(h, name) is Some,
        None => false,
    }
}

impl SiteState {
    /// Opening the session side of a request with the `Cookie` header
    /// `cookie_header` takes the state from `self` to `after`: only the session
    /// store changes; it keeps its cookie and time to live and is swept (keeping
    /// only sessions it had), and when the header carries no session identifier,
    /// one new empty session is added.
    pub open spec fn session_opened(&self, after: SiteState, cookie_header: Option<Seq<char>>) -> bool {
        &&& after.rewrite == self.rewrite
        &&& after.cache == self.cache
        &&& after.limiter == self.limiter
        &&& after.balancers == self.balancers
        &&& after.proxy_needed == self.proxy_needed
        &&& match self.sessions {
            None => after.sessions is None,
            Some(st) => after.sessions matches Some(st2) && {
                &&& st2.wf()
                &&& st2.cookie() == st.cookie()
                &&& st2.ttl() == st.ttl()
                &&& carries_session(cookie_header, st.cookie()) ==> forall|k: Seq<char>| #[trigger]
                    st2.sessions().contains_key(k) ==> st.sessions().contains_key(k) && st2.sessions()[k]
                        == st.sessions()[k]
                &&& !carries_session(cookie_header, st.cookie()) ==> exists|id: Seq<char>| {
                    &&& #[trigger] st2.sessions().contains_key(id)
                    &&& st2.sessions()[id].data@ == Map::<Seq<char>, String>::empty()
                    &&& forall|k: Seq<char>| k != id && #[trigger] st2.sessions().contains_key(k)
                        ==> st.sessions().contains_key(k) && st2.sessions()[k] == st.sessions()[k]
                }
            },
        }
    }

    /// Opens the session side of a request (nothing happens without a session
    /// store): the store is swept, then, when the `Cookie` header carries no
    /// session identifier, a new empty session is made.
    pub fn open_session(&mut self, cookie_header: Option<&str>)
        requires
            old(self).sessions matches Some(st) ==> st.wf(),
        ensures
            old(self).session_opened(*final(self), opt_text(cookie_header)),
    {
        match self.sessions.take() {
            None => {},
            Some(mut st) => {
                let ghost st0 = st;
                st.cleanup();
                let ghost st1 = st;
                if st.parse_session_id(cookie_header).is_none() {
                    let id = st.create();
                    assert(st.sessions().contains_key(id@));
                }
                self.sessions = Some(st);
            },
        }
    }

    /// The `Set-Cookie` value a response gets (none without a session store):
    /// when the request's `Cookie` header carries no session identifier, a new
    /// empty session is made and its cookie is returned.
    pub fn issue_session_cookie(&mut self, cookie_header: Option<&str>) -> (r: Option<String>)
        requires
            old(self).sessions matches Some(st) ==> st.wf(),
        ensures
            final(self).rewrite == old(self).rewrite,
            final(self).cache == old(self).cache,
            final(self).limiter == old(self).limiter,
            final(self).balancers == old(self).balancers,
            final(self).proxy_needed == old(self).proxy_needed,
            match old(self).sessions {
                None => r is None && final(self).sessions is None,
                Some(st) => final(self).sessions matches Some(st2) && {
                    &&& st2.wf()
                    &&& st2.cookie() == st.cookie()
                    &&& st2.ttl() == st.ttl()
                    &&& carries_session(opt_text(cookie_header), st.cookie()) ==> r is None && st2.sessions()
                        == st.sessions()
                    &&& !carries_session(opt_text(cookie_header), st.cookie()) ==> (r matches Some(c) && exists|
                        id: Seq<char>,
                    | {
                        &&& #[trigger] st2.sessions().contains_key(id)
                        &&& !st.sessions().contains_key(id)
                        &&& id.len() == 32
                        &&& st2.sessions()[id].data@ == Map::<Seq<char>, String>::empty()
                        &&& c@ == crate::session::set_cookie_spec(st.cookie(), id, st.ttl())
                        &&& forall|k: Seq<char>| k != id ==> #[trigger] st2.sessions().contains_key(k)
                            == st.sessions().contains_key(k)
                    })
                },
            },
    {
        match self.sessions.take() {
            None => None,
            Some(mut st) => {
                let ghost st0 = st;
                let r = if st.parse_session_id(cookie_header).is_none() {
                    let id = st.create();
                    let c = st.build_set_cookie(id.as_str());
                    assert(st.sessions().contains_key(id@));
                    assert(!st0.sessions().contains_key(id@));
                    Some(c)
                } else {
                    None
                };
                self.sessions = Some(st);
                r
            },
        }
    }
}

// ───────────────────────── serving a file ─────────────────────────

/// What a path names on disk.
#[derive(Clone, Copy, Debug, PartialEq, Eq, Structural)]
pub enum EntryKind {
    File,
    Directory,
}

/// What serving a file path comes to.
#[derive(Clone, Copy, Debug, PartialEq, Eq, Structural)]
pub enum ServeStep {
    /// The path lies outside the site's root (403).
    Forbidden,
    /// Nothing is there (404).
    NotFound,
    /// The file is read and sent.
    ReadFile,
    /// The directory's `index.html` is read and sent.
    ReadIndex,
    /// The directory is listed.
    ListDirectory,
    /// A directory without an index, where listings are off (403).
    ListingDisabled,
}

/// Whether a path is relative (on Unix: it does not start with `/`).
pub open spec fn is_relative_path(p: Seq<char>) -> bool {
    !(p.len() > 0 && p[0] == '/')
}

/// Whether a normalized path lies under the site's root: the root is a leading
/// run of its components, or, for a relative path and a root that is not empty,
/// of the components of the path joined onto the working directory.
pub open spec fn within_root(path: Seq<char>, root: Seq<char>, cwd: Option<Seq<char>>) -> bool {
    ||| path_strip_prefix_of(path, root) is Some
    ||| root.len() > 0 && is_relative_path(path) && match cwd {
        Some(c) => path_strip_prefix_of(crate::paths::join_spec(c, path), root) is Some,
        None => false,
    }
}

/// What serving the normalized path `path` comes to, given the site's root, the
/// working directory (if known), what the path names on disk, whether a
/// directory there has an `index.html`, and whether listings are on.
pub open spec fn serve_step_spec(
    path: Seq<char>,
    root: Seq<char>,
    cwd: Option<Seq<char>>,
    kind: Option<EntryKind>,
    index_exists: bool,
    listing: bool,
) -> ServeStep {
    if !within_root(path, root, cwd) {
        ServeStep::Forbidden
    } else {
        match kind {
            None => ServeStep::NotFound,
            Some(EntryKind::File) => ServeStep::ReadFile,
            Some(EntryKind::Directory) => if index_exists {
                ServeStep::ReadIndex
            } else if listing {
                ServeStep::ListDirectory
            } else {
                ServeStep::ListingDisabled
            },
        }
    }
}

/// Whether a normalized path may be deleted: the site's root is a leading run of
/// its components.
pub fn under_root(path: &str, root: &str) -> (b: bool)
    ensures
        b == (path_strip_prefix_of(path@, root@) is Some),
{
    path_strip_prefix(path, root).is_some()
}

/// The path-traversal guard and the choice of what to send for a file path:
/// a path outside the root is forbidden before anything is read.
pub fn serve_step(path: &str, root: &str, cwd: Option<&str>, kind: Option<EntryKind>, index_exists: bool, listing: bool) -> (s: ServeStep)
    ensures
        s == serve_step_spec(path@, root@, opt_text(cwd), kind, index_exists, listing),
{
    let inside = match path_strip_prefix(path, root) {
        Some(_) => true,
        None => {
            let p = chars_of(path);
            let relative = !(p.len() > 0 && p[0] == '/');
            let r = chars_of(root);
            if r.len() > 0 && relative {
                match cwd {
                    Some(c) => {
                        let joined = crate::paths::join_path(c, path);
                        path_strip_prefix(joined.as_str(), root).is_some()
                    },
                    None => false,
                }
            } else {
                false
            }
        },
    };
    if !inside {
        return ServeStep::Forbidden;
    }
    match kind {
        None => ServeStep::NotFound,
        Some(EntryKind::File) => ServeStep::ReadFile,
        Some(EntryKind::Directory) => if index_exists {
            ServeStep::ReadIndex
        } else if listing {
            ServeStep::ListDirectory
        } else {
            ServeStep::ListingDisabled
        },
    }
}

} // verus!
