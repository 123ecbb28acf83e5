//! The start-up screen: the lines printed for the server and for each site, with
//! its settings, its rules and its paths. Widths are counted in characters, as
//! `{:<w}` and `{:>w}` formatting counts them; long texts are cut after a number
//! of bytes, with `...` added.

use vstd::prelude::*;
use vstd::utf8::{decode_utf8, encode_utf8, is_char_boundary};
use crate::config::{CgiConfig, LocationConfig, RewriteRule, ServerConfig};
use crate::text::{chars_of, decimal_spec, push_char, push_decimal, push_str};

verus! {

// ───────────────────────── text layout ─────────────────────────

/// `n` spaces.
pub open spec fn spaces(n: nat) -> Seq<char> {
    Seq::new(n, |i: int| ' ')
}

/// `s` left-aligned in a field of `w` characters (`{:<w}`).
pub open spec fn pad_after(s: Seq<char>, w: nat) -> Seq<char> {
    if s.len() < w {
        s + spaces((w - s.len()) as nat)
    } else {
        s
    }
}

/// `s` right-aligned in a field of `w` characters (`{:>w}`).
pub open spec fn pad_before(s: Seq<char>, w: nat) -> Seq<char> {
    if s.len() < w {
        spaces((w - s.len()) as nat) + s
    } else {
        s
    }
}

/// Whether `s` can be cut after `keep` bytes when it is longer than `max` bytes:
/// the cut must fall between two characters.
pub open spec fn cuttable(s: Seq<char>, max: nat, keep: nat) -> bool {
    encode_utf8(s).len() > max ==> is_char_boundary(encode_utf8(s), keep as int)
}

/// `s` when it has at most `max` bytes; else its first `keep` bytes and `...`.
pub open spec fn shortened(s: Seq<char>, max: nat, keep: nat) -> Seq<char> {
    if encode_utf8(s).len() > max {
        decode_utf8(encode_utf8(s).take(keep as int)) + "..."@
    } else {
        s
    }
}

/// Texts joined with a separator between them.
pub open spec fn joined(parts: Seq<Seq<char>>, sep: Seq<char>) -> Seq<char>
    decreases parts.len(),
{
    if parts.len() == 0 {
        Seq::empty()
    } else if parts.len() == 1 {
        parts[0]
    } else {
        joined(parts.drop_last(), sep) + sep + parts.last()
    }
}

/// The view of a list of strings.
pub open spec fn texts(v: Seq<String>) -> Seq<Seq<char>> {
    v.map_values(|s: String| s@)
}

/// The view of a list of lines.
pub open spec fn lines_view(v: Seq<String>) -> Seq<Seq<char>> {
    texts(v)
}

fn push_spaces(out: &mut String, n: usize)
    ensures
        final(out)@ == old(out)@ + spaces(n as nat),
{
    let mut k: usize = 0;
    while k < n
        invariant
            k <= n,
            out@ == old(out)@ + spaces(k as nat),
        decreases n - k,
    {
        push_char(out, ' ');
        k += 1;
        assert(out@ =~= old(out)@ + spaces(k as nat));
    }
}

/// Appends `s` left-aligned in a field of `w` characters.
fn push_padded_after(out: &mut String, s: &str, w: usize)
    ensures
        final(out)@ == old(out)@ + pad_after(s@, w as nat),
{
    let n = chars_of(s).len();
    push_str(out, s);
    if n < w {
        push_spaces(out, w - n);
    }
    assert(out@ =~= old(out)@ + pad_after(s@, w as nat));
}

/// Appends `s` right-aligned in a field of `w` characters.
fn push_padded_before(out: &mut String, s: &str, w: usize)
    ensures
        final(out)@ == old(out)@ + pad_before(s@, w as nat),
{
    let n = chars_of(s).len();
    if n < w {
        push_spaces(out, w - n);
    }
    push_str(out, s);
    assert(out@ =~= old(out)@ + pad_before(s@, w as nat));
}

/// `s`, cut after `keep` bytes when it has more than `max`.
fn shorten(s: &str, max: usize, keep: usize) -> (r: String)
    requires
        cuttable(s@, max as nat, keep as nat),
    ensures
        r@ == shortened(s@, max as nat, keep as nat),
{
    if s.as_bytes().len() > max {
        let (a, _rest) = s.split_at(keep);
        proof {
            vstd::utf8::encode_utf8_decode_utf8(a@);
            assert(encode_utf8(a@) =~= encode_utf8(s@).take(keep as int));
        }
        let mut out = a.to_owned();
        push_str(&mut out, "...");
        out
    } else {
        s.to_owned()
    }
}

/// Joins strings with a separator.
fn join_texts(parts: &[String], sep: &str) -> (r: String)
    ensures
        r@ == joined(texts(parts@), sep@),
{
    let mut out = String::new();
    let n = parts.len();
    let mut i: usize = 0;
    while i < n
        invariant
            n == parts@.len(),
            i <= n,
            out@ == joined(texts(parts@).take(i as int), sep@),
        decreases n - i,
    {
        let ghost before = texts(parts@).take(i as int);
        if i > 0 {
            push_str(&mut out, sep);
        }
        push_str(&mut out, parts[i].as_str());
        proof {
            let now = texts(parts@).take(i + 1);
            assert(now.drop_last() =~= before);
            assert(now.last() == parts@[i as int]@);
            if i == 0 {
                assert(now.len() == 1);
            }
        }
        i += 1;
    }
    assert(texts(parts@).take(n as int) =~= texts(parts@));
    out
}

// ───────────────────────── a site ─────────────────────────

/// A row of the settings table: the label part, then the value left-aligned in
/// 47 characters, then the right border.
pub open spec fn row(label: Seq<char>, value: Seq<char>) -> Seq<char> {
    label + pad_after(value, 47) + "│"@
}

/// A line when the condition holds, else none.
pub open spec fn line_if(c: bool, line: Seq<char>) -> Seq<Seq<char>> {
    if c {
        seq![line]
    } else {
        Seq::empty()
    }
}

/// A count of rules: `N 条`, or `无` for none.
pub open spec fn count_text(n: nat) -> Seq<char> {
    if n > 0 {
        decimal_spec(n) + " 条"@
    } else {
        "无"@
    }
}

/// The number of paths that proxy to a back end.
pub open spec fn proxy_count(locs: Seq<LocationConfig>) -> nat
    decreases locs.len(),
{
    if locs.len() == 0 {
        0
    } else {
        proxy_count(locs.drop_last()) + if locs.last().proxy_pass is Some {
            1nat
        } else {
            0nat
        }
    }
}

/// The number of paths with load-balanced back ends.
pub open spec fn balanced_count(locs: Seq<LocationConfig>) -> nat
    decreases locs.len(),
{
    if locs.len() == 0 {
        0
    } else {
        balanced_count(locs.drop_last()) + if locs.last().load_balance_targets@.len() > 0 {
            1nat
        } else {
            0nat
        }
    }
}

/// The cache setting as shown.
pub open spec fn cache_text(c: ServerConfig) -> Seq<char> {
    if c.cache_enabled {
        "已启用 (TTL: "@ + c.cache_ttl@ + ", 最大: "@ + c.cache_max_size@ + ")"@
    } else {
        "未启用"@
    }
}

/// A CGI interpreter as shown: its path and its extensions in brackets.
pub open spec fn cgi_text(c: CgiConfig) -> Seq<char> {
    c.interpreter@ + " ("@ + joined(texts(c.extensions@), ", "@) + ")"@
}

/// The CGI interpreters of a site as shown.
pub open spec fn cgi_list_text(cgi: Seq<CgiConfig>) -> Seq<char> {
    joined(cgi.map_values(|c: CgiConfig| cgi_text(c)), " | "@)
}

/// Whether the rewrite rules can be cut where the screen cuts them.
pub open spec fn rules_cuttable(rules: Seq<RewriteRule>) -> bool {
    forall|j: int| 0 <= j < rules.len() ==> cuttable(#[trigger] rules[j].from@, 38, 35) && cuttable(rules[j].to@, 38, 35)
}

/// Whether the back ends and roots of the paths can be cut where the screen
/// cuts them.
pub open spec fn locations_cuttable(locs: Seq<LocationConfig>) -> bool {
    forall|j: int| 0 <= j < locs.len() ==> (#[trigger] locs[j].proxy_pass matches Some(p) ==> cuttable(p@, 48, 45)) && (locs[j].root matches Some(r) ==> cuttable(r@, 42, 39))
}

/// Whether the texts that the screen may cut can be cut: the certificate path,
/// the rewrite rules and the paths' back ends and roots.
pub open spec fn banner_ready(c: ServerConfig) -> bool {
    &&& (c.cert matches Some(p) ==> cuttable(p@, 43, 40))
    &&& rules_cuttable(c.rewrite@)
    &&& locations_cuttable(c.location@)
}

/// The number of a rule or a path in its list, left-aligned in two characters.
pub open spec fn ordinal(j: nat) -> Seq<char> {
    pad_after(decimal_spec(j + 1), 2)
}

/// The line of the rewrite rule at position `j`.
pub open spec fn rewrite_line(j: nat, r: RewriteRule) -> Seq<char> {
    "  │    #"@ + ordinal(j) + "  "@ + pad_before(shortened(r.from@, 38, 35), 20) + "  →  "@ + pad_after(shortened(r.to@, 38, 35), 26) + "│"@
}

/// The lines of the rewrite rules.
pub open spec fn rewrite_lines(rules: Seq<RewriteRule>) -> Seq<Seq<char>> {
    Seq::new(rules.len(), |j: int| rewrite_line(j as nat, rules[j]))
}

/// The lines of the path at position `j`: one for its back end and one for its
/// root, each when it has one.
pub open spec fn location_line(j: nat, l: LocationConfig) -> Seq<Seq<char>> {
    (match l.proxy_pass {
        Some(p) => seq!["  │    #"@ + ordinal(j) + "  "@ + pad_after(l.path@, 15) + "  →  proxy "@ + pad_after(shortened(p@, 48, 45), 31) + "│"@],
        None => Seq::empty(),
    }) + (match l.root {
        Some(r) => seq!["  │    #"@ + ordinal(j) + "  "@ + pad_after(l.path@, 15) + "  →  root  "@ + pad_after(shortened(r@, 42, 39), 31) + "│"@],
        None => Seq::empty(),
    })
}

/// The lines of the paths.
pub open spec fn location_lines(locs: Seq<LocationConfig>) -> Seq<Seq<char>>
    decreases locs.len(),
{
    if locs.len() == 0 {
        Seq::empty()
    } else {
        location_lines(locs.drop_last()) + location_line((locs.len() - 1) as nat, locs.last())
    }
}

/// The first settings rows of a site: address, root, domains, direct access by
/// IP, workers, upload limit, cache and directory listing.
#[verifier::opaque]
pub open spec fn identity_lines(c: ServerConfig, workers: usize) -> Seq<Seq<char>> {
    seq![row("  │   绑定地址    │  "@, c.bind@), row("  │   根目录      │  "@, c.root@)]
        + line_if(c.domains@.len() > 0, row("  │   域名        │  "@, joined(texts(c.domains@), ", "@)))
        + seq![
        row("  │   IP直连     │  "@, if c.allow_ip_access { "允许"@ } else { "仅域名"@ }),
        row("  │   Worker进程  │  "@, decimal_spec(workers as nat)),
        row("  │   上传大小    │  "@, c.upload_max_size@),
        row("  │   缓存        │  "@, cache_text(c)),
        row("  │   目录列表    │  "@, if c.directory_listing { "开启"@ } else { "关闭"@ }),
    ]
}

/// The rows of a site's log, CORS and TLS settings, each when it is set.
#[verifier::opaque]
pub open spec fn extra_lines(c: ServerConfig) -> Seq<Seq<char>> {
    line_if(c.access_log is Some, row("  │   访问日志    │  "@, c.access_log->0@))
        + line_if(c.log_rotate_size_bytes > 0, "  │   日志轮转    │  大小超过 "@ + c.log_rotate_size@ + " 后自动轮转                               │"@)
        + (if c.cors_origin@.len() > 0 {
        seq![row("  │   CORS 源     │  "@, c.cors_origin@), row("  │   CORS 方法   │  "@, c.cors_methods@)]
    } else {
        Seq::empty()
    })
        + (match c.cert {
        Some(p) => seq![row("  │   HTTPS 证书  │  "@, shortened(p@, 43, 40)), "  │   HTTPS 状态  │  已启用 (ALPN: h2, http/1.1)                               │"@],
        None => Seq::empty(),
    })
}

/// The rows of a site's HTTP/3 port, rate limits and sessions, each when it is
/// set.
#[verifier::opaque]
pub open spec fn limit_lines(c: ServerConfig) -> Seq<Seq<char>> {
    line_if(c.http3_port@ != "0"@ && c.http3_port@ != ""@, "  │   HTTP/3 端口 │  UDP "@ + pad_after(c.http3_port@, 43) + "│"@)
        + line_if(c.rate_limit matches Some(rl) && rl.enabled, "  │   限流       │  每 IP "@ + decimal_spec(c.rate_limit->0.requests_per_second as nat) + " req/s (突发: "@ + decimal_spec(c.rate_limit->0.burst_size as nat) + ")                               │"@)
        + line_if(c.blacklist@.len() > 0, "  │   黑名单 IP  │  "@ + decimal_spec(c.blacklist@.len()) + " 条                                              │"@)
        + line_if(c.per_ip_rates@.dom().len() > 0, "  │   自定义限流  │  "@ + decimal_spec(c.per_ip_rates@.dom().len()) + " 个 IP                                              │"@)
        + line_if(c.session matches Some(sc) && sc.enabled, "  │   Session    │  Cookie: "@ + c.session->0.cookie_name@ + ", TTL: "@ + decimal_spec(c.session->0.ttl as nat) + "s                               │"@)
}

/// The rows of a site's load balancing, the management endpoint, the counts of
/// its rules and paths, and its CGI interpreters.
#[verifier::opaque]
pub open spec fn rule_count_lines(c: ServerConfig, manage_enabled: bool) -> Seq<Seq<char>> {
    line_if(balanced_count(c.location@) > 0, "  │   负载均衡    │  "@ + decimal_spec(balanced_count(c.location@)) + " 条路径                                              │"@)
        + line_if(manage_enabled, "  │   管理 API    │  已启用 (/_ohos/, 需要 Bearer Token 认证)                        │"@)
        + seq![
        row("  │   伪静态规则  │  "@, count_text(c.rewrite@.len())),
        row("  │   代理规则    │  "@, count_text(proxy_count(c.location@))),
        row("  │   路径规则    │  "@, count_text(c.location@.len())),
    ]
        + line_if(c.cgi@.len() > 0, row("  │   CGI解释器   │  "@, cgi_list_text(c.cgi@)))
}

/// The settings rows of a site, from its address to its CGI interpreters.
pub open spec fn settings_lines(c: ServerConfig, workers: usize, manage_enabled: bool) -> Seq<Seq<char>> {
    identity_lines(c, workers) + extra_lines(c) + limit_lines(c) + rule_count_lines(c, manage_enabled)
}

/// The title of a site's box: a blank line, the top with the site's number
/// (`index + 1`) and an empty row.
pub open spec fn title_lines(index: usize) -> Seq<Seq<char>> {
    seq![
        Seq::<char>::empty(),
        "  ┌─── 站点 #"@ + decimal_spec((index + 1) as nat) + " ────────────────────────────────────────────────┐"@,
        "  │                                                             │"@,
    ]
}

/// The rewrite rules of a site under their heading, when it has any.
pub open spec fn rule_section(c: ServerConfig) -> Seq<Seq<char>> {
    if c.rewrite@.len() > 0 {
        seq!["  │  ─── 伪静态规则 ─────────────────────────────────         │"@] + rewrite_lines(c.rewrite@)
    } else {
        Seq::empty()
    }
}

/// The paths of a site under their heading, when it has any.
pub open spec fn path_section(c: ServerConfig) -> Seq<Seq<char>> {
    if proxy_count(c.location@) > 0 || c.location@.len() > 0 {
        seq!["  │  ─── 路径规则 ─────────────────────────────────         │"@] + location_lines(c.location@)
    } else {
        Seq::empty()
    }
}

/// The bottom of a site's box: an empty row and the bottom border.
pub open spec fn closing_lines() -> Seq<Seq<char>> {
    seq![
        "  │                                                             │"@,
        "  └─────────────────────────────────────────────────────────────┘"@,
    ]
}

/// The box of a site on the start-up screen: its title, its settings, its
/// rewrite rules and its paths, and the bottom of the box.
pub open spec fn site_lines(index: usize, c: ServerConfig, workers: usize, manage_enabled: bool) -> Seq<Seq<char>> {
    title_lines(index) + settings_lines(c, workers, manage_enabled) + rule_section(c) + path_section(c) + closing_lines()
}

fn push_line(lines: &mut Vec<String>, s: String)
    ensures
        lines_view(final(lines)@) == lines_view(old(lines)@).push(s@),
{
    lines.push(s);
    assert(lines_view(lines@) =~= lines_view(old(lines)@).push(s@));
}

fn make_row(label: &str, value: &str) -> (r: String)
    ensures
        r@ == row(label@, value@),
{
    let mut out = String::new();
    push_str(&mut out, label);
    push_padded_after(&mut out, value, 47);
    push_str(&mut out, "│");
    out
}

fn decimal_text(n: usize) -> (r: String)
    ensures
        r@ == decimal_spec(n as nat),
{
    let mut out = String::new();
    push_decimal(&mut out, n as u64);
    out
}

fn count_text_exec(n: usize) -> (r: String)
    ensures
        r@ == count_text(n as nat),
{
    if n > 0 {
        let mut out = decimal_text(n);
        push_str(&mut out, " 条");
        out
    } else {
        "无".to_owned()
    }
}

fn count_proxies(locs: &[LocationConfig]) -> (n: usize)
    ensures
        n == proxy_count(locs@),
{
    let mut n: usize = 0;
    let mut i: usize = 0;
    while i < locs.len()
        invariant
            i <= locs@.len(),
            n == proxy_count(locs@.take(i as int)),
            n <= i,
        decreases locs@.len() - i,
    {
        assert(locs@.take(i + 1).drop_last() =~= locs@.take(i as int));
        if locs[i].proxy_pass.is_some() {
            n += 1;
        }
        i += 1;
    }
    assert(locs@.take(locs@.len() as int) =~= locs@);
    n
}

fn count_balanced(locs: &[LocationConfig]) -> (n: usize)
    ensures
        n == balanced_count(locs@),
{
    let mut n: usize = 0;
    let mut i: usize = 0;
    while i < locs.len()
        invariant
            i <= locs@.len(),
            n == balanced_count(locs@.take(i as int)),
            n <= i,
        decreases locs@.len() - i,
    {
        assert(locs@.take(i + 1).drop_last() =~= locs@.take(i as int));
        if locs[i].load_balance_targets.len() > 0 {
            n += 1;
        }
        i += 1;
    }
    assert(locs@.take(locs@.len() as int) =~= locs@);
    n
}

fn cgi_list(cgi: &[CgiConfig]) -> (r: String)
    ensures
        r@ == cgi_list_text(cgi@),
{
    let mut parts: Vec<String> = Vec::new();
    let n = cgi.len();
    let mut i: usize = 0;
    while i < n
        invariant
            n == cgi@.len(),
            i <= n,
            texts(parts@) == cgi@.take(i as int).map_values(|c: CgiConfig| cgi_text(c)),
        decreases n - i,
    {
        let c = &cgi[i];
        let mut t = c.interpreter.clone();
        push_str(&mut t, " (");
        let exts = join_texts(c.extensions.as_slice(), ", ");
        push_str(&mut t, exts.as_str());
        push_str(&mut t, ")");
        assert(t@ == cgi_text(cgi@[i as int]));
        let ghost before = parts@;
        parts.push(t);
        assert(texts(parts@) =~= texts(before).push(cgi_text(cgi@[i as int])));
        assert(texts(parts@) =~= cgi@.take(i + 1).map_values(|c: CgiConfig| cgi_text(c)));
        i += 1;
    }
    assert(cgi@.take(n as int) =~= cgi@);
    join_texts(parts.as_slice(), " | ")
}

fn ordinal_text(out: &mut String, j: usize)
    requires
        j < usize::MAX,
    ensures
        final(out)@ == old(out)@ + ordinal(j as nat),
{
    let d = decimal_text(j + 1);
    push_padded_after(out, d.as_str(), 2);
}

fn push_rewrite_lines(lines: &mut Vec<String>, rules: &Vec<RewriteRule>)
    requires
        rules_cuttable(rules@),
    ensures
        lines_view(final(lines)@) == lines_view(old(lines)@) + rewrite_lines(rules@),
{
    let n = rules.len();
    let mut i: usize = 0;
    while i < n
        invariant
            n == rules@.len(),
            i <= n,
            rules_cuttable(rules@),
            lines_view(lines@) == lines_view(old(lines)@) + rewrite_lines(rules@).take(i as int),
        decreases n - i,
    {
        let r = &rules[i];
        let mut t = String::new();
        push_str(&mut t, "  │    #");
        ordinal_text(&mut t, i);
        push_str(&mut t, "  ");
        let from = shorten(r.from.as_str(), 38, 35);
        push_padded_before(&mut t, from.as_str(), 20);
        push_str(&mut t, "  →  ");
        let to = shorten(r.to.as_str(), 38, 35);
        push_padded_after(&mut t, to.as_str(), 26);
        push_str(&mut t, "│");
        assert(t@ == rewrite_line(i as nat, rules@[i as int]));
        push_line(lines, t);
        assert(rewrite_lines(rules@).take(i + 1) =~= rewrite_lines(rules@).take(i as int).push(rewrite_line(i as nat, rules@[i as int])));
        i += 1;
    }
    assert(rewrite_lines(rules@).take(n as int) =~= rewrite_lines(rules@));
}

fn location_row(j: usize, path: &str, kind: &str, target: &str) -> (t: String)
    requires
        j < usize::MAX,
    ensures
        t@ == "  │    #"@ + ordinal(j as nat) + "  "@ + pad_after(path@, 15) + kind@ + pad_after(target@, 31) + "│"@,
{
    let mut t = String::new();
    push_str(&mut t, "  │    #");
    ordinal_text(&mut t, j);
    push_str(&mut t, "  ");
    push_padded_after(&mut t, path, 15);
    push_str(&mut t, kind);
    push_padded_after(&mut t, target, 31);
    push_str(&mut t, "│");
    t
}

fn push_location_lines(lines: &mut Vec<String>, locs: &Vec<LocationConfig>)
    requires
        locations_cuttable(locs@),
    ensures
        lines_view(final(lines)@) == lines_view(old(lines)@) + location_lines(locs@),
{
    let n = locs.len();
    let mut i: usize = 0;
    while i < n
        invariant
            n == locs@.len(),
            i <= n,
            locations_cuttable(locs@),
            lines_view(lines@) == lines_view(old(lines)@) + location_lines(locs@.take(i as int)),
        decreases n - i,
    {
        let l = &locs[i];
        let ghost before = lines_view(lines@);
        assert(locs@.take(i + 1).drop_last() =~= locs@.take(i as int));
        assert(locs@.take(i + 1).last() == locs@[i as int]);
        assert(locs@[i as int].proxy_pass matches Some(p) ==> cuttable(p@, 48, 45));
        match &l.proxy_pass {
            Some(p) => {
                let target = shorten(p.as_str(), 48, 45);
                let t = location_row(i, l.path.as_str(), "  →  proxy ", target.as_str());
                push_line(lines, t);
            },
            None => {},
        }
        let ghost mid = lines_view(lines@);
        match &l.root {
            Some(r) => {
                let target = shorten(r.as_str(), 42, 39);
                let t = location_row(i, l.path.as_str(), "  →  root  ", target.as_str());
                push_line(lines, t);
            },
            None => {},
        }
        assert(lines_view(lines@) =~= before + location_line(i as nat, locs@[i as int]));
        i += 1;
    }
    assert(locs@.take(n as int) =~= locs@);
}

fn push_identity(lines: &mut Vec<String>, c: &ServerConfig, workers: usize)
    ensures
        lines_view(final(lines)@) == lines_view(old(lines)@) + identity_lines(*c, workers),
{
    reveal(identity_lines);
    let ghost start = lines_view(lines@);
    push_line(lines, make_row("  │   绑定地址    │  ", c.bind.as_str()));
    push_line(lines, make_row("  │   根目录      │  ", c.root.as_str()));
    if c.domains.len() > 0 {
        let d = join_texts(c.domains.as_slice(), ", ");
        push_line(lines, make_row("  │   域名        │  ", d.as_str()));
    }
    let ip: &str = if c.allow_ip_access {
        "允许"
    } else {
        "仅域名"
    };
    push_line(lines, make_row("  │   IP直连     │  ", ip));
    let w = decimal_text(workers);
    push_line(lines, make_row("  │   Worker进程  │  ", w.as_str()));
    push_line(lines, make_row("  │   上传大小    │  ", c.upload_max_size.as_str()));
    let cache: String = if c.cache_enabled {
        let mut t = String::new();
        push_str(&mut t, "已启用 (TTL: ");
        push_str(&mut t, c.cache_ttl.as_str());
        push_str(&mut t, ", 最大: ");
        push_str(&mut t, c.cache_max_size.as_str());
        push_str(&mut t, ")");
        t
    } else {
        "未启用".to_owned()
    };
    push_line(lines, make_row("  │   缓存        │  ", cache.as_str()));
    let dl: &str = if c.directory_listing {
        "开启"
    } else {
        "关闭"
    };
    push_line(lines, make_row("  │   目录列表    │  ", dl));
    assert(lines_view(lines@) =~= start + identity_lines(*c, workers));
}

fn push_extras(lines: &mut Vec<String>, c: &ServerConfig)
    requires
        c.cert matches Some(p) ==> cuttable(p@, 43, 40),
    ensures
        lines_view(final(lines)@) == lines_view(old(lines)@) + extra_lines(*c),
{
    reveal(extra_lines);
    let ghost start = lines_view(lines@);
    match &c.access_log {
        Some(a) => push_line(lines, make_row("  │   访问日志    │  ", a.as_str())),
        None => {},
    }
    if c.log_rotate_size_bytes > 0 {
        let mut t = String::new();
        push_str(&mut t, "  │   日志轮转    │  大小超过 ");
        push_str(&mut t, c.log_rotate_size.as_str());
        push_str(&mut t, " 后自动轮转                               │");
        push_line(lines, t);
    }
    if chars_of(c.cors_origin.as_str()).len() > 0 {
        push_line(lines, make_row("  │   CORS 源     │  ", c.cors_origin.as_str()));
        push_line(lines, make_row("  │   CORS 方法   │  ", c.cors_methods.as_str()));
    }
    match &c.cert {
        Some(p) => {
            let shown = shorten(p.as_str(), 43, 40);
            push_line(lines, make_row("  │   HTTPS 证书  │  ", shown.as_str()));
            push_line(lines, "  │   HTTPS 状态  │  已启用 (ALPN: h2, http/1.1)                               │".to_owned());
        },
        None => {},
    }
    assert(lines_view(lines@) =~= start + extra_lines(*c));
}

fn push_limits(lines: &mut Vec<String>, c: &ServerConfig)
    requires
        c.per_ip_rates.wf(),
    ensures
        lines_view(final(lines)@) == lines_view(old(lines)@) + limit_lines(*c),
{
    reveal(limit_lines);
    let ghost start = lines_view(lines@);
    if !crate::text::str_eq(c.http3_port.as_str(), "0") && !crate::text::str_eq(c.http3_port.as_str(), "") {
        let mut t = String::new();
        push_str(&mut t, "  │   HTTP/3 端口 │  UDP ");
        push_padded_after(&mut t, c.http3_port.as_str(), 43);
        push_str(&mut t, "│");
        push_line(lines, t);
    }
    match &c.rate_limit {
        Some(rl) => if rl.enabled {
            let mut t = String::new();
            push_str(&mut t, "  │   限流       │  每 IP ");
            push_decimal(&mut t, rl.requests_per_second as u64);
            push_str(&mut t, " req/s (突发: ");
            push_decimal(&mut t, rl.burst_size as u64);
            push_str(&mut t, ")                               │");
            push_line(lines, t);
        },
        None => {},
    }
    if c.blacklist.len() > 0 {
        let mut t = String::new();
        push_str(&mut t, "  │   黑名单 IP  │  ");
        push_decimal(&mut t, c.blacklist.len() as u64);
        push_str(&mut t, " 条                                              │");
        push_line(lines, t);
    }
    let rates = c.per_ip_rates.len();
    if rates > 0 {
        let mut t = String::new();
        push_str(&mut t, "  │   自定义限流  │  ");
        push_decimal(&mut t, rates as u64);
        push_str(&mut t, " 个 IP                                              │");
        push_line(lines, t);
    }
    match &c.session {
        Some(sc) => if sc.enabled {
            let mut t = String::new();
            push_str(&mut t, "  │   Session    │  Cookie: ");
            push_str(&mut t, sc.cookie_name.as_str());
            push_str(&mut t, ", TTL: ");
            push_decimal(&mut t, sc.ttl);
            push_str(&mut t, "s                               │");
            push_line(lines, t);
        },
        None => {},
    }
    assert(lines_view(lines@) =~= start + limit_lines(*c));
}

fn push_rule_counts(lines: &mut Vec<String>, c: &ServerConfig, manage_enabled: bool)
    ensures
        lines_view(final(lines)@) == lines_view(old(lines)@) + rule_count_lines(*c, manage_enabled),
{
    reveal(rule_count_lines);
    let ghost start = lines_view(lines@);
    let lb = count_balanced(c.location.as_slice());
    if lb > 0 {
        let mut t = String::new();
        push_str(&mut t, "  │   负载均衡    │  ");
        push_decimal(&mut t, lb as u64);
        push_str(&mut t, " 条路径                                              │");
        push_line(lines, t);
    }
    if manage_enabled {
        push_line(lines, "  │   管理 API    │  已启用 (/_ohos/, 需要 Bearer Token 认证)                        │".to_owned());
    }
    let rc = count_text_exec(c.rewrite.len());
    push_line(lines, make_row("  │   伪静态规则  │  ", rc.as_str()));
    let pc = count_text_exec(count_proxies(c.location.as_slice()));
    push_line(lines, make_row("  │   代理规则    │  ", pc.as_str()));
    let lc = count_text_exec(c.location.len());
    push_line(lines, make_row("  │   路径规则    │  ", lc.as_str()));
    if c.cgi.len() > 0 {
        let info = cgi_list(c.cgi.as_slice());
        push_line(lines, make_row("  │   CGI解释器   │  ", info.as_str()));
    }
    assert(lines_view(lines@) =~= start + rule_count_lines(*c, manage_enabled));
}

// ───────────────────────── the screen ─────────────────────────

fn push_title(lines: &mut Vec<String>, index: usize)
    requires
        index < usize::MAX,
    ensures
        lines_view(final(lines)@) == lines_view(old(lines)@) + title_lines(index),
{
    let ghost start = lines_view(lines@);
    push_line(lines, String::new());
    let mut title = String::new();
    push_str(&mut title, "  ┌─── 站点 #");
    push_decimal(&mut title, (index + 1) as u64);
    push_str(&mut title, " ────────────────────────────────────────────────┐");
    push_line(lines, title);
    push_line(lines, "  │                                                             │".to_owned());
    assert(lines_view(lines@) =~= start + title_lines(index));
}

fn push_settings(lines: &mut Vec<String>, c: &ServerConfig, workers: usize, manage_enabled: bool)
    requires
        banner_ready(*c),
        c.per_ip_rates.wf(),
    ensures
        lines_view(final(lines)@) == lines_view(old(lines)@) + settings_lines(*c, workers, manage_enabled),
{
    let ghost start = lines_view(lines@);
    push_identity(lines, c, workers);
    push_extras(lines, c);
    push_limits(lines, c);
    push_rule_counts(lines, c, manage_enabled);
    assert(lines_view(lines@) =~= start + settings_lines(*c, workers, manage_enabled));
}

fn push_rule_section(lines: &mut Vec<String>, c: &ServerConfig)
    requires
        rules_cuttable(c.rewrite@),
    ensures
        lines_view(final(lines)@) == lines_view(old(lines)@) + rule_section(*c),
{
    let ghost start = lines_view(lines@);
    if c.rewrite.len() > 0 {
        push_line(lines, "  │  ─── 伪静态规则 ─────────────────────────────────         │".to_owned());
        push_rewrite_lines(lines, &c.rewrite);
    }
    assert(lines_view(lines@) =~= start + rule_section(*c));
}

fn push_path_section(lines: &mut Vec<String>, c: &ServerConfig)
    requires
        locations_cuttable(c.location@),
    ensures
        lines_view(final(lines)@) == lines_view(old(lines)@) + path_section(*c),
{
    let ghost start = lines_view(lines@);
    let proxies = count_proxies(c.location.as_slice());
    if proxies > 0 || c.location.len() > 0 {
        push_line(lines, "  │  ─── 路径规则 ─────────────────────────────────         │".to_owned());
        push_location_lines(lines, &c.location);
    }
    assert(lines_view(lines@) =~= start + path_section(*c));
}

/// The lines of a site's box on the start-up screen (see `site_lines`).
pub fn site_banner(index: usize, c: &ServerConfig, workers: usize, manage_enabled: bool) -> (lines: Vec<String>)
    requires
        banner_ready(*c),
        c.per_ip_rates.wf(),
        index < usize::MAX,
    ensures
        lines_view(lines@) == site_lines(index, *c, workers, manage_enabled),
{
    let mut lines: Vec<String> = Vec::new();
    push_title(&mut lines, index);
    push_settings(&mut lines, c, workers, manage_enabled);
    push_rule_section(&mut lines, c);
    push_path_section(&mut lines, c);
    let ghost before = lines_view(lines@);
    push_line(&mut lines, "  │                                                             │".to_owned());
    push_line(&mut lines, "  └─────────────────────────────────────────────────────────────┘".to_owned());
    assert(lines_view(lines@) =~= before + closing_lines());
    assert(lines_view(lines@) =~= site_lines(index, *c, workers, manage_enabled));
    lines
}

/// The top and bottom border of the server's boxes.
pub open spec fn border() -> Seq<char> {
    "═══════════════════════════════════════════════════════════════"@
}

/// The server's box at the top of the start-up screen: a blank line, the logo,
/// the version (left-aligned in eight characters), the start time and the
/// process id.
pub open spec fn head_lines(version: Seq<char>, time: Seq<char>, pid: u32) -> Seq<Seq<char>> {
    seq![
        Seq::<char>::empty(),
        "  ╔"@ + border() + "╗"@,
        "  ║                                                               ║"@,
        "  ║     ██████╗ ██╗  ██╗ ██████╗ ███████╗                        ║"@,
        "  ║    ██╔═══╝ ██║  ██║██╔═══╝ ██╔════╝                        ║"@,
        "  ║    ██║     ███████║██║     █████╗                          ║"@,
        "  ║    ██║     ██╔══██║██║     ██╔══╝                          ║"@,
        "  ║    ╚██████╗██║  ██║╚██████╗███████╗                        ║"@,
        "  ║     ╚═════╝╚═╝  ╚═╝ ╚═════╝╚══════╝                        ║"@,
        "  ║                                                               ║"@,
        "  ║   ohosHttp v"@ + pad_after(version, 8) + " ─ 高性能 HTTP 服务器                    ║"@,
        "  ║   启动时间 : "@ + pad_after(time, 47) + "║"@,
        "  ║   PID      : "@ + pad_after(decimal_spec(pid as nat), 47) + "║"@,
        "  ╚"@ + border() + "╝"@,
    ]
}

/// The server's box at the top of the start-up screen.
pub fn banner_head(version: &str, time: &str, pid: u32) -> (lines: Vec<String>)
    ensures
        lines_view(lines@) == head_lines(version@, time@, pid),
{
    let border = "═══════════════════════════════════════════════════════════════";
    let mut lines: Vec<String> = Vec::new();
    push_line(&mut lines, String::new());
    let mut top = String::new();
    push_str(&mut top, "  ╔");
    push_str(&mut top, border);
    push_str(&mut top, "╗");
    push_line(&mut lines, top);
    push_line(&mut lines, "  ║                                                               ║".to_owned());
    push_line(&mut lines, "  ║     ██████╗ ██╗  ██╗ ██████╗ ███████╗                        ║".to_owned());
    push_line(&mut lines, "  ║    ██╔═══╝ ██║  ██║██╔═══╝ ██╔════╝                        ║".to_owned());
    push_line(&mut lines, "  ║    ██║     ███████║██║     █████╗                          ║".to_owned());
    push_line(&mut lines, "  ║    ██║     ██╔══██║██║     ██╔══╝                          ║".to_owned());
    push_line(&mut lines, "  ║    ╚██████╗██║  ██║╚██████╗███████╗                        ║".to_owned());
    push_line(&mut lines, "  ║     ╚═════╝╚═╝  ╚═╝ ╚═════╝╚══════╝                        ║".to_owned());
    push_line(&mut lines, "  ║                                                               ║".to_owned());
    let mut v = String::new();
    push_str(&mut v, "  ║   ohosHttp v");
    push_padded_after(&mut v, version, 8);
    push_str(&mut v, " ─ 高性能 HTTP 服务器                    ║");
    push_line(&mut lines, v);
    let mut t = String::new();
    push_str(&mut t, "  ║   启动时间 : ");
    push_padded_after(&mut t, time, 47);
    push_str(&mut t, "║");
    push_line(&mut lines, t);
    let mut p = String::new();
    push_str(&mut p, "  ║   PID      : ");
    let d = decimal_text(pid as usize);
    push_padded_after(&mut p, d.as_str(), 47);
    push_str(&mut p, "║");
    push_line(&mut lines, p);
    let mut bottom = String::new();
    push_str(&mut bottom, "  ╚");
    push_str(&mut bottom, border);
    push_str(&mut bottom, "╝");
    push_line(&mut lines, bottom);
    assert(lines_view(lines@) =~= head_lines(version@, time@, pid));
    lines
}

/// The closing box of the start-up screen.
pub open spec fn tail_lines() -> Seq<Seq<char>> {
    seq![
        Seq::<char>::empty(),
        "  ╔"@ + border() + "╗"@,
        "  ║  服务已就绪，按 Ctrl+C 停止服务                                 ║"@,
        "  ╚"@ + border() + "╝"@,
        Seq::<char>::empty(),
    ]
}

/// The closing box of the start-up screen.
pub fn banner_tail() -> (lines: Vec<String>)
    ensures
        lines_view(lines@) == tail_lines(),
{
    let border = "═══════════════════════════════════════════════════════════════";
    let mut lines: Vec<String> = Vec::new();
    push_line(&mut lines, String::new());
    let mut top = String::new();
    push_str(&mut top, "  ╔");
    push_str(&mut top, border);
    push_str(&mut top, "╗");
    push_line(&mut lines, top);
    push_line(&mut lines, "  ║  服务已就绪，按 Ctrl+C 停止服务                                 ║".to_owned());
    let mut bottom = String::new();
    push_str(&mut bottom, "  ╚");
    push_str(&mut bottom, border);
    push_str(&mut bottom, "╝");
    push_line(&mut lines, bottom);
    push_line(&mut lines, String::new());
    assert(lines_view(lines@) =~= tail_lines());
    lines
}

} // verus!
