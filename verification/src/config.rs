//! Site configuration: the values that a configuration file or the command line
//! gives, and the numbers derived from them.

use vstd::prelude::*;

use crate::strmap::StrMap;
use crate::text::{
    chars_of, ends_with, lowercase_of, parse_u64_chars, parse_u64_spec, seq_ends_with, sub_chars, to_lowercase,
    trim, trim_chars, trim_spec,
};

verus! {

// ───────────────────────── sizes and durations ─────────────────────────

/// Splits a lower-cased size such as `10mb` into its number part and unit.
pub open spec fn size_parts(t: Seq<char>) -> (Seq<char>, nat) {
    if ends_with(t, seq!['k', 'b']) {
        (t.take(t.len() - 2), 1024)
    } else if ends_with(t, seq!['m', 'b']) {
        (t.take(t.len() - 2), 1024 * 1024)
    } else if ends_with(t, seq!['g', 'b']) {
        (t.take(t.len() - 2), 1024 * 1024 * 1024)
    } else if ends_with(t, seq!['b']) {
        (t.take(t.len() - 1), 1)
    } else {
        (t, 1)
    }
}

/// Splits a lower-cased duration such as `7d` into its number part and unit (seconds).
pub open spec fn duration_parts(t: Seq<char>) -> (Seq<char>, nat) {
    if ends_with(t, seq!['d']) {
        (t.take(t.len() - 1), 86400)
    } else if ends_with(t, seq!['h']) {
        (t.take(t.len() - 1), 3600)
    } else if ends_with(t, seq!['m']) {
        (t.take(t.len() - 1), 60)
    } else if ends_with(t, seq!['s']) {
        (t.take(t.len() - 1), 1)
    } else {
        (t, 1)
    }
}

/// The number part times the unit, where the number part (trimmed) is a decimal
/// `u64` and the product fits in 64 bits.
pub open spec fn scaled_value(parts: (Seq<char>, nat)) -> Option<u64> {
    match parse_u64_spec(trim_spec(parts.0)) {
        Some(n) => if n * parts.1 <= u64::MAX {
            Some((n * parts.1) as u64)
        } else {
            None
        },
        None => None,
    }
}

/// The byte count that a size string denotes (`"10MB"` is 10485760).
pub open spec fn parse_size_spec(s: Seq<char>) -> Option<u64> {
    scaled_value(size_parts(lowercase_of(trim_spec(s))))
}

/// The number of seconds that a duration string denotes (`"7d"` is 604800).
pub open spec fn parse_duration_spec(s: Seq<char>) -> Option<u64> {
    scaled_value(duration_parts(lowercase_of(trim_spec(s))))
}

fn scale(num_part: &[char], unit: u64) -> (r: Option<u64>)
    ensures
        r == scaled_value((num_part@, unit as nat)),
{
    let t = trim_chars(num_part);
    match parse_u64_chars(t.as_slice()) {
        Some(n) => n.checked_mul(unit),
        None => None,
    }
}

/// Size parsing on an already trimmed, lower-cased string.
pub fn parse_size_lower(t: &[char]) -> (r: Option<u64>)
    ensures
        r == scaled_value(size_parts(t@)),
{
    assert(['k', 'b']@ == seq!['k', 'b']);
    assert(['m', 'b']@ == seq!['m', 'b']);
    assert(['g', 'b']@ == seq!['g', 'b']);
    assert(['b']@ == seq!['b']);
    let n = t.len();
    if seq_ends_with(t, &['k', 'b']) {
        scale(sub_chars(t, 0, n - 2).as_slice(), 1024)
    } else if seq_ends_with(t, &['m', 'b']) {
        scale(sub_chars(t, 0, n - 2).as_slice(), 1024 * 1024)
    } else if seq_ends_with(t, &['g', 'b']) {
        scale(sub_chars(t, 0, n - 2).as_slice(), 1024 * 1024 * 1024)
    } else if seq_ends_with(t, &['b']) {
        scale(sub_chars(t, 0, n - 1).as_slice(), 1)
    } else {
        scale(t, 1)
    }
}

/// Duration parsing on an already trimmed, lower-cased string.
pub fn parse_duration_lower(t: &[char]) -> (r: Option<u64>)
    ensures
        r == scaled_value(duration_parts(t@)),
{
    assert(['d']@ == seq!['d']);
    assert(['h']@ == seq!['h']);
    assert(['m']@ == seq!['m']);
    assert(['s']@ == seq!['s']);
    let n = t.len();
    if seq_ends_with(t, &['d']) {
        scale(sub_chars(t, 0, n - 1).as_slice(), 86400)
    } else if seq_ends_with(t, &['h']) {
        scale(sub_chars(t, 0, n - 1).as_slice(), 3600)
    } else if seq_ends_with(t, &['m']) {
        scale(sub_chars(t, 0, n - 1).as_slice(), 60)
    } else if seq_ends_with(t, &['s']) {
        scale(sub_chars(t, 0, n - 1).as_slice(), 1)
    } else {
        scale(t, 1)
    }
}

/// Parses a size such as `"10MB"` into bytes: units `KB`, `MB`, `GB` (powers of
/// 1024) or `B`, in any case; a bare number counts bytes.
pub fn parse_size(s: &str) -> (r: Option<u64>)
    ensures
        r == parse_size_spec(s@),
{
    let t = trim(s);
    let l = to_lowercase(t.as_str());
    let v = chars_of(l.as_str());
    parse_size_lower(v.as_slice())
}

/// Parses a duration such as `"7d"` into seconds: units `d`, `h`, `m`, `s`, in any
/// case; a bare number counts seconds.
pub fn parse_duration(s: &str) -> (r: Option<u64>)
    ensures
        r == parse_duration_spec(s@),
{
    let t = trim(s);
    let l = to_lowercase(t.as_str());
    let v = chars_of(l.as_str());
    parse_duration_lower(v.as_slice())
}

} // verus!

verus! {

// ───────────────────────── configuration records ─────────────────────────

/// A CGI interpreter and the file extensions it runs (such as `.php`).
#[derive(Clone, Debug)]
pub struct CgiConfig {
    pub extensions: Vec<String>,
    pub interpreter: String,
}

/// A URL rewrite rule: a regular expression over the path and a replacement that
/// may name capture groups as `$0`, `$1`, ….
#[derive(Clone, Debug)]
pub struct RewriteRule {
    pub from: String,
    pub to: String,
    pub regex: bool,
}

/// A path rule: reverse proxy, another document root, or a CGI interpreter for
/// the paths under a prefix.
#[derive(Clone, Debug)]
pub struct LocationConfig {
    pub path: String,
    pub proxy_pass: Option<String>,
    pub root: Option<String>,
    pub proxy_headers: Vec<String>,
    pub expires: Option<String>,
    pub cgi: Option<CgiConfig>,
    pub interpreter: Option<String>,
    pub load_balance_targets: Vec<LoadBalanceTarget>,
    pub load_balance_strategy: String,
}

/// Per-IP rate limiting, with its connection-level protection.
#[derive(Clone, Debug)]
pub struct RateLimitConfig {
    pub enabled: bool,
    pub requests_per_second: u32,
    pub burst_size: u32,
    pub connections_per_second: u32,
    pub max_concurrent_connections: u32,
    pub ban_duration_seconds: u64,
    pub ban_threshold: u32,
}

/// Cookie sessions.
#[derive(Clone, Debug)]
pub struct SessionConfig {
    pub enabled: bool,
    pub cookie_name: String,
    pub ttl: u64,
}

/// A back end of a load-balanced path and its weight.
#[derive(Clone, Debug)]
pub struct LoadBalanceTarget {
    pub url: String,
    pub weight: u32,
}

/// One site.
#[derive(Clone, Debug)]
pub struct ServerConfig {
    pub bind: String,
    pub root: String,
    pub domains: Vec<String>,
    pub upload_max_size: String,
    pub upload_max_size_bytes: u64,
    pub threads: usize,
    pub workers: usize,
    pub cache_enabled: bool,
    pub cache_ttl: String,
    pub cache_ttl_seconds: u64,
    pub cache_max_size: String,
    pub cache_max_size_bytes: u64,
    pub directory_listing: bool,
    pub access_log: Option<String>,
    pub log_rotate_size: String,
    pub log_rotate_size_bytes: u64,
    pub pid_file: Option<String>,
    pub rewrite: Vec<RewriteRule>,
    pub cgi: Vec<CgiConfig>,
    pub location: Vec<LocationConfig>,
    pub cors_origin: String,
    pub cors_methods: String,
    pub cors_headers: String,
    pub cert: Option<String>,
    pub key: Option<String>,
    pub http3_port: String,
    pub rate_limit: Option<RateLimitConfig>,
    pub blacklist: Vec<String>,
    pub per_ip_rates: StrMap<u32>,
    pub session: Option<SessionConfig>,
    pub allow_ip_access: bool,
    pub forbidden_dirs: Vec<String>,
    pub forbidden_files: Vec<String>,
    pub allow_delete: bool,
    pub allow_upload: bool,
}

/// All sites, and the file they came from (empty when they came from the command line).
#[derive(Clone, Debug)]
pub struct AppConfig {
    pub server: Vec<ServerConfig>,
    pub config_path: String,
}

// ───────────────────────── defaults ─────────────────────────

pub fn default_bind() -> (s: String)
    ensures
        s@ == "0.0.0.0:8080"@,
{
    "0.0.0.0:8080".to_owned()
}

pub fn default_root() -> (s: String)
    ensures
        s@ == "./www"@,
{
    "./www".to_owned()
}

pub fn default_upload_max_size() -> (s: String)
    ensures
        s@ == "10MB"@,
{
    "10MB".to_owned()
}

/// `0` asks for one thread per CPU.
pub fn default_threads() -> (n: usize)
    ensures
        n == 0,
{
    0
}

/// `0` asks for one worker per CPU.
pub fn default_workers() -> (n: usize)
    ensures
        n == 0,
{
    0
}

pub fn default_cache_enabled() -> (b: bool)
    ensures
        !b,
{
    false
}

pub fn default_cache_ttl() -> (s: String)
    ensures
        s@ == "1h"@,
{
    "1h".to_owned()
}

pub fn default_cache_max_size() -> (s: String)
    ensures
        s@ == "100MB"@,
{
    "100MB".to_owned()
}

pub fn default_directory_listing() -> (b: bool)
    ensures
        !b,
{
    false
}

/// `"0"`: rotate by date only.
pub fn default_log_rotate_size() -> (s: String)
    ensures
        s@ == "0"@,
{
    "0".to_owned()
}

pub fn default_cors_methods() -> (s: String)
    ensures
        s@ == "GET,POST,PUT,DELETE,PATCH,OPTIONS"@,
{
    "GET,POST,PUT,DELETE,PATCH,OPTIONS".to_owned()
}

pub fn default_cors_headers() -> (s: String)
    ensures
        s@ == "*"@,
{
    "*".to_owned()
}

/// `"0"`: no HTTP/3 listener.
pub fn default_http3_port() -> (s: String)
    ensures
        s@ == "0"@,
{
    "0".to_owned()
}

pub fn default_true() -> (b: bool)
    ensures
        b,
{
    true
}

pub fn default_rate_limit_enabled() -> (b: bool)
    ensures
        b,
{
    true
}

pub fn default_rps() -> (n: u32)
    ensures
        n == 100,
{
    100
}

pub fn default_burst() -> (n: u32)
    ensures
        n == 200,
{
    200
}

pub fn default_session_enabled() -> (b: bool)
    ensures
        b,
{
    true
}

pub fn default_session_cookie() -> (s: String)
    ensures
        s@ == "OHOS_SESSION"@,
{
    "OHOS_SESSION".to_owned()
}

pub fn default_session_ttl() -> (n: u64)
    ensures
        n == 3600,
{
    3600
}

pub fn default_weight() -> (n: u32)
    ensures
        n == 1,
{
    1
}

pub fn default_lb_strategy() -> (s: String)
    ensures
        s@ == "round_robin"@,
{
    "round_robin".to_owned()
}

// ───────────────────────── derived values ─────────────────────────

/// A parsed value, or the fallback where the text does not parse.
pub open spec fn or_default(v: Option<u64>, d: u64) -> u64 {
    match v {
        Some(n) => n,
        None => d,
    }
}

/// The site after `finalize`: the byte and second counts computed from their
/// texts (10 MB, 1 hour, 100 MB and 0 where a text does not parse), and the
/// thread count set to the CPU count where it was 0.
pub open spec fn finalized(c: ServerConfig, cpus: usize) -> ServerConfig {
    ServerConfig {
        upload_max_size_bytes: or_default(parse_size_spec(c.upload_max_size@), 10485760),
        cache_ttl_seconds: or_default(parse_duration_spec(c.cache_ttl@), 3600),
        cache_max_size_bytes: or_default(parse_size_spec(c.cache_max_size@), 104857600),
        log_rotate_size_bytes: or_default(parse_size_spec(c.log_rotate_size@), 0),
        threads: if c.threads == 0 {
            cpus
        } else {
            c.threads
        },
        ..c
    }
}

impl ServerConfig {
    /// Computes the numeric fields from their texts. `available_cpus` is the
    /// machine's parallelism, which the thread count takes where it is 0.
    pub fn finalize(&mut self, available_cpus: usize)
        ensures
            *final(self) == finalized(*old(self), available_cpus),
    {
        self.upload_max_size_bytes = match parse_size(self.upload_max_size.as_str()) {
            Some(n) => n,
            None => 10 * 1024 * 1024,
        };
        self.cache_ttl_seconds = match parse_duration(self.cache_ttl.as_str()) {
            Some(n) => n,
            None => 3600,
        };
        self.cache_max_size_bytes = match parse_size(self.cache_max_size.as_str()) {
            Some(n) => n,
            None => 100 * 1024 * 1024,
        };
        self.log_rotate_size_bytes = match parse_size(self.log_rotate_size.as_str()) {
            Some(n) => n,
            None => 0,
        };
        if self.threads == 0 {
            self.threads = available_cpus;
        }
    }
}

/// The site that the command line describes, before `finalize`.
pub open spec fn cli_site(addr: Seq<char>, root: Seq<char>, c: ServerConfig) -> bool {
    &&& c.bind@ == addr
    &&& c.root@ == root
    &&& c.domains@.len() == 0
    &&& c.upload_max_size@ == "10MB"@
    &&& c.workers == 0
    &&& c.threads == 0
    &&& !c.cache_enabled
    &&& c.cache_ttl@ == "1h"@
    &&& c.cache_max_size@ == "100MB"@
    &&& !c.directory_listing
    &&& c.access_log is None
    &&& c.log_rotate_size@ == "0"@
    &&& c.pid_file is None
    &&& c.rewrite@.len() == 0
    &&& c.cgi@.len() == 0
    &&& c.location@.len() == 0
    &&& c.cors_origin@.len() == 0
    &&& c.cors_methods@ == "GET,POST,PUT,DELETE,PATCH,OPTIONS"@
    &&& c.cors_headers@ == "*"@
    &&& c.cert is None
    &&& c.key is None
    &&& c.http3_port@ == "0"@
    &&& c.rate_limit is None
    &&& c.blacklist@.len() == 0
    &&& c.per_ip_rates.wf()
    &&& c.per_ip_rates@ == Map::<Seq<char>, u32>::empty()
    &&& c.session is None
    &&& c.allow_ip_access
    &&& c.forbidden_dirs@.len() == 0
    &&& c.forbidden_files@.len() == 0
    &&& !c.allow_delete
    &&& !c.allow_upload
}

impl AppConfig {
    /// One site bound to `addr` serving `root`, with every other setting at its
    /// default, finalized for `available_cpus`.
    pub fn from_cli(addr: &str, root: &str, available_cpus: usize) -> (cfg: Self)
        ensures
            cfg.server@.len() == 1,
            exists|c: ServerConfig| cli_site(addr@, root@, c) && cfg.server@[0] == finalized(c, available_cpus),
            cfg.config_path@.len() == 0,
    {
        let mut srv = ServerConfig {
            bind: addr.to_owned(),
            root: root.to_owned(),
            domains: Vec::new(),
            upload_max_size: default_upload_max_size(),
            upload_max_size_bytes: 0,
            threads: default_threads(),
            workers: default_workers(),
            cache_enabled: default_cache_enabled(),
            cache_ttl: default_cache_ttl(),
            cache_ttl_seconds: 0,
            cache_max_size: default_cache_max_size(),
            cache_max_size_bytes: 0,
            directory_listing: default_directory_listing(),
            access_log: None,
            log_rotate_size: default_log_rotate_size(),
            log_rotate_size_bytes: 0,
            pid_file: None,
            rewrite: Vec::new(),
            cgi: Vec::new(),
            location: Vec::new(),
            cors_origin: String::new(),
            cors_methods: default_cors_methods(),
            cors_headers: default_cors_headers(),
            cert: None,
            key: None,
            http3_port: default_http3_port(),
            rate_limit: None,
            blacklist: Vec::new(),
            per_ip_rates: StrMap::new(),
            session: None,
            allow_ip_access: true,
            forbidden_dirs: Vec::new(),
            forbidden_files: Vec::new(),
            allow_delete: false,
            allow_upload: false,
        };
        let ghost before = srv;
        srv.finalize(available_cpus);
        let mut server: Vec<ServerConfig> = Vec::new();
        server.push(srv);
        proof {
            assert(cli_site(addr@, root@, before));
        }
        AppConfig { server, config_path: String::new() }
    }
}

/// A documented sample configuration, printed by `--gen-config`.
pub const DEFAULT_CONFIG: &'static str = r#"# ═══════════════════════════════════════════════
# ohosHttp 服务器配置文件
# ═══════════════════════════════════════════════
# 使用方式：
#   ohosHttp -c config.toml          # 从配置文件启动
#   ohosHttp -c config.toml -d       # 守护进程模式启动
#   ohosHttp -c config.toml --all    # 启动配置中所有站点
#
# 生成本配置：
#   ohosHttp --gen-config > config.toml
# ═══════════════════════════════════════════════

# =============================================
# 站点 #1 - 主站
# =============================================
[[server]]
# 绑定地址和端口
bind = "0.0.0.0:8080"

# 网站根目录
root = "./www"

# 绑定的域名列表（虚拟主机）
domains = ["example.com", "www.example.com"]

# 上传最大大小（KB/MB/GB）
upload_max_size = "10MB"

# 工作线程数（0=自动检测CPU核心数）
threads = 4

# 是否启用文件缓存
cache_enabled = true

# 缓存TTL（秒/h/d）
cache_ttl = "1h"

# 缓存最大大小
cache_max_size = "100MB"

# 是否开启目录列表（无 index.html 时显示）
directory_listing = false

# 访问日志文件路径（可选，不设置则不记录）
# access_log = "./logs/access.log"

# 日志轮转大小限制（如 "100MB", "1GB", 0=不限制大小，仅按日期轮转）
# log_rotate_size = "100MB"

# PID文件路径（守护进程模式）
# pid_file = "/var/run/ohoshttp.pid"

# CORS 跨域配置（可选，不设置则不启用CORS）
# cors_origin = "*"
# cors_methods = "GET,POST,PUT,DELETE,PATCH,OPTIONS"
# cors_headers = "Content-Type,Authorization,X-Requested-With"


# =============================================
# 限流与安全配置（可选）
# =============================================

# 限流控制：每 IP 每秒允许的请求数
# rate_limit = { enabled = true, requests_per_second = 100, burst_size = 200 }

# IP 黑名单：完全屏蔽的 IP（支持 * 通配符）
# blacklist = ["10.0.0.1", "192.168.1.*", "203.0.113.0"]

# 按 IP 自定义限流速率（覆盖全局 requests_per_second）
# [server.per_ip_rates]
# "192.168.1.50" = 50     # 该 IP 每秒只允许 50 个请求
# "10.0.0.2" = 1000       # 该 IP 每秒允许 1000 个请求


# =============================================
# Session 配置（可选）
# =============================================

# session = { enabled = true, cookie_name = "OHOS_SESSION", ttl = 3600 }


# =============================================
# URL 重写规则（伪静态）
# =============================================
# 格式：from（正则匹配路径）→ to（替换目标，支持 $1 $2 捕获组）

# 文章详情页：/article/123 → /article.html?id=123
[[server.rewrite]]
from = "^/article/(\\d+)$"
to = "/article.html?id=$1"

# 分类页：/category/tech → /category.html?name=tech
[[server.rewrite]]
from = "^/category/(\\w+)$"
to = "/category.html?name=$1"

# 用户主页：/user/john → /profile.php?user=john
[[server.rewrite]]
from = "^/user/([^/]+)$"
to = "/profile.php?user=$1"

# 标签页：/tag/rust → /tag.php?name=rust
[[server.rewrite]]
from = "^/tag/([^/]+)$"
to = "/tag.php?name=$1"

# 文章分页：/list/2 → /list.php?page=2
[[server.rewrite]]
from = "^/list/(\\d+)$"
to = "/list.php?page=$1"

# 产品详情：/product/iphone-15 → /product.php?slug=$1
[[server.rewrite]]
from = "^/product/([a-zA-Z0-9_-]+)$"
to = "/product.php?slug=$1"

# RESTful API 风格：/api/v1/users/42 → /api.php?action=users&id=42
[[server.rewrite]]
from = "^/api/v1/(\\w+)/(\\d+)$"
to = "/api.php?action=$1&id=$2"


# =============================================
# CGI 解释器配置（执行 PHP/Python 等脚本）
# =============================================
# 当请求的文件扩展名匹配时，自动调用指定的解释器执行

# PHP 解释器
[[server.cgi]]
extensions = [".php", ".phtml", ".php5"]
interpreter = "/usr/bin/php-cgi"

# Python 解释器
[[server.cgi]]
extensions = [".py", ".cgi"]
interpreter = "/usr/bin/python3"

# Perl 解释器
[[server.cgi]]
extensions = [".pl"]
interpreter = "/usr/bin/perl"


# =============================================
# 路径规则（Location）
# =============================================

# 反向代理：将 /api 请求转发到后端服务
[[server.location]]
path = "/api"
proxy_pass = "http://127.0.0.1:3000"
proxy_headers = ["X-Real-IP", "X-Forwarded-For", "X-Forwarded-Proto"]

# 负载均衡：将 /api/v2 请求分发到多个后端（替代单个 proxy_pass）
# [[server.location]]
# path = "/api/v2"
# load_balance_strategy = "round_robin"
# proxy_headers = ["X-Forwarded-For"]
# 
# [[server.location.load_balance_targets]]
# url = "http://127.0.0.1:3001"
# weight = 5
# 
# [[server.location.load_balance_targets]]
# url = "http://127.0.0.1:3002"
# weight = 3
# 
# [[server.location.load_balance_targets]]
# url = "http://127.0.0.1:3003"
# weight = 2

# 静态文件：/static 路径映射到自定义目录
[[server.location]]
path = "/static"
root = "/var/www/static"
expires = "7d"

# 上传目录：/uploads 映射并设置长缓存
[[server.location]]
path = "/uploads"
root = "/data/uploads"
expires = "30d"

# 管理后台：/admin 使用独立解释器
[[server.location]]
path = "/admin"
root = "./admin"
cgi = { interpreter = "/usr/bin/php-cgi", extensions = [".php", ".phtml"] }


# =============================================
# 站点 #2 - 博客
# =============================================
[[server]]
bind = "0.0.0.0:8081"
root = "./www2"
domains = ["blog.example.com"]
threads = 2
upload_max_size = "50MB"
cache_enabled = true
cache_ttl = "2h"
directory_listing = true

# 博客的伪静态规则
[[server.rewrite]]
from = "^/post/(\\d+)/([^/]+)$"
to = "/post.php?id=$1"

[[server.rewrite]]
from = "^/archive/(\\d{4})/(\\d{2})$"
to = "/archive.php?year=$1&month=$2"

[[server.rewrite]]
from = "^/feed$"
to = "/feed.xml"

# 博客的去哪儿都用PHP
[[server.cgi]]
extensions = [".php", ".phtml"]
interpreter = "/usr/bin/php-cgi"
"#;

} // verus!
