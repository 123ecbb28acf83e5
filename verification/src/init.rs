//! First-run set-up: where the data of the server lives (under the home
//! directory), the answers to its questions, and the configuration file it
//! writes for a new installation.

use vstd::prelude::*;
use crate::paths::{join_path, join_spec};
use crate::text::{chars_of, lowercase_of, push_str, str_eq, string_from_chars, to_lowercase, trim_chars, trim_spec};

verus! {

/// The home directory: the value of `HOME`, or `.` when it is not set.
pub open spec fn home_spec(home: Option<Seq<char>>) -> Seq<char> {
    match home {
        Some(h) => h,
        None => "."@,
    }
}

/// The data directory under a home directory: `.ohos/server`.
pub open spec fn data_dir_spec(home: Option<Seq<char>>) -> Seq<char> {
    join_spec(join_spec(home_spec(home), ".ohos"@), "server"@)
}

/// The view of an optional string.
pub open spec fn opt_text(o: Option<&str>) -> Option<Seq<char>> {
    match o {
        Some(s) => Some(s@),
        None => None,
    }
}

/// The data directory, for the value of `HOME` (`None` when it is not set).
pub fn data_dir(home: Option<&str>) -> (r: String)
    ensures
        r@ == data_dir_spec(opt_text(home)),
{
    let h: &str = match home {
        Some(h) => h,
        None => ".",
    };
    proof {
        reveal_strlit(".ohos");
        reveal_strlit("server");
    }
    let ohos = join_path(h, ".ohos");
    join_path(ohos.as_str(), "server")
}

/// The configuration file in the data directory.
pub fn default_config_path(home: Option<&str>) -> (r: String)
    ensures
        r@ == join_spec(data_dir_spec(opt_text(home)), "config.toml"@),
{
    let d = data_dir(home);
    proof {
        reveal_strlit("config.toml");
    }
    join_path(d.as_str(), "config.toml")
}

/// The site directory in the data directory.
pub fn default_www_dir(home: Option<&str>) -> (r: String)
    ensures
        r@ == join_spec(data_dir_spec(opt_text(home)), "www"@),
{
    let d = data_dir(home);
    proof {
        reveal_strlit("www");
    }
    join_path(d.as_str(), "www")
}

/// The log directory in the data directory.
pub fn default_log_dir(home: Option<&str>) -> (r: String)
    ensures
        r@ == join_spec(data_dir_spec(opt_text(home)), "logs"@),
{
    let d = data_dir(home);
    proof {
        reveal_strlit("logs");
    }
    join_path(d.as_str(), "logs")
}

/// The file that marks a data directory as set up.
pub fn initialized_marker(dir: &str) -> (r: String)
    ensures
        r@ == join_spec(dir@, ".initialized"@),
{
    proof {
        reveal_strlit(".initialized");
    }
    join_path(dir, ".initialized")
}

/// An answer, trimmed and in lower case.
pub open spec fn answer_spec(input: Seq<char>) -> Seq<char> {
    lowercase_of(trim_spec(input))
}

fn normalized_answer(input: &str) -> (r: String)
    ensures
        r@ == answer_spec(input@),
{
    let v = chars_of(input);
    let t = trim_chars(v.as_slice());
    let ts = string_from_chars(t.as_slice());
    to_lowercase(ts.as_str())
}

/// Whether an answer is yes (`y` or `yes`, trimmed, in any case).
pub fn is_yes(input: &str) -> (b: bool)
    ensures
        b == (answer_spec(input@) == "y"@ || answer_spec(input@) == "yes"@),
{
    let a = normalized_answer(input);
    str_eq(a.as_str(), "y") || str_eq(a.as_str(), "yes")
}

/// Whether an answer to a question that defaults to yes is yes: empty, `y` or
/// `yes` (trimmed, in any case).
pub fn is_default_yes(input: &str) -> (b: bool)
    ensures
        b == (answer_spec(input@).len() == 0 || answer_spec(input@) == "y"@ || answer_spec(input@)
            == "yes"@),
{
    let a = normalized_answer(input);
    let v = chars_of(a.as_str());
    v.len() == 0 || str_eq(a.as_str(), "y") || str_eq(a.as_str(), "yes")
}

/// The directory that set-up starts from: the one given, unless it is missing or
/// empty, in which case the default data directory.
pub fn init_base_dir(dir: Option<&str>, default_dir: &str) -> (r: String)
    ensures
        r@ == match dir {
            Some(d) => if d@.len() == 0 {
                default_dir@
            } else {
                d@
            },
            None => default_dir@,
        },
{
    match dir {
        Some(d) => {
            let v = chars_of(d);
            if v.len() == 0 {
                default_dir.to_owned()
            } else {
                d.to_owned()
            }
        },
        None => default_dir.to_owned(),
    }
}

/// The data directory an answer chooses: the trimmed answer, or the proposed
/// directory when the answer is empty.
pub fn chosen_dir(answer: &str, proposed: &str) -> (r: String)
    ensures
        r@ == if trim_spec(answer@).len() == 0 {
            proposed@
        } else {
            trim_spec(answer@)
        },
{
    let v = chars_of(answer);
    let t = trim_chars(v.as_slice());
    if t.len() == 0 {
        proposed.to_owned()
    } else {
        string_from_chars(t.as_slice())
    }
}

/// The configuration file written by set-up, for a data directory, at a time
/// (as text): one demonstration site on port 8080 serving `www` under the data
/// directory and logging to `logs/access.log` there.
pub open spec fn config_file_spec(data_dir: Seq<char>, time: Seq<char>) -> Seq<char> {
    let root = join_spec(data_dir, "www"@);
    let access_log = join_spec(data_dir, "logs"@) + "/access.log"@;
    CONFIG_HEAD@ + time + CONFIG_ROOT@ + root + CONFIG_LOG@ + access_log + CONFIG_TAIL@
}

/// The configuration file written by set-up.
pub fn generate_config(data_dir: &str, time: &str) -> (r: String)
    ensures
        r@ == config_file_spec(data_dir@, time@),
{
    proof {
        reveal_strlit("www");
        reveal_strlit("logs");
    }
    let root = join_path(data_dir, "www");
    let logs = join_path(data_dir, "logs");
    let mut out = String::new();
    push_str(&mut out, CONFIG_HEAD);
    push_str(&mut out, time);
    push_str(&mut out, CONFIG_ROOT);
    push_str(&mut out, root.as_str());
    push_str(&mut out, CONFIG_LOG);
    push_str(&mut out, logs.as_str());
    push_str(&mut out, "/access.log");
    push_str(&mut out, CONFIG_TAIL);
    out
}

/// The start of the generated configuration file, up to the time it was made.
pub const CONFIG_HEAD: &'static str = r#"# ═══════════════════════════════════════════════
# ohos-server 服务器配置文件
# 由 ohos-server init 自动生成
# 生成时间: "#;

/// The generated configuration file from the time to the site root.
pub const CONFIG_ROOT: &'static str = r#"
# ═══════════════════════════════════════════════

# =============================================
# 站点 #1 - 演示站点
# =============================================
[[server]]
# 绑定地址和端口
bind = "0.0.0.0:8080"

# 网站根目录
root = ""#;

/// The generated configuration file from the site root to the access log.
pub const CONFIG_LOG: &'static str = r#""

# 绑定的域名列表（虚拟主机）
# 留空表示接受所有域名
domains = []

# Worker 进程数（0 = CPU 核心数）
workers = 0

# 上传文件大小限制（如 10MB, 100MB, 1GB）
upload_max_size = "10MB"

# 是否启用文件缓存
cache_enabled = false

# 缓存过期时间
cache_ttl = "1h"

# 缓存最大容量
cache_max_size = "100MB"

# 是否允许目录列表
directory_listing = false

# 访问日志文件路径（留空表示不记录访问日志）
access_log = ""#;

/// The rest of the generated configuration file.
pub const CONFIG_TAIL: &'static str = r#""

# 日志轮转大小（如 100MB, 1GB；0 表示不轮转）
log_rotate_size = "100MB"

# CORS 配置
# cors_origin = "*"
# cors_methods = "GET,POST,PUT,DELETE,PATCH,OPTIONS"
# cors_headers = "*"

# TLS/SSL 证书（可选）
# cert = "/path/to/cert.pem"
# key = "/path/to/key.pem"

# HTTP/3 (QUIC) 端口（0 表示禁用）
# http3_port = "443"

# =============================================
# 速率限制（全局默认）
# =============================================
# [server.rate_limit]
# enabled = true
# rps = 100
# burst = 200
# max_conn = 100
# ban_duration = 300
# ban_threshold = 3

# =============================================
# 会话管理（全局默认）
# =============================================
# [server.session]
# enabled = true
# cookie_name = "OHOS_SESSION"
# ttl = 3600
"#;

} // verus!
