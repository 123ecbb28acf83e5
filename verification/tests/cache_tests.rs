use ohos_server::banner::{banner_head, banner_tail, site_banner};
use ohos_server::cache::{FileCache, MAX_CACHED_FILE};
use ohos_server::config::{AppConfig, CgiConfig, LocationConfig, RewriteRule, ServerConfig};
use ohos_server::files::{last_modified, mime_type};

fn bytes(n: usize) -> Vec<u8> {
    vec![7u8; n]
}

#[test]
fn a_stored_file_is_served_until_it_expires() {
    let mut c = FileCache::new(1000);
    assert!(c.store("/a".to_string(), bytes(10), "text/plain".to_string(), 100, 60));
    let e = c.lookup("/a", 100).unwrap();
    assert_eq!(e.data, bytes(10));
    assert_eq!(e.mime, "text/plain");
    assert_eq!(e.size, 10);
    assert!(c.lookup("/a", 159).is_some());
    assert!(c.lookup("/a", 160).is_none());
    assert!(c.lookup("/b", 100).is_none());
    // a clock that reads an earlier time counts no age
    assert!(c.lookup("/a", 50).is_some());
}

#[test]
fn large_files_are_not_cached() {
    let mut c = FileCache::new(u64::MAX);
    assert!(!c.store("/big".to_string(), bytes(MAX_CACHED_FILE as usize + 1), "x".to_string(), 0, 10));
    assert!(c.lookup("/big", 0).is_none());
    assert!(c.store("/edge".to_string(), bytes(MAX_CACHED_FILE as usize), "x".to_string(), 0, 10));
    assert!(c.lookup("/edge", 0).is_some());
}

#[test]
fn least_recently_stored_files_make_room() {
    let mut c = FileCache::new(25);
    assert!(c.store("/1".to_string(), bytes(10), "m".to_string(), 0, 100));
    assert!(c.store("/2".to_string(), bytes(10), "m".to_string(), 0, 100));
    // 20 + 10 > 25: "/1" goes
    assert!(c.store("/3".to_string(), bytes(10), "m".to_string(), 0, 100));
    assert!(c.lookup("/1", 0).is_none());
    assert!(c.lookup("/2", 0).is_some());
    assert!(c.lookup("/3", 0).is_some());
}

#[test]
fn a_file_larger_than_the_limit_empties_the_cache() {
    let mut c = FileCache::new(15);
    assert!(c.store("/1".to_string(), bytes(10), "m".to_string(), 0, 100));
    assert!(c.store("/big".to_string(), bytes(20), "m".to_string(), 0, 100));
    assert!(c.lookup("/1", 0).is_none());
    assert!(c.lookup("/big", 0).is_some());
}

#[test]
fn storing_a_key_again_replaces_its_entry() {
    let mut c = FileCache::new(1000);
    assert!(c.store("/k".to_string(), bytes(3), "a".to_string(), 0, 5));
    assert!(c.store("/k".to_string(), bytes(4), "b".to_string(), 10, 5));
    let e = c.lookup("/k", 12).unwrap();
    assert_eq!(e.mime, "b");
    assert_eq!(e.created, 10);
}

#[test]
fn media_types_by_extension() {
    assert_eq!(mime_type("www/index.html"), "text/html");
    assert_eq!(mime_type("a/b.css"), "text/css");
    assert_eq!(mime_type("noext"), "application/octet-stream");
    assert_eq!(mime_type("x.png"), "image/png");
}

#[test]
fn http_dates() {
    assert_eq!(last_modified(784111777), "Sun, 06 Nov 1994 08:49:37 GMT");
    assert_eq!(last_modified(0), "Thu, 01 Jan 1970 00:00:00 GMT");
}

fn site() -> ServerConfig {
    AppConfig::from_cli("0.0.0.0:8080", "./www", 2).server.remove(0)
}

#[test]
fn a_plain_site_box() {
    let lines = site_banner(0, &site(), 4, false);
    assert_eq!(lines[0], "");
    assert_eq!(lines[1], "  ┌─── 站点 #1 ────────────────────────────────────────────────┐");
    assert_eq!(lines[3], format!("  │   绑定地址    │  {:<47}│", "0.0.0.0:8080"));
    assert_eq!(lines[4], format!("  │   根目录      │  {:<47}│", "./www"));
    assert_eq!(lines[5], format!("  │   IP直连     │  {:<47}│", "允许"));
    assert_eq!(lines[6], format!("  │   Worker进程  │  {:<47}│", 4));
    assert_eq!(lines[8], format!("  │   缓存        │  {:<47}│", "未启用"));
    assert_eq!(lines[10], format!("  │   伪静态规则  │  {:<47}│", "无"));
    assert_eq!(lines.len(), 15);
    assert_eq!(lines[14], "  └─────────────────────────────────────────────────────────────┘");
}

#[test]
fn a_site_box_with_rules_paths_and_cgi() {
    let mut s = site();
    s.domains = vec!["a.com".to_string(), "b.com".to_string()];
    s.cache_enabled = true;
    s.rewrite = vec![RewriteRule { from: "^/(.*)$".to_string(), to: "/index.php/$1".to_string(), regex: true }];
    s.cgi = vec![CgiConfig { extensions: vec![".php".to_string(), ".phtml".to_string()], interpreter: "/usr/bin/php-cgi".to_string() }];
    s.location = vec![LocationConfig {
        path: "/api".to_string(),
        proxy_pass: Some("http://127.0.0.1:3000".to_string()),
        root: None,
        proxy_headers: vec![],
        expires: None,
        cgi: None,
        interpreter: None,
        load_balance_targets: vec![],
        load_balance_strategy: "round_robin".to_string(),
    }];
    s.cert = Some("/very/long/path/to/the/certificate/of/this/site/cert.pem".to_string());
    let lines = site_banner(1, &s, 1, true);
    let text = lines.join("\n");
    assert!(text.contains("站点 #2"));
    assert!(text.contains(&format!("  │   域名        │  {:<47}│", "a.com, b.com")));
    assert!(text.contains(&format!("  │   缓存        │  {:<47}│", "已启用 (TTL: 1h, 最大: 100MB)")));
    assert!(text.contains(&format!("  │   HTTPS 证书  │  {:<47}│", "/very/long/path/to/the/certificate/of/th...")));
    assert!(text.contains("管理 API"));
    assert!(text.contains(&format!("  │   CGI解释器   │  {:<47}│", "/usr/bin/php-cgi (.php, .phtml)")));
    assert!(text.contains(&format!("  │    #{:<2}  {:>20}  →  {:<26}│", 1, "^/(.*)$", "/index.php/$1")));
    assert!(text.contains(&format!("  │    #{:<2}  {:<15}  →  proxy {:<31}│", 1, "/api", "http://127.0.0.1:3000")));
    assert!(text.contains(&format!("  │   代理规则    │  {:<47}│", "1 条")));
}

#[test]
fn the_server_boxes() {
    let head = banner_head("1.2.3", "2025-01-01 00:00:00", 42);
    assert_eq!(head.len(), 14);
    assert_eq!(head[10], format!("  ║   ohosHttp v{ver: <8} ─ 高性能 HTTP 服务器                    ║", ver = "1.2.3"));
    assert_eq!(head[12], format!("  ║   PID      : {pid:<47}║", pid = 42));
    let tail = banner_tail();
    assert_eq!(tail.len(), 5);
    assert_eq!(tail[2], "  ║  服务已就绪，按 Ctrl+C 停止服务                                 ║");
}
