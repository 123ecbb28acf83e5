use ohos_server::config::{
    AppConfig, CgiConfig, LoadBalanceTarget, LocationConfig, RateLimitConfig, ServerConfig, SessionConfig,
};
use ohos_server::handler::{
    client_ip, request_refusal, serve_step, under_root, Admission, EntryKind, Route, ServeStep, SiteState, MAX_BODY,
};

fn site() -> ServerConfig {
    AppConfig::from_cli("127.0.0.1:8080", "./www", 4).server.remove(0)
}

fn location(path: &str) -> LocationConfig {
    LocationConfig {
        path: path.to_string(),
        proxy_pass: None,
        root: None,
        proxy_headers: vec![],
        expires: None,
        cgi: None,
        interpreter: None,
        load_balance_targets: vec![],
        load_balance_strategy: "round_robin".to_string(),
    }
}

#[test]
fn refused_methods_and_large_bodies() {
    assert_eq!(request_refusal("TRACE", 0), Some(405));
    assert_eq!(request_refusal("CONNECT", MAX_BODY + 1), Some(405));
    assert_eq!(request_refusal("POST", MAX_BODY + 1), Some(413));
    assert_eq!(request_refusal("POST", MAX_BODY), None);
    assert_eq!(request_refusal("GET", 0), None);
}

#[test]
fn forbidden_paths_are_routed_nowhere() {
    let mut cfg = site();
    cfg.forbidden_dirs = vec!["/secret".to_string()];
    cfg.forbidden_files = vec!["*.toml".to_string()];
    let st = SiteState::new(&cfg);
    assert_eq!(st.route(&cfg, "/secret/a", false), Route::Forbidden);
    assert_eq!(st.route(&cfg, "/config.toml", false), Route::Forbidden);
    assert_eq!(st.route(&cfg, "/index.html", false), Route::Regular);
}

#[test]
fn forbidden_rules_give_way_when_a_location_proxies() {
    let mut cfg = site();
    cfg.forbidden_dirs = vec!["/secret".to_string()];
    let mut api = location("/api");
    api.proxy_pass = Some("http://127.0.0.1:9000".to_string());
    cfg.location = vec![api];
    let st = SiteState::new(&cfg);
    assert_eq!(st.route(&cfg, "/secret/a", true), Route::Regular);
    assert_eq!(st.route(&cfg, "/api/users", true), Route::Proxy(0));
    assert_eq!(st.route(&cfg, "/api/users", false), Route::ProxyMissing);
}

#[test]
fn longest_location_wins_and_balancers_come_first() {
    let mut cfg = site();
    let mut a = location("/a");
    a.proxy_pass = Some("http://127.0.0.1:9000".to_string());
    let mut ab = location("/a/b");
    ab.proxy_pass = Some("http://127.0.0.1:9001".to_string());
    ab.load_balance_targets = vec![LoadBalanceTarget { url: "http://127.0.0.1:9002".to_string(), weight: 1 }];
    cfg.location = vec![a, ab];
    let st = SiteState::new(&cfg);
    assert_eq!(st.route(&cfg, "/a/b/c", true), Route::Balanced(1));
    assert_eq!(st.route(&cfg, "/a/x", true), Route::Proxy(0));
    assert_eq!(st.route(&cfg, "/z", true), Route::Regular);
}

#[test]
fn location_roots_give_files_and_cgi() {
    let mut cfg = site();
    let mut files = location("/static");
    files.root = Some("/srv/assets".to_string());
    let mut cgi = location("/cgi-bin");
    cgi.root = Some("/srv/cgi".to_string());
    cgi.cgi = Some(CgiConfig { extensions: vec![".py".to_string()], interpreter: "python3".to_string() });
    cfg.location = vec![files, cgi];
    let st = SiteState::new(&cfg);
    assert_eq!(st.route(&cfg, "/static/css/a.css", false), Route::File(0, "/srv/assets/css/a.css".to_string()));
    assert_eq!(st.route(&cfg, "/static", false), Route::File(0, "/srv/assets/".to_string()));
    assert_eq!(st.route(&cfg, "/cgi-bin/run.py", false), Route::Cgi(1, "/srv/cgi/run.py".to_string()));
}

#[test]
fn clients_are_screened_by_the_limiter() {
    let mut cfg = site();
    cfg.rate_limit = Some(RateLimitConfig {
        enabled: true,
        requests_per_second: 1,
        burst_size: 2,
        connections_per_second: 0,
        max_concurrent_connections: 0,
        ban_duration_seconds: 60,
        ban_threshold: 2,
    });
    cfg.blacklist = vec!["10.0.0.9".to_string()];
    let mut st = SiteState::new(&cfg);
    let t: u128 = 1_000_000_000_000;
    assert_eq!(st.screen_client_at("10.0.0.9", t), Some(403));
    assert_eq!(st.screen_client_at("10.0.0.1", t), None);
    assert_eq!(st.screen_client_at("10.0.0.1", t), None);
    assert_eq!(st.screen_client_at("10.0.0.1", t), Some(429));
    assert_eq!(st.screen_client_at("10.0.0.1", t), Some(429));
    // two refusals reach the threshold: the client is now banned
    assert_eq!(st.screen_client_at("10.0.0.1", t), Some(403));
    assert_eq!(st.screen_client_at("10.0.0.1", t + 61_000_000_000), None);
}

#[test]
fn without_a_limiter_every_client_passes() {
    let cfg = site();
    let mut st = SiteState::new(&cfg);
    assert_eq!(st.screen_client("10.0.0.1"), None);
    assert_eq!(st.screen_client_at("10.0.0.1", 5), None);
}

#[test]
fn sessions_are_opened_and_cookies_issued() {
    let mut cfg = site();
    cfg.session = Some(SessionConfig { enabled: true, cookie_name: "SID".to_string(), ttl: 600 });
    let mut st = SiteState::new(&cfg);
    st.open_session(None);
    let cookie = st.issue_session_cookie(None).expect("a new session cookie");
    assert!(cookie.starts_with("SID="));
    assert!(cookie.ends_with("; HttpOnly; SameSite=Lax; Path=/; Max-Age=600"));
    let id = cookie["SID=".len()..cookie.find(';').unwrap()].to_string();
    assert_eq!(id.len(), 32);
    assert!(st.sessions.as_mut().unwrap().get(&id).is_some());
    assert_eq!(st.issue_session_cookie(Some(&format!("SID={}", id))), None);
}

#[test]
fn without_sessions_no_cookie_is_issued() {
    let cfg = site();
    let mut st = SiteState::new(&cfg);
    st.open_session(None);
    assert_eq!(st.issue_session_cookie(None), None);
}

#[test]
fn client_ips_come_from_socket_addresses() {
    assert_eq!(client_ip("10.0.0.1:54321"), "10.0.0.1");
    assert_eq!(client_ip("[::1]:8080"), "::1");
    assert_eq!(client_ip("[2001:db8::7]:443"), "2001:db8::7");
    assert_eq!(client_ip("10.0.0.1"), "10.0.0.1");
}

#[test]
fn clients_are_blocked_and_counted_by_ip() {
    let mut cfg = site();
    cfg.rate_limit = Some(RateLimitConfig {
        enabled: true,
        requests_per_second: 1,
        burst_size: 2,
        connections_per_second: 0,
        max_concurrent_connections: 0,
        ban_duration_seconds: 60,
        ban_threshold: 100,
    });
    cfg.blacklist = vec!["10.0.0.9".to_string()];
    let mut st = SiteState::new(&cfg);
    let t: u128 = 1_000_000_000_000;
    assert_eq!(st.screen_client_at("10.0.0.9:54321", t), Some(403));
    assert_eq!(st.screen_client_at("1.2.3.4:40001", t), None);
    assert_eq!(st.screen_client_at("1.2.3.4:40002", t), None);
    assert_eq!(st.screen_client_at("1.2.3.4:40003", t), Some(429));
    assert_eq!(st.screen_client_at("5.6.7.8:40004", t), None);
}

#[test]
fn requests_are_let_in_in_order() {
    let mut cfg = site();
    cfg.rate_limit = Some(RateLimitConfig {
        enabled: true,
        requests_per_second: 100,
        burst_size: 100,
        connections_per_second: 0,
        max_concurrent_connections: 0,
        ban_duration_seconds: 60,
        ban_threshold: 3,
    });
    cfg.blacklist = vec!["10.0.0.9".to_string()];
    cfg.allow_ip_access = false;
    cfg.domains = vec!["example.com".to_string()];
    cfg.session = Some(SessionConfig { enabled: true, cookie_name: "SID".to_string(), ttl: 600 });
    let mut st = SiteState::new(&cfg);
    let host = Some("example.com");
    assert_eq!(st.let_in(&cfg, "TRACE", 0, "10.0.0.9:1", host, None), Admission::MethodNotAllowed);
    assert_eq!(st.let_in(&cfg, "POST", MAX_BODY + 1, "10.0.0.9:1", host, None), Admission::TooLarge);
    assert_eq!(st.let_in(&cfg, "GET", 0, "10.0.0.9:1", host, None), Admission::Blocked);
    assert_eq!(st.let_in(&cfg, "GET", 0, "1.1.1.1:1", Some("1.2.3.4"), None), Admission::HostNotAllowed);
    assert_eq!(st.let_in(&cfg, "OPTIONS", 0, "1.1.1.1:1", host, None), Admission::Preflight);
    assert_eq!(st.let_in(&cfg, "GET", 0, "1.1.1.1:1", Some("example.com:8080"), None), Admission::Proceed);
    assert!(st.sessions.as_ref().is_some());
}

#[test]
fn serving_stays_under_the_root() {
    let d = Some(EntryKind::Directory);
    let f = Some(EntryKind::File);
    assert_eq!(serve_step("/srv/www/a.html", "/srv/www", None, f, false, false), ServeStep::ReadFile);
    assert_eq!(serve_step("/etc/passwd", "/srv/www", None, f, false, false), ServeStep::Forbidden);
    assert_eq!(serve_step("/srv/wwwx/a", "/srv/www", None, f, false, false), ServeStep::Forbidden);
    assert_eq!(serve_step("www/a.html", "/srv/www", Some("/srv"), f, false, false), ServeStep::ReadFile);
    assert_eq!(serve_step("www/a.html", "/srv/www", Some("/home"), f, false, false), ServeStep::Forbidden);
    assert_eq!(serve_step("/srv/www/missing", "/srv/www", None, None, false, true), ServeStep::NotFound);
    assert_eq!(serve_step("/srv/www/d", "/srv/www", None, d, true, false), ServeStep::ReadIndex);
    assert_eq!(serve_step("/srv/www/d", "/srv/www", None, d, false, true), ServeStep::ListDirectory);
    assert_eq!(serve_step("/srv/www/d", "/srv/www", None, d, false, false), ServeStep::ListingDisabled);
    assert!(under_root("/srv/www/a", "/srv/www"));
    assert!(!under_root("/srv/other/a", "/srv/www"));
}
