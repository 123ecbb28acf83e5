use ohos_server::auth::{
    calculate_lockout_duration, check_password, check_username, credentials_path,
    failure_recordable, generate_salt, lock_path, lockout_remaining, make_credentials, password_long_enough,
    password_verdict, passwords_match, record_failure_at, LockoutState, UsernameError, Verdict,
};
use ohos_server::config::AppConfig;
use ohos_server::manage::{
    apply_site_update, cpu_busy, cpu_counters, extract_id_from_path, extract_token, last_lines, login_cookie,
    generate_session_token, needs_login, parse_usize, route, site_from_request, site_id_text, site_info, site_list, site_slot,
    ManageRoute, ManageSessions, SiteRequest,
};

fn request(bind: &str, root: &str) -> SiteRequest {
    SiteRequest {
        bind: bind.to_string(),
        root: root.to_string(),
        domains: None,
        workers: None,
        upload_max_size: None,
        cache_enabled: None,
        cache_ttl: None,
        cache_max_size: None,
        directory_listing: None,
        access_log: None,
        log_rotate_size: None,
        ssl_cert: None,
        ssl_key: None,
        http3_port: None,
        cors_origin: None,
        cors_methods: None,
        cors_headers: None,
        allow_ip_access: None,
        allow_delete: None,
        allow_upload: None,
        forbidden_dirs: None,
        forbidden_files: None,
    }
}

fn words(s: &str) -> Vec<String> {
    s.split_whitespace().map(|w| w.to_string()).collect()
}

// ───── routes ─────

#[test]
fn management_routes() {
    assert_eq!(route("OPTIONS", "/anything"), ManageRoute::Preflight);
    assert_eq!(route("GET", "/"), ManageRoute::Page);
    assert_eq!(route("GET", "/admin.html"), ManageRoute::Page);
    assert_eq!(route("POST", "/api/login"), ManageRoute::Login);
    assert_eq!(route("POST", "/api/logout"), ManageRoute::Logout);
    assert_eq!(route("GET", "/api/status"), ManageRoute::Status);
    assert_eq!(route("GET", "/api/sites"), ManageRoute::SiteList);
    assert_eq!(route("POST", "/api/sites"), ManageRoute::SiteCreate);
    assert_eq!(route("POST", "/api/sites/2/start"), ManageRoute::SiteStart);
    assert_eq!(route("POST", "/api/sites/2/stop"), ManageRoute::SiteStop);
    assert_eq!(route("GET", "/api/sites/2"), ManageRoute::SiteGet);
    assert_eq!(route("PUT", "/api/sites/2"), ManageRoute::SiteUpdate);
    assert_eq!(route("DELETE", "/api/sites/2"), ManageRoute::SiteDelete);
    assert_eq!(route("GET", "/api/sites/2/logs"), ManageRoute::SiteLogs);
    assert_eq!(route("GET", "/api/logs"), ManageRoute::ServerLogs);
    assert_eq!(route("GET", "/nope"), ManageRoute::NotFound);
    assert_eq!(route("PATCH", "/api/sites"), ManageRoute::NotFound);
}

#[test]
fn login_is_needed_past_the_page_and_the_login() {
    assert!(!needs_login(ManageRoute::Preflight));
    assert!(!needs_login(ManageRoute::Page));
    assert!(!needs_login(ManageRoute::Login));
    assert!(needs_login(ManageRoute::Status));
    assert!(needs_login(ManageRoute::SiteDelete));
}

#[test]
fn site_numbers_in_paths() {
    assert_eq!(extract_id_from_path("/api/sites/3/start", "/api/sites/", "/start"), 3);
    assert_eq!(extract_id_from_path("/api/sites/x/start", "/api/sites/", "/start"), 0);
    assert_eq!(site_id_text("/api/sites/12"), "12");
    let digits: Vec<char> = "42".chars().collect();
    assert_eq!(parse_usize(&digits), Some(42));
    let plus: Vec<char> = "+7".chars().collect();
    assert_eq!(parse_usize(&plus), Some(7));
    let bad: Vec<char> = "4a".chars().collect();
    assert_eq!(parse_usize(&bad), None);
    assert_eq!(parse_usize(&[]), None);
    assert_eq!(site_slot(1, 3), Some(0));
    assert_eq!(site_slot(3, 3), Some(2));
    assert_eq!(site_slot(0, 3), None);
    assert_eq!(site_slot(4, 3), None);
}

// ───── login tokens ─────

#[test]
fn tokens_come_from_cookie_then_header_then_query() {
    assert_eq!(
        extract_token(Some("a=1; manage_token=abc"), Some("Bearer zzz"), Some("token=q")),
        Some("abc".to_string())
    );
    assert_eq!(extract_token(Some("a=1"), Some("Bearer zzz"), Some("token=q")), Some("zzz".to_string()));
    assert_eq!(extract_token(None, Some("Basic zzz"), Some("x=1&token=q")), Some("q".to_string()));
    assert_eq!(extract_token(None, None, Some("x=1")), None);
    assert_eq!(extract_token(None, None, None), None);
}

#[test]
fn logins_last_until_they_expire() {
    let mut s = ManageSessions::new();
    s.login("t1".to_string(), "admin".to_string(), 1000);
    assert!(s.check_at(Some("t1"), 1000));
    assert!(s.check_at(Some("t1"), 1000 + 86399));
    assert!(!s.check_at(Some("t1"), 1000 + 86400));
    assert!(!s.check_at(Some("t1"), 1000));
    assert!(!s.check_at(None, 0));
}

#[test]
fn logout_ends_a_login() {
    let mut s = ManageSessions::new();
    s.login("t".to_string(), "admin".to_string(), 5);
    s.logout(Some("t"));
    assert!(!s.check_at(Some("t"), 6));
    s.logout(None);
}

#[test]
fn login_cookie_text() {
    assert_eq!(login_cookie("abc"), "manage_token=abc; HttpOnly; SameSite=Lax; Path=/; Max-Age=86400");
}

// ───── logs and counters ─────

#[test]
fn last_lines_of_a_log() {
    let lines: Vec<String> = vec!["a".into(), "b".into(), "c".into()];
    assert_eq!(last_lines(&lines, 2), "b\nc");
    assert_eq!(last_lines(&lines, 10), "a\nb\nc");
    assert_eq!(last_lines(&lines, 0), "");
    assert_eq!(last_lines(&[], 5), "");
}

#[test]
fn processor_counters() {
    assert_eq!(cpu_counters(&words("cpu 10 20 30 40 50")), Some((150, 40)));
    assert_eq!(cpu_counters(&words("cpu 1 x 2 3 4")), Some((10, 4)));
    assert_eq!(cpu_counters(&words("cpu0 1 2 3 4")), None);
    assert_eq!(cpu_counters(&words("cpu 1 2 3")), None);
    assert_eq!(cpu_counters(&words("cpu 1 2 x 3")), None);
    assert_eq!(cpu_counters(&words("cpu 18446744073709551615 1 1 1")), None);
}

#[test]
fn processor_busy_time() {
    assert_eq!(cpu_busy(100, 50, 200, 80), Some((70, 100)));
    assert_eq!(cpu_busy(0, 50, 200, 80), None);
    assert_eq!(cpu_busy(100, 50, 100, 80), None);
    assert_eq!(cpu_busy(100, 50, 150, 200), Some((0, 50)));
}

// ───── sites ─────

#[test]
fn a_new_site_takes_defaults_for_what_is_not_given() {
    let mut req = request("0.0.0.0:8081", "/srv/a");
    req.domains = Some(vec!["a.com".to_string()]);
    req.cache_ttl = Some(String::new());
    req.allow_upload = Some(true);
    let c = site_from_request(req);
    assert_eq!(c.bind, "0.0.0.0:8081");
    assert_eq!(c.root, "/srv/a");
    assert_eq!(c.domains, vec!["a.com".to_string()]);
    assert_eq!(c.upload_max_size, "10MB");
    // a text given on creation is kept, even an empty one
    assert_eq!(c.cache_ttl, "");
    assert_eq!(c.cache_max_size, "100MB");
    assert_eq!(c.log_rotate_size, "0");
    assert_eq!(c.http3_port, "0");
    assert!(c.allow_ip_access);
    assert!(c.allow_upload);
    assert!(!c.allow_delete);
    assert!(c.cert.is_none());
}

#[test]
fn an_update_changes_only_what_is_given() {
    let mut s = AppConfig::from_cli("0.0.0.0:1", "/old", 2).server.remove(0);
    s.cache_enabled = true;
    let mut req = request("0.0.0.0:2", "/new");
    req.upload_max_size = Some("5MB".to_string());
    req.ssl_cert = Some(String::new());
    req.cache_ttl = Some(String::new());
    apply_site_update(&mut s, req);
    // on update an empty text stands for the default
    assert_eq!(s.cache_ttl, "1h");
    assert_eq!(s.bind, "0.0.0.0:2");
    assert_eq!(s.root, "/new");
    assert_eq!(s.upload_max_size, "5MB");
    assert!(s.cache_enabled);
    assert!(s.cert.is_none());
}

#[test]
fn the_site_list_numbers_sites_from_one() {
    let mut app = AppConfig::from_cli("0.0.0.0:1", "/a", 1);
    let mut second = app.server[0].clone();
    second.bind = "0.0.0.0:2".to_string();
    second.cert = Some("c".to_string());
    second.key = Some("k".to_string());
    app.server.push(second);
    let list = site_list(&app, true);
    assert_eq!(list.len(), 2);
    assert_eq!(list[0].id, 1);
    assert_eq!(list[1].id, 2);
    assert_eq!(list[1].bind, "0.0.0.0:2");
    assert!(!list[0].ssl_enabled);
    assert!(list[1].ssl_enabled);
    assert_eq!(list[0].status, "running");
    let one = site_info(7, &app.server[0], false);
    assert_eq!(one.id, 7);
    assert_eq!(one.status, "stopped");
}

// ───── administrator account ─────

#[test]
fn lockouts_double_up_to_a_day() {
    assert_eq!(calculate_lockout_duration(0), 300);
    assert_eq!(calculate_lockout_duration(1), 600);
    assert_eq!(calculate_lockout_duration(4), 4800);
    assert_eq!(calculate_lockout_duration(9), 86400);
    assert_eq!(calculate_lockout_duration(55), 86400);
}

#[test]
fn five_failures_lock_the_account() {
    let mut s = LockoutState::default();
    for _ in 0..4 {
        s = record_failure_at(s, 1000);
    }
    assert_eq!(s.failed_attempts, 4);
    assert_eq!(lockout_remaining(&s, 1000), None);
    s = record_failure_at(s, 1000);
    assert_eq!(s.failed_attempts, 0);
    assert_eq!(s.lockout_round, 1);
    assert_eq!(lockout_remaining(&s, 1000), Some(300));
    assert_eq!(lockout_remaining(&s, 1299), Some(1));
    assert_eq!(lockout_remaining(&s, 1300), None);
    for _ in 0..5 {
        s = record_failure_at(s, 2000);
    }
    assert_eq!(lockout_remaining(&s, 2000), Some(600));
}

#[test]
fn user_names() {
    assert_eq!(check_username(""), Ok("admin".to_string()));
    assert_eq!(check_username("  bob_1 "), Ok("bob_1".to_string()));
    assert_eq!(check_username("ab"), Err(UsernameError::TooShort));
    assert_eq!(check_username("a b c"), Err(UsernameError::BadCharacter));
    assert_eq!(check_username("ab!"), Err(UsernameError::BadCharacter));
    assert_eq!(check_username("张三"), Ok("张三".to_string()));
}

#[test]
fn passwords() {
    assert!(password_long_enough("secret"));
    assert!(!password_long_enough("short"));
    assert!(passwords_match("abc", "abc"));
    assert!(!passwords_match("abc", "abd"));
}

#[test]
fn stored_salt_is_base64() {
    let c = make_credentials("admin".to_string(), "pw1234", b"hello");
    assert_eq!(c.salt, "aGVsbG8=");
    assert!(check_password(&c, "pw1234"));
}

#[test]
fn credentials_accept_their_password_only() {
    let salt = [7u8; 16];
    let c = make_credentials("admin".to_string(), "correct horse", &salt);
    assert_eq!(c.username, "admin");
    assert_eq!(c.salt, "BwcHBwcHBwcHBwcHBwcHBw==");
    assert_eq!(c.iterations, 100_000);
    assert_ne!(c.password_hash, "Y29ycmVjdCBob3JzZQ==");
    assert_eq!(c.password_hash.len(), 44);
    assert!(check_password(&c, "correct horse"));
    assert!(!check_password(&c, "wrong"));
    let mut broken = c.clone();
    broken.salt = "%%%".to_string();
    assert!(!check_password(&broken, "correct horse"));
}

#[test]
fn password_verdicts() {
    let salt = generate_salt();
    assert_eq!(salt.len(), 16);
    let c = make_credentials("admin".to_string(), "s3cret!", &salt);
    assert_eq!(password_verdict(None, Some(&c), "s3cret!", 10), Verdict::Accepted);
    assert_eq!(password_verdict(None, Some(&c), "nope", 10), Verdict::Rejected);
    assert_eq!(password_verdict(None, None, "s3cret!", 10), Verdict::NoAccount);
    let mut broken = c.clone();
    broken.password_hash = "***".to_string();
    assert_eq!(password_verdict(None, Some(&broken), "s3cret!", 10), Verdict::Damaged);
    let locked = LockoutState { failed_attempts: 0, last_failure: 5, locked_until: Some(100), lockout_round: 1 };
    assert_eq!(password_verdict(Some(locked), Some(&c), "s3cret!", 40), Verdict::Locked(60));
    // a lockout that has run out no longer stops the check
    assert_eq!(password_verdict(Some(locked), Some(&c), "s3cret!", 100), Verdict::Accepted);
}

#[test]
fn failures_that_cannot_be_recorded() {
    let s = LockoutState::default();
    assert!(failure_recordable(&s, 0));
    let four = LockoutState { failed_attempts: 4, last_failure: 0, locked_until: None, lockout_round: 0 };
    assert!(failure_recordable(&four, 1000));
    assert!(!failure_recordable(&four, u64::MAX));
    let late = LockoutState { failed_attempts: 4, last_failure: 0, locked_until: None, lockout_round: 56 };
    assert!(failure_recordable(&late, 0));
    let last = LockoutState { failed_attempts: 4, last_failure: 0, locked_until: None, lockout_round: u32::MAX };
    assert!(!failure_recordable(&last, 0));
    let full = LockoutState { failed_attempts: u32::MAX, last_failure: 0, locked_until: None, lockout_round: 0 };
    assert!(!failure_recordable(&full, 0));
}

#[test]
fn account_files_and_tokens() {
    assert_eq!(credentials_path("/data"), "/data/.htadmin.json");
    assert_eq!(lock_path("/data/"), "/data/.htadmin.lock.json");
    let t = generate_session_token();
    // 32 bytes in unpadded URL-safe Base64
    assert_eq!(t.len(), 43);
    assert!(t.chars().all(|c| c.is_ascii_alphanumeric() || c == '-' || c == '_'));
    assert_ne!(t, generate_session_token());
}

#[test]
fn lockouts_are_capped_at_a_day_for_every_round() {
    assert_eq!(calculate_lockout_duration(8), 76800);
    assert_eq!(calculate_lockout_duration(9), 86400);
    assert_eq!(calculate_lockout_duration(56), 86400);
    assert_eq!(calculate_lockout_duration(u32::MAX), 86400);
    let late = LockoutState { failed_attempts: 4, last_failure: 0, locked_until: None, lockout_round: 60 };
    assert!(failure_recordable(&late, 1000));
    let next = record_failure_at(late, 1000);
    assert_eq!(next.locked_until, Some(1000 + 86400));
    assert_eq!(next.lockout_round, 61);
}
