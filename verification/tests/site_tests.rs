use ohos_server::cli::{
    add_cgi, apply_workers, cgi_extensions, config_source, determine_workers, find_child, requested_workers,
    ConfigSource,
};
use ohos_server::config::{parse_duration, parse_size, AppConfig, ServerConfig};
use ohos_server::init::{
    chosen_dir, data_dir, default_config_path, default_log_dir, default_www_dir, generate_config, init_base_dir,
    initialized_marker, is_default_yes, is_yes,
};
use ohos_server::load_balancer::{BalanceTarget, LoadBalancer};
use ohos_server::logger::{log_line, open_log_file_path, AccessLogger, LogWriter};
use ohos_server::manage::ManageConfig;
use ohos_server::proxy::{forward_headers, forwarded_headers, is_hop_by_hop, target_url};
use ohos_server::server::{first_h3_site, h3_port, HttpServer, VirtualHostRouter, VirtualHostServer};

fn site(bind: &str, domains: &[&str]) -> ServerConfig {
    let mut c = AppConfig::from_cli(bind, "./www", 4).server.remove(0);
    c.domains = domains.iter().map(|d| d.to_string()).collect();
    c
}

// ───── configuration ─────

#[test]
fn sizes_parse_with_units() {
    assert_eq!(parse_size("10MB"), Some(10 * 1024 * 1024));
    assert_eq!(parse_size(" 2kb "), Some(2048));
    assert_eq!(parse_size("1GB"), Some(1024 * 1024 * 1024));
    assert_eq!(parse_size("512b"), Some(512));
    assert_eq!(parse_size("77"), Some(77));
    assert_eq!(parse_size("abc"), None);
    assert_eq!(parse_size(""), None);
    // too large to hold
    assert_eq!(parse_size("18446744073709551615kb"), None);
}

#[test]
fn durations_parse_with_units() {
    assert_eq!(parse_duration("7d"), Some(604800));
    assert_eq!(parse_duration("1h"), Some(3600));
    assert_eq!(parse_duration("5M"), Some(300));
    assert_eq!(parse_duration("30s"), Some(30));
    assert_eq!(parse_duration("45"), Some(45));
    assert_eq!(parse_duration("x"), None);
}

#[test]
fn a_command_line_site_is_finalized_with_defaults() {
    let app = AppConfig::from_cli("127.0.0.1:9000", "/srv", 6);
    assert_eq!(app.server.len(), 1);
    let s = &app.server[0];
    assert_eq!(s.bind, "127.0.0.1:9000");
    assert_eq!(s.root, "/srv");
    assert_eq!(s.upload_max_size_bytes, 10 * 1024 * 1024);
    assert_eq!(s.cache_ttl_seconds, 3600);
    assert_eq!(s.cache_max_size_bytes, 100 * 1024 * 1024);
    assert_eq!(s.log_rotate_size_bytes, 0);
    assert_eq!(s.threads, 6);
    assert!(s.allow_ip_access);
    assert!(app.config_path.is_empty());
}

#[test]
fn finalize_falls_back_on_unreadable_texts() {
    let mut s = site("0.0.0.0:1", &[]);
    s.upload_max_size = "lots".to_string();
    s.cache_ttl = "2d".to_string();
    s.cache_max_size = "1kb".to_string();
    s.log_rotate_size = "??".to_string();
    s.threads = 3;
    s.finalize(8);
    assert_eq!(s.upload_max_size_bytes, 10 * 1024 * 1024);
    assert_eq!(s.cache_ttl_seconds, 172800);
    assert_eq!(s.cache_max_size_bytes, 1024);
    assert_eq!(s.log_rotate_size_bytes, 0);
    assert_eq!(s.threads, 3);
}

// ───── load balancing ─────

fn target(url: &str, weight: u32) -> BalanceTarget {
    BalanceTarget { url: url.to_string(), weight }
}

#[test]
fn weighted_round_robin_follows_the_weights() {
    let mut lb = LoadBalancer::new(vec![target("http://a", 2), target("http://b", 1)]);
    let got: Vec<String> = (0..6).map(|_| lb.next_url().unwrap()).collect();
    assert_eq!(got, vec!["http://a", "http://a", "http://b", "http://a", "http://a", "http://b"]);
}

#[test]
fn zero_weight_counts_as_one() {
    let mut lb = LoadBalancer::new(vec![target("x", 0), target("y", 0)]);
    assert_eq!(lb.next_url().unwrap(), "x");
    assert_eq!(lb.next_url().unwrap(), "y");
    assert_eq!(lb.next_url().unwrap(), "x");
}

#[test]
fn heavy_weights_keep_their_share() {
    let mut lb = LoadBalancer::new(vec![target("p", 100), target("q", 1)]);
    for _ in 0..100 {
        assert_eq!(lb.next_url().unwrap(), "p");
    }
    assert_eq!(lb.next_url().unwrap(), "q");
    assert_eq!(lb.next_url().unwrap(), "p");
}

#[test]
fn every_window_of_turns_follows_the_weights() {
    let mut lb = LoadBalancer::new(vec![target("a", 3), target("b", 0), target("c", 250)]);
    let w = 3 + 1 + 250;
    let _ = lb.next_url();
    let _ = lb.next_url();
    let got: Vec<String> = (0..w).map(|_| lb.next_url().unwrap()).collect();
    assert_eq!(got.iter().filter(|u| *u == "a").count(), 3);
    assert_eq!(got.iter().filter(|u| *u == "b").count(), 1);
    assert_eq!(got.iter().filter(|u| *u == "c").count(), 250);
}

#[test]
fn no_back_end_gives_nothing() {
    let mut lb = LoadBalancer::new(vec![]);
    assert_eq!(lb.next_url(), None);
    lb.mark_healthy(0);
    lb.mark_unhealthy(3);
    assert_eq!(lb.next_url(), None);
}

#[test]
fn health_marks_do_not_change_the_rotation() {
    let mut lb = LoadBalancer::new(vec![target("a", 1), target("b", 1)]);
    lb.mark_unhealthy(0);
    lb.mark_healthy(1);
    assert_eq!(lb.next_url().unwrap(), "a");
    assert_eq!(lb.next_url().unwrap(), "b");
}

// ───── reverse proxy ─────

#[test]
fn target_urls_join_base_and_path() {
    assert_eq!(target_url("http://127.0.0.1:3000/", Some("/api/x?y=1")), "http://127.0.0.1:3000/api/x?y=1");
    assert_eq!(target_url("http://h//", None), "http://h/");
    assert_eq!(target_url("http://h", Some("/p")), "http://h/p");
}

#[test]
fn hop_by_hop_headers_are_dropped() {
    assert!(is_hop_by_hop("connection"));
    assert!(is_hop_by_hop("transfer-encoding"));
    assert!(!is_hop_by_hop("content-type"));
    let headers = vec![
        ("Host".to_string(), b"h".to_vec()),
        ("Connection".to_string(), b"keep-alive".to_vec()),
        ("Upgrade".to_string(), b"websocket".to_vec()),
        ("Accept".to_string(), b"*/*".to_vec()),
    ];
    let kept = forward_headers(&headers);
    let names: Vec<&str> = kept.iter().map(|(n, _)| n.as_str()).collect();
    assert_eq!(names, vec!["Host", "Accept"]);
    assert_eq!(kept[1].1, b"*/*".to_vec());
}

#[test]
fn forwarded_headers_follow_the_location() {
    let wanted = vec!["X-Forwarded-For".to_string(), "X-Forwarded-Proto".to_string()];
    let h = forwarded_headers(&wanted, Some("example.com"), None);
    assert_eq!(
        h,
        vec![
            ("X-Forwarded-For".to_string(), "example.com".to_string()),
            ("X-Forwarded-Proto".to_string(), "http".to_string())
        ]
    );
    let only_proto = vec!["X-Forwarded-Proto".to_string()];
    assert_eq!(
        forwarded_headers(&only_proto, Some("h"), Some("https")),
        vec![("X-Forwarded-Proto".to_string(), "https".to_string())]
    );
    assert!(forwarded_headers(&wanted, None, Some("https")).is_empty());
}

// ───── virtual hosts ─────

#[test]
fn hosts_are_routed_to_the_site_that_lists_them() {
    let router = VirtualHostRouter::new(
        vec![site("0.0.0.0:80", &["a.com"]), site("0.0.0.0:80", &["B.com", "www.b.com"])],
        None,
    );
    assert_eq!(router.resolve_index(Some("b.com")), 1);
    assert_eq!(router.resolve_index(Some("WWW.B.COM:8080")), 1);
    assert_eq!(router.resolve_index(Some("a.com")), 0);
    assert_eq!(router.resolve_index(Some("other.org")), 0);
    assert_eq!(router.resolve_index(None), 0);
    assert_eq!(router.resolve(Some("b.com")).domains[0], "B.com");
    assert_eq!(router.all_configs().len(), 2);
    assert!(router.manage_handler().is_none());
}

#[test]
fn a_later_site_wins_a_shared_domain() {
    let router = VirtualHostRouter::new(vec![site("x", &["d.com"]), site("x", &["d.com"])], None);
    assert_eq!(router.resolve_index(Some("d.com")), 1);
}

#[test]
fn servers_keep_their_settings() {
    let m = ManageConfig { addr: "127.0.0.1:9999".to_string(), daemon: false };
    let s = HttpServer::new_with_manage(site("0.0.0.0:81", &[]), m);
    assert_eq!(s.config.bind, "0.0.0.0:81");
    assert_eq!(s.manage_handler.as_ref().unwrap().addr, "127.0.0.1:9999");
    assert!(HttpServer::new(site("0.0.0.0:82", &[])).manage_handler.is_none());
    let router = VirtualHostRouter::new(
        vec![site("0.0.0.0:80", &[])],
        Some(ManageConfig { addr: "m".to_string(), daemon: true }),
    );
    let v = VirtualHostServer::new(router);
    assert_eq!(v.router.manage_handler().unwrap().addr, "m");
}

#[test]
fn http3_ports_and_the_site_that_opens_them() {
    assert_eq!(h3_port("8443"), 8443);
    assert_eq!(h3_port("0"), 0);
    assert_eq!(h3_port("70000"), 0);
    assert_eq!(h3_port("x"), 0);
    let mut a = site("0.0.0.0:443", &[]);
    a.http3_port = "8443".to_string();
    let mut b = site("0.0.0.0:443", &[]);
    b.http3_port = "8443".to_string();
    b.cert = Some("c.pem".to_string());
    assert_eq!(first_h3_site(&[a.clone(), b.clone()]), Some(1));
    assert_eq!(first_h3_site(&[a]), None);
}

// ───── access log ─────

#[test]
fn access_log_lines() {
    let line = log_line("1.2.3.4", "01/Jan/2025:00:00:00 +0000", "GET", "/x", 200, 512, "-", "curl", 3);
    assert_eq!(line, "1.2.3.4 - - [01/Jan/2025:00:00:00 +0000] \"GET /x HTTP/1.1\" 200 512 \"-\" \"curl\" 3ms\n");
    let l = AccessLogger::new("logs/access.log", 100);
    assert_eq!(l.log_path, "logs/access.log");
    assert_eq!(l.max_size, 100);
}

#[test]
fn log_files_are_named_by_day_and_rotation() {
    assert_eq!(open_log_file_path("logs/access.log", "2025-01-02", 0), "logs/access_2025-01-02.log");
    assert_eq!(open_log_file_path("logs/access.log", "2025-01-02", 3), "logs/access_2025-01-02.3.log");
    assert_eq!(open_log_file_path("access.log", "d", 0), "access_d.log");
}

#[test]
fn log_writer_rotates_and_starts_new_days() {
    let mut w = LogWriter::new("d1".to_string(), 0, 100);
    let s = w.step("d1", 60);
    assert!(!s.new_day && !s.rotate);
    assert_eq!(w.current_size, 60);
    let s = w.step("d1", 50);
    assert!(s.rotate);
    assert_eq!(w.current_size, 50);
    let s = w.step("d2", 10);
    assert!(s.new_day && !s.rotate);
    assert_eq!(w.current_size, 10);
    assert_eq!(w.current_date, "d2");
    let mut unlimited = LogWriter::new("d".to_string(), 0, 0);
    assert!(!unlimited.step("d", 1_000_000).rotate);
}

// ───── set-up ─────

#[test]
fn data_directories_under_home() {
    assert_eq!(data_dir(Some("/home/u")), "/home/u/.ohos/server");
    assert_eq!(data_dir(None), "./.ohos/server");
    assert_eq!(default_config_path(Some("/h/")), "/h/.ohos/server/config.toml");
    assert_eq!(default_www_dir(Some("/h")), "/h/.ohos/server/www");
    assert_eq!(default_log_dir(Some("/h")), "/h/.ohos/server/logs");
    assert_eq!(initialized_marker("/d"), "/d/.initialized");
}

#[test]
fn answers_to_questions() {
    assert!(is_yes(" Y "));
    assert!(is_yes("yes"));
    assert!(!is_yes(""));
    assert!(!is_yes("no"));
    assert!(is_default_yes(""));
    assert!(is_default_yes("  "));
    assert!(is_default_yes("YES"));
    assert!(!is_default_yes("n"));
    assert_eq!(init_base_dir(Some(""), "/def"), "/def");
    assert_eq!(init_base_dir(None, "/def"), "/def");
    assert_eq!(init_base_dir(Some("/mine"), "/def"), "/mine");
    assert_eq!(chosen_dir("  /x  ", "/p"), "/x");
    assert_eq!(chosen_dir("   ", "/p"), "/p");
}

#[test]
fn generated_configuration_names_the_data_directory() {
    let text = generate_config("/data", "2025-01-01 00:00:00");
    assert!(text.contains("2025-01-01 00:00:00"));
    assert!(text.contains("root = \"/data/www\""));
    assert!(text.contains("access_log = \"/data/logs/access.log\""));
    assert!(text.contains("bind = \"0.0.0.0:8080\""));
}

// ───── command line ─────

#[test]
fn worker_counts() {
    let mut app = AppConfig::from_cli("a", "r", 2);
    assert_eq!(determine_workers(&app, 8), 8);
    assert_eq!(determine_workers(&app, 0), 1);
    apply_workers(&mut app, 4);
    assert_eq!(determine_workers(&app, 8), 4);
    apply_workers(&mut app, 0);
    assert_eq!(determine_workers(&app, 8), 4);
    let empty = AppConfig { server: vec![], config_path: String::new() };
    assert_eq!(determine_workers(&empty, 6), 6);
    assert_eq!(determine_workers(&empty, 0), 1);
    assert_eq!(requested_workers(3, 5), 3);
    assert_eq!(requested_workers(0, 5), 5);
    assert_eq!(requested_workers(0, 0), 0);
}

#[test]
fn configuration_sources() {
    assert_eq!(config_source("c.toml", "0.0.0.0:80"), ConfigSource::File);
    assert_eq!(config_source("", "0.0.0.0:80"), ConfigSource::CommandLine);
    assert_eq!(config_source("", ""), ConfigSource::Usage);
}

#[test]
fn cgi_from_the_command_line() {
    assert_eq!(cgi_extensions(""), vec![".php".to_string()]);
    assert_eq!(cgi_extensions(".php, .phtml"), vec![".php".to_string(), ".phtml".to_string()]);
    let mut app = AppConfig::from_cli("a", "r", 1);
    add_cgi(&mut app, "/usr/bin/php-cgi", &vec![".php".to_string()]);
    assert_eq!(app.server[0].cgi.len(), 1);
    assert_eq!(app.server[0].cgi[0].interpreter, "/usr/bin/php-cgi");
    assert_eq!(app.server[0].cgi[0].extensions, vec![".php".to_string()]);
}

#[test]
fn children_are_found_by_process_id() {
    assert_eq!(find_child(&[10, 20, 30], 20), Some(1));
    assert_eq!(find_child(&[10, 20, 20], 20), Some(1));
    assert_eq!(find_child(&[10], 5), None);
    assert_eq!(find_child(&[], 5), None);
}

#[test]
fn log_file_names_follow_std_paths() {
    for p in ["/var/log/a.b.log", "/var/log/.hidden", "/var/log/noext", "logs/x.log/", "logs/./x.log", "logs//x.log", "x.", "./a.txt"] {
        let path = std::path::Path::new(p);
        let ext = path.extension().map(|e| e.to_string_lossy().to_string()).unwrap_or_default();
        let stem = path.file_stem().map(|e| e.to_string_lossy().to_string()).unwrap_or_default();
        let parent = path.parent().unwrap_or(std::path::Path::new("."));
        let expected = parent.join(format!("{}_{}.{}", stem, "d", ext)).to_string_lossy().to_string();
        assert_eq!(open_log_file_path(p, "d", 0), expected, "log path {}", p);
    }
}
