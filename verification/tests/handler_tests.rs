use ohos_server::config::{CgiConfig, LocationConfig, LoadBalanceTarget};
use ohos_server::handler::{
    cache_control_value, cgi_body, cgi_env, cgi_response_status, compress_body, cors_allow_origin,
    error_page, error_status, etag_value, find_cgi_config, http_env_name, is_declared_upload_too_large,
    is_host_allowed, is_origin_allowed, is_path_forbidden, is_refused_method, is_upload_too_large,
    is_websocket_upgrade, listing_html, match_location, normalize_lexical, parse_cgi_headers,
    parse_expires, parse_expires_lower, regular_action, relative_to_location, rewrite_changes_path,
    root_relative, select_final_path, server_port, sort_entries, tunnel_accepted, tunnel_header,
    tunnel_request, upload_file_name, upload_reply, has_reverse_proxy, RegularAction,
};

#[test]
fn test_forbidden_dirs_exact_match() {
    let dirs = vec!["/secret".to_string(), "/admin/*".to_string()];
    let files: Vec<String> = vec![];
    assert!(is_path_forbidden("/secret", &dirs, &files));
    assert!(is_path_forbidden("/secret/", &dirs, &files));
    assert!(is_path_forbidden("/secret/config", &dirs, &files));
}

#[test]
fn test_forbidden_dirs_wildcard() {
    let dirs = vec!["/runtime/*".to_string()];
    let files: Vec<String> = vec![];
    assert!(is_path_forbidden("/runtime/", &dirs, &files));
    assert!(is_path_forbidden("/runtime/data.json", &dirs, &files));
    assert!(is_path_forbidden("/runtime/subdir/file.txt", &dirs, &files));
}

#[test]
fn test_forbidden_dirs_no_match() {
    let dirs = vec!["/private/*".to_string()];
    let files: Vec<String> = vec![];
    assert!(!is_path_forbidden("/public", &dirs, &files));
    assert!(!is_path_forbidden("/public/file.txt", &dirs, &files));
    assert!(!is_path_forbidden("/", &dirs, &files));
}

#[test]
fn test_forbidden_files_wildcard() {
    let dirs: Vec<String> = vec![];
    let files = vec!["*.toml".to_string(), "*.env".to_string()];
    assert!(is_path_forbidden("/config.toml", &dirs, &files));
    assert!(is_path_forbidden("/.env", &dirs, &files));
    assert!(is_path_forbidden("/subdir/app.env", &dirs, &files));
    assert!(!is_path_forbidden("/index.html", &dirs, &files));
}

#[test]
fn test_forbidden_files_no_star_prefix() {
    let dirs: Vec<String> = vec![];
    let files = vec![".toml".to_string()];
    assert!(!is_path_forbidden("/config.toml", &dirs, &files));
}

#[test]
fn test_forbidden_empty_rules() {
    let dirs: Vec<String> = vec![];
    let files: Vec<String> = vec![];
    assert!(!is_path_forbidden("/any/path.toml", &dirs, &files));
    assert!(!is_path_forbidden("/", &dirs, &files));
}

#[test]
fn test_forbidden_combined_rules() {
    let dirs = vec!["/backup/*".to_string()];
    let files = vec!["*.json".to_string()];
    assert!(is_path_forbidden("/backup/db.sql", &dirs, &files));
    assert!(is_path_forbidden("/data/config.json", &dirs, &files));
    assert!(!is_path_forbidden("/public/index.html", &dirs, &files));
}

#[test]
fn forbidden_dir_is_not_a_name_prefix() {
    let dirs = vec!["/secret".to_string()];
    let files: Vec<String> = vec![];
    assert!(!is_path_forbidden("/secrets", &dirs, &files));
    let stars_only = vec!["*".to_string(), "/".to_string()];
    assert!(!is_path_forbidden("/anything", &stars_only, &files));
}

#[test]
fn forbidden_rules_added_keep_bans() {
    let dirs = vec!["/backup/*".to_string()];
    let files: Vec<String> = vec![];
    assert!(is_path_forbidden("/backup/x", &dirs, &files));
    let more_dirs = vec!["/backup/*".to_string(), "/other".to_string()];
    let more_files = vec!["*.txt".to_string()];
    assert!(is_path_forbidden("/backup/x", &more_dirs, &more_files));
}

#[test]
fn expires_units() {
    assert_eq!(parse_expires("7d"), Some(604800));
    assert_eq!(parse_expires(" 12H "), Some(43200));
    assert_eq!(parse_expires("30m"), Some(1800));
    assert_eq!(parse_expires("45s"), Some(45));
    assert_eq!(parse_expires("45"), Some(45));
    assert_eq!(parse_expires("abc"), Some(0));
    assert_eq!(parse_expires("2dd"), Some(172800));
    assert_eq!(parse_expires("99999999999999999d"), None);
    assert_eq!(parse_expires_lower("1h"), 3600);
    assert_eq!(cache_control_value(3600), "max-age=3600");
}

#[test]
fn cors_origins() {
    assert!(!is_origin_allowed("", Some("http://a")));
    assert!(is_origin_allowed("*", None));
    assert!(is_origin_allowed("http://a", Some("http://a")));
    assert!(!is_origin_allowed("http://a", Some("http://b")));
    assert!(!is_origin_allowed("http://a", None));
    assert_eq!(cors_allow_origin("*", Some("http://x")), Some("*".to_string()));
    assert_eq!(cors_allow_origin("http://a", Some("http://a")), Some("http://a".to_string()));
    assert_eq!(cors_allow_origin("http://a", Some("http://b")), None);
}

#[test]
fn websocket_detection() {
    assert!(is_websocket_upgrade(Some("WebSocket"), Some("keep-alive, Upgrade")));
    assert!(!is_websocket_upgrade(Some("websocket"), None));
    assert!(!is_websocket_upgrade(Some("h2c"), Some("upgrade")));
    assert!(!is_websocket_upgrade(None, Some("upgrade")));
}

#[test]
fn methods_and_sizes() {
    assert!(is_refused_method("TRACE"));
    assert!(is_refused_method("CONNECT"));
    assert!(!is_refused_method("GET"));
    assert!(is_declared_upload_too_large("POST", Some("2000"), 1000));
    assert!(!is_declared_upload_too_large("GET", Some("2000"), 1000));
    assert!(!is_declared_upload_too_large("PUT", Some("abc"), 1000));
    assert!(!is_declared_upload_too_large("PATCH", None, 1000));
    assert!(is_upload_too_large(Some("10"), 2000, 1000));
    assert!(is_upload_too_large(Some("5000"), 10, 1000));
    assert!(!is_upload_too_large(Some("x"), 10, 1000));
    assert!(!is_upload_too_large(None, 1000, 1000));
}

#[test]
fn host_checks() {
    let domains = vec!["example.com".to_string()];
    assert!(is_host_allowed(true, &domains, None));
    assert!(is_host_allowed(false, &[], None));
    assert!(is_host_allowed(false, &domains, Some("example.com:8080")));
    assert!(!is_host_allowed(false, &domains, Some("10.0.0.1:8080")));
    assert!(!is_host_allowed(false, &domains, None));
}

#[test]
fn rewrite_path_choice() {
    assert!(rewrite_changes_path("/a", &Some("/index.php/a".to_string())));
    assert!(!rewrite_changes_path("/a", &Some("/a".to_string())));
    assert!(!rewrite_changes_path("/a", &None));
    assert_eq!(select_final_path("/a", Some("/index.php/a".to_string()), false), "/index.php/a");
    assert_eq!(select_final_path("/a", Some("/index.php/a".to_string()), true), "/a");
    assert_eq!(select_final_path("/a", None, false), "/a");
    assert_eq!(root_relative("//x/y"), "x/y");
    assert_eq!(relative_to_location("/api/users", "/api"), "users");
    assert_eq!(relative_to_location("/other", "/api"), "other");
}

fn location(path: &str, proxy: Option<&str>) -> LocationConfig {
    LocationConfig {
        path: path.to_string(),
        proxy_pass: proxy.map(|p| p.to_string()),
        root: None,
        proxy_headers: vec![],
        expires: None,
        cgi: None,
        interpreter: None,
        load_balance_targets: vec![],
        load_balance_strategy: "round_robin".to_string(),
    }
}

#[test]
fn longest_location_wins() {
    let locs = vec![location("/", None), location("/api", Some("http://b")), location("/api/v1", None), location("/api", None)];
    assert_eq!(match_location(&locs, "/api/v1/x", false), Some(2));
    assert_eq!(match_location(&locs, "/api/x", false), Some(1));
    assert_eq!(match_location(&locs, "/api/v1/x", true), Some(1));
    assert_eq!(match_location(&locs, "/zzz", false), Some(0));
    assert_eq!(match_location(&locs, "/zzz", true), None);
    assert!(has_reverse_proxy(&locs));
    let mut balanced = location("/lb", None);
    balanced.load_balance_targets.push(LoadBalanceTarget { url: "http://x".to_string(), weight: 1 });
    assert!(has_reverse_proxy(&[balanced]));
    assert!(!has_reverse_proxy(&[location("/", None)]));
}

#[test]
fn error_pages() {
    assert_eq!(error_status(404), 404);
    assert_eq!(error_status(42), 500);
    assert_eq!(
        error_page(404, "Not Found"),
        "<!DOCTYPE html><html><head><meta charset='utf-8'><title>404 Not Found</title></head><body><h1>404 Not Found</h1><hr><p>ohos-server/1.0</p></body></html>"
    );
    assert_eq!(etag_value(255, 16), "\"ff-10\"");
    assert_eq!(upload_file_name(1700000000), "1700000000.bin");
    assert_eq!(upload_file_name(-5), "-5.bin");
    assert_eq!(upload_reply(12, "1.bin"), "{\"status\":\"ok\",\"size\":12,\"file\":\"uploads/1.bin\"}");
}

#[test]
fn cgi_output_parsing() {
    let out = b"Status: 404 Not Found\r\nContent-Type: text/plain\r\n\r\nhello";
    let h = parse_cgi_headers(out);
    assert_eq!(h.status, 404);
    assert_eq!(h.content_type, "text/plain");
    assert_eq!(h.location, None);
    assert_eq!(cgi_body(out), b"hello".to_vec());
    assert_eq!(cgi_response_status(&h), 404);

    let redirect = b"location: /next\n\nbody";
    let h = parse_cgi_headers(redirect);
    assert_eq!(h.location, Some("/next".to_string()));
    assert_eq!(cgi_response_status(&h), 302);
    assert_eq!(cgi_body(redirect), b"body".to_vec());

    let plain = b"no headers at all";
    let h = parse_cgi_headers(plain);
    assert_eq!(h.status, 200);
    assert_eq!(h.content_type, "text/html; charset=utf-8");
    assert_eq!(cgi_body(plain), Vec::<u8>::new());

    let bad = b"Status: abc\n\n";
    assert_eq!(parse_cgi_headers(bad).status, 200);
    let odd = b"Status: 42\n\n";
    let h = parse_cgi_headers(odd);
    assert_eq!(h.status, 42);
    assert_eq!(cgi_response_status(&h), 200);
}

#[test]
fn cgi_lookup_and_env() {
    let cgi = vec![CgiConfig { extensions: vec![".php".to_string()], interpreter: "/usr/bin/php-cgi".to_string() }];
    assert_eq!(find_cgi_config(&cgi, "/var/www/index.php"), Some(0));
    assert_eq!(find_cgi_config(&cgi, "/var/www/index.html"), None);
    assert_eq!(find_cgi_config(&cgi, "/var/www/README"), None);
    assert_eq!(server_port("0.0.0.0:8080"), "8080");
    assert_eq!(server_port("localhost"), "80");
    assert_eq!(http_env_name("user-agent"), "HTTP_USER_AGENT");
    let headers = vec![("x-token".to_string(), "t".to_string())];
    let env = cgi_env("ohos-server/1", "0.0.0.0:8080", "GET", "/var/www/a.php", "/var/www", Some("x=1"), "1.2.3.4", "text/plain", 3, &headers);
    assert_eq!(env.len(), 17);
    assert_eq!(env[4], ("SERVER_PORT".to_string(), "8080".to_string()));
    assert_eq!(env[6], ("PATH_INFO".to_string(), "/a.php?x=1".to_string()));
    assert_eq!(env[8], ("SCRIPT_NAME".to_string(), "/a.php".to_string()));
    assert_eq!(env[13], ("CONTENT_LENGTH".to_string(), "3".to_string()));
    assert_eq!(env[16], ("HTTP_X_TOKEN".to_string(), "t".to_string()));
}

#[test]
fn compression_choice() {
    let body = vec![b'a'; 1000];
    let (out, zipped) = compress_body(Some("gzip, deflate"), Some("text/html"), body.clone());
    assert!(zipped);
    assert!(out.len() < body.len());
    let (out, zipped) = compress_body(None, Some("text/html"), body.clone());
    assert!(!zipped);
    assert_eq!(out, body);
    let (_, zipped) = compress_body(Some("gzip"), Some("image/png"), body.clone());
    assert!(!zipped);
    let (_, zipped) = compress_body(Some("gzip"), Some("application/json"), vec![b'a'; 100]);
    assert!(!zipped);
}

#[test]
fn lexical_normalization() {
    assert_eq!(normalize_lexical("/var/www/../etc/passwd"), "/var/www/etc/passwd");
    assert_eq!(normalize_lexical("./www//a/./b"), "./www/a/b");
    assert_eq!(normalize_lexical("a/b/.."), "a/b");
    assert_eq!(normalize_lexical("."), ".");
    assert_eq!(normalize_lexical("/"), "/");
}

#[test]
fn websocket_tunnel() {
    let headers = vec![
        ("Upgrade".to_string(), b"websocket".to_vec()),
        ("Transfer-Encoding".to_string(), b"chunked".to_vec()),
    ];
    let req = tunnel_request("/ws?x=1", &headers, "backend");
    assert_eq!(req, b"GET /ws?x=1 HTTP/1.1\r\nUpgrade: websocket\r\nHost: backend\r\n\r\n".to_vec());
    assert!(tunnel_accepted(34, "HTTP/1.1 101 Switching Protocols\r\n"));
    assert!(!tunnel_accepted(17, "HTTP/1.1 200 OK\r\n"));
    assert_eq!(tunnel_header("Sec-WebSocket-Accept: abc= "), Some(("Sec-WebSocket-Accept".to_string(), "abc=".to_string())));
    assert_eq!(tunnel_header("no colon"), None);
}

#[test]
fn directory_listing() {
    let sorted = sort_entries(vec![("b".to_string(), false), ("a".to_string(), true), ("ab".to_string(), false)]);
    assert_eq!(sorted, vec![("a".to_string(), true), ("ab".to_string(), false), ("b".to_string(), false)]);
    let html = listing_html(vec![("z.txt".to_string(), false), ("docs".to_string(), true)]);
    let docs = html.find("docs/").unwrap();
    let z = html.find("z.txt").unwrap();
    assert!(docs < z);
    assert!(html.contains("<tr><td>📁 <a href='./docs/'>docs/</a></td><td>directory</td></tr>"));
    assert!(html.ends_with("</table><hr></body></html>"));
}

#[test]
fn regular_actions() {
    assert_eq!(regular_action("GET", false, false, false, false), RegularAction::ServeFile);
    assert_eq!(regular_action("HEAD", true, false, false, false), RegularAction::RunCgi);
    assert_eq!(regular_action("POST", false, true, false, false), RegularAction::TooLarge);
    assert_eq!(regular_action("POST", false, false, false, false), RegularAction::StoreUpload);
    assert_eq!(regular_action("PUT", true, false, false, false), RegularAction::NotAllowed);
    assert_eq!(regular_action("PATCH", false, false, true, false), RegularAction::StoreUpload);
    assert_eq!(regular_action("DELETE", false, false, false, true), RegularAction::Delete);
    assert_eq!(regular_action("DELETE", false, false, false, false), RegularAction::NotAllowed);
    assert_eq!(regular_action("OPTIONS", false, false, true, true), RegularAction::NotAllowed);
}
