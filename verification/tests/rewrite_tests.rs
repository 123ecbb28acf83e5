use ohos_server::config::RewriteRule;
use ohos_server::rewrite::{expand_template, RewriteEngine};

fn make_rules(rules: &[(&str, &str)]) -> Vec<RewriteRule> {
    rules
        .iter()
        .map(|(from, to)| RewriteRule { from: from.to_string(), to: to.to_string(), regex: true })
        .collect()
}

#[test]
fn test_no_rules() {
    let engine = RewriteEngine::new(&[]);
    assert_eq!(engine.rewrite("/any/path"), None);
}

#[test]
fn test_no_match() {
    let rules = make_rules(&[("^/api/(.*)$", "/api.php?r=$1")]);
    let engine = RewriteEngine::new(&rules);
    assert_eq!(engine.rewrite("/about"), None);
    assert_eq!(engine.rewrite("/"), None);
}

#[test]
fn test_simple_capture() {
    let rules = make_rules(&[("^/article/(\\d+)$", "/article.html?id=$1")]);
    let engine = RewriteEngine::new(&rules);
    assert_eq!(engine.rewrite("/article/123").unwrap(), "/article.html?id=123");
    assert_eq!(engine.rewrite("/article/999").unwrap(), "/article.html?id=999");
}

#[test]
fn test_multiple_captures() {
    let rules = make_rules(&[("^/api/v1/(\\w+)/(\\d+)$", "/api.php?action=$1&id=$2")]);
    let engine = RewriteEngine::new(&rules);
    assert_eq!(engine.rewrite("/api/v1/users/42").unwrap(), "/api.php?action=users&id=42");
    assert_eq!(engine.rewrite("/api/v1/posts/7").unwrap(), "/api.php?action=posts&id=7");
}

#[test]
fn test_thinkphp_catch_all() {
    let rules = make_rules(&[("^/(.*)$", "/index.php/$1")]);
    let engine = RewriteEngine::new(&rules);
    assert_eq!(engine.rewrite("/home/index/test").unwrap(), "/index.php/home/index/test");
    assert_eq!(engine.rewrite("/admin/user/edit/id/1").unwrap(), "/index.php/admin/user/edit/id/1");
    assert_eq!(engine.rewrite("/").unwrap(), "/index.php/");
}

#[test]
fn test_thinkphp_exclude_static() {
    let rules = make_rules(&[
        ("^/assets/.*$", "$0"),
        ("^/uploads/.*$", "$0"),
        ("^/static/.*$", "$0"),
        ("^/robots\\.txt$", "$0"),
        ("^/favicon\\.ico$", "$0"),
        ("^/(.*)$", "/index.php/$1"),
    ]);
    let engine = RewriteEngine::new(&rules);
    assert_eq!(engine.rewrite("/home/index").unwrap(), "/index.php/home/index");
    assert_eq!(engine.rewrite("/admin/login").unwrap(), "/index.php/admin/login");
    assert_eq!(engine.rewrite("/assets/css/app.css").unwrap(), "/assets/css/app.css");
    assert_eq!(engine.rewrite("/uploads/2024/01.jpg").unwrap(), "/uploads/2024/01.jpg");
    assert_eq!(engine.rewrite("/static/js/app.js").unwrap(), "/static/js/app.js");
    assert_eq!(engine.rewrite("/robots.txt").unwrap(), "/robots.txt");
    assert_eq!(engine.rewrite("/favicon.ico").unwrap(), "/favicon.ico");
}

#[test]
fn test_thinkphp_full_config() {
    let rules = make_rules(&[
        ("^/(assets|uploads|static|runtime)/.*$", "/$0"),
        ("^/$", "/index.php"),
        ("^/(.*)$", "/index.php/$1"),
    ]);
    let engine = RewriteEngine::new(&rules);
    assert!(engine.rewrite("/assets/css/app.css").is_some());
    assert!(engine.rewrite("/home/index").is_some());
}

#[test]
fn test_laravel_catch_all() {
    let rules = make_rules(&[("^/(.*)$", "/index.php/$1")]);
    let engine = RewriteEngine::new(&rules);
    assert_eq!(engine.rewrite("/login").unwrap(), "/index.php/login");
    assert_eq!(engine.rewrite("/register").unwrap(), "/index.php/register");
    assert_eq!(engine.rewrite("/api/users").unwrap(), "/index.php/api/users");
    assert_eq!(engine.rewrite("/").unwrap(), "/index.php/");
}

#[test]
fn test_laravel_subdirectory() {
    let rules = make_rules(&[("^/(.*)$", "/public/index.php/$1")]);
    let engine = RewriteEngine::new(&rules);
    assert_eq!(engine.rewrite("/dashboard").unwrap(), "/public/index.php/dashboard");
    assert_eq!(engine.rewrite("/admin/users/1/edit").unwrap(), "/public/index.php/admin/users/1/edit");
}

#[test]
fn test_laravel_api_and_static() {
    let rules = make_rules(&[
        ("^/api/v\\d+/(.*)$", "/index.php/api/$1"),
        ("^/(css|js|img|fonts)/.*$", "$0"),
        ("^/(.*)$", "/index.php/$1"),
    ]);
    let engine = RewriteEngine::new(&rules);
    assert_eq!(engine.rewrite("/api/v1/users").unwrap(), "/index.php/api/users");
    assert_eq!(engine.rewrite("/api/v2/products").unwrap(), "/index.php/api/products");
    assert_eq!(engine.rewrite("/css/style.css").unwrap(), "/css/style.css");
    assert_eq!(engine.rewrite("/js/app.js").unwrap(), "/js/app.js");
    assert_eq!(engine.rewrite("/dashboard").unwrap(), "/index.php/dashboard");
}

#[test]
fn test_wordpress_rewrite() {
    let rules = make_rules(&[("^/$", "/index.php"), ("^/(.*)$", "/index.php/$1")]);
    let engine = RewriteEngine::new(&rules);
    assert_eq!(engine.rewrite("/").unwrap(), "/index.php");
    assert_eq!(engine.rewrite("/hello-world").unwrap(), "/index.php/hello-world");
    assert_eq!(engine.rewrite("/category/tech").unwrap(), "/index.php/category/tech");
}

#[test]
fn test_yii2_rewrite() {
    let rules = make_rules(&[("^/(.*)$", "/index.php?r=$1")]);
    let engine = RewriteEngine::new(&rules);
    assert_eq!(engine.rewrite("/site/index").unwrap(), "/index.php?r=site/index");
    assert_eq!(engine.rewrite("/admin/default/login").unwrap(), "/index.php?r=admin/default/login");
}

#[test]
fn test_invalid_regex() {
    let rules = vec![RewriteRule { from: "[invalid".to_string(), to: "/index.php".to_string(), regex: true }];
    let engine = RewriteEngine::new(&rules);
    assert_eq!(engine.rewrite("/any"), None);
}

#[test]
fn test_first_match_wins() {
    let rules = make_rules(&[("^/api/(.*)$", "/api_handler.php?r=$1"), ("^/(.*)$", "/index.php/$1")]);
    let engine = RewriteEngine::new(&rules);
    assert_eq!(engine.rewrite("/api/users").unwrap(), "/api_handler.php?r=users");
    assert_eq!(engine.rewrite("/home").unwrap(), "/index.php/home");
}

#[test]
fn test_empty_path() {
    let rules = make_rules(&[("^(.*)$", "/index.php/$1")]);
    let engine = RewriteEngine::new(&rules);
    assert_eq!(engine.rewrite("").unwrap(), "/index.php/");
}

#[test]
fn test_special_chars() {
    let rules = make_rules(&[("^/product/([a-zA-Z0-9_-]+)$", "/product.php?slug=$1")]);
    let engine = RewriteEngine::new(&rules);
    assert_eq!(engine.rewrite("/product/iphone-15_pro").unwrap(), "/product.php?slug=iphone-15_pro");
}

#[test]
fn template_expansion_fills_groups() {
    let caps = vec![Some("/a/b".to_string()), Some("a".to_string()), None];
    assert_eq!(expand_template("/x/$1/$0", &caps), "/x/a//a/b");
    // a group that took no part, or does not exist, leaves its reference as it stands
    assert_eq!(expand_template("[$2][$7]", &caps), "[$2][$7]");
    assert_eq!(expand_template("/plain", &caps), "/plain");
}

#[test]
fn template_expansion_is_plain_text_replacement() {
    let caps = vec![Some("zero".to_string()), Some("one".to_string())];
    assert_eq!(expand_template("$1a-$1", &caps), "onea-one");
    assert_eq!(expand_template("${1}a", &caps), "${1}a");
    assert_eq!(expand_template("$$1", &caps), "$one");
    // `$0` is replaced first, so text it brings in is open to later groups
    let caps2 = vec![Some("$1".to_string()), Some("X".to_string())];
    assert_eq!(expand_template("$0", &caps2), "X");
}

#[test]
fn rewrite_keeps_path_of_existing_file() {
    let rules = make_rules(&[("^/(.*)$", "/index.php/$1")]);
    let engine = RewriteEngine::new(&rules);
    let rewritten = engine.rewrite("/index.html");
    assert_eq!(rewritten, Some("/index.php/index.html".to_string()));
    assert_eq!(ohos_server::handler::select_final_path("/index.html", rewritten, true), "/index.html");
    let rewritten = engine.rewrite("/nonexistent");
    assert_eq!(
        ohos_server::handler::select_final_path("/nonexistent", rewritten, false),
        "/index.php/nonexistent"
    );
    let rewritten = engine.rewrite("/");
    assert_eq!(ohos_server::handler::select_final_path("/", rewritten, false), "/index.php/");
}

#[test]
fn rewrite_without_match_keeps_path() {
    let rules = make_rules(&[("^/api/(.*)$", "/api_handler.php?r=$1")]);
    let engine = RewriteEngine::new(&rules);
    let rewritten = engine.rewrite("/index.html");
    assert_eq!(rewritten, None);
    assert_eq!(ohos_server::handler::select_final_path("/index.html", rewritten, true), "/index.html");
    let rewritten = engine.rewrite("/api/users");
    assert_eq!(
        ohos_server::handler::select_final_path("/api/users", rewritten, false),
        "/api_handler.php?r=users"
    );
}
