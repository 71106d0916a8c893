use rustnext::app::{default_error_reply, App, Target};
use rustnext::assets::{content_type_of_extension, AssetManager, AssetOptimization};
use rustnext::auth::{AuthMiddleware, JwtAuth, TokenStep};
use rustnext::compression::{CompressionMiddleware, Encoding};
use rustnext::config::{parse_port, Config, EnvOverrides};
use rustnext::http::{AppError, Method};
use rustnext::middleware::{client_key, AuthGuard, Cors, GuardDecision, RateLimiter};
use rustnext::static_files::StaticFiles;
use rustnext::template::TemplateEngine;
use rustnext::text::decimal;
use rustnext::text_map::TextMap;
use std::sync::Arc;

fn window_count(l: &RateLimiter, key: &str) -> u32 {
    l.clients.iter().find(|c| c.key == key).map(|c| c.count).unwrap()
}

#[test]
fn rate_limiter_rejects_third_request_and_resets_after_window() {
    let mut l = RateLimiter::new(2, 60);
    assert!(l.check_request("1.2.3.4", 0));
    assert!(l.check_request("1.2.3.4", 1_000));
    assert!(!l.check_request("1.2.3.4", 2_000));
    assert!(l.check_request("5.6.7.8", 2_500));
    assert!(l.check_request("1.2.3.4", 61_001));
    assert_eq!(window_count(&l, "1.2.3.4"), 1);
    assert_eq!(window_count(&l, "5.6.7.8"), 1);
}

#[test]
fn rate_limiter_window_boundary_is_inclusive() {
    let mut l = RateLimiter::new(1, 60);
    assert!(l.check_request("k", 0));
    assert!(!l.check_request("k", 60_999));
    assert!(l.check_request("k", 61_000));
}

#[test]
fn rate_limiter_reply_carries_retry_hint() {
    let l = RateLimiter::new(2, 60);
    let r = l.reject_reply();
    assert_eq!(r.status, 429);
    assert_eq!(r.headers.get("Retry-After"), Some(&"60".to_string()));
    assert_eq!(r.body, "{\"error\":\"Rate limit exceeded\"}");
}

#[test]
fn client_key_prefers_forwarded_for() {
    assert_eq!(client_key(Some(Some("10.0.0.1")), Some(Some("10.0.0.2"))), "10.0.0.1");
    assert_eq!(client_key(None, Some(Some("10.0.0.2"))), "10.0.0.2");
    assert_eq!(client_key(None, None), "unknown");
    assert_eq!(client_key(Some(None), Some(Some("10.0.0.2"))), "unknown");
}

#[test]
fn cors_answers_preflight_and_tags_responses() {
    assert!(Cors::is_preflight(Method::Options));
    assert!(!Cors::is_preflight(Method::Get));
    let c = Cors::new().allow_origin("https://example.com");
    let r = c.preflight_reply();
    assert_eq!(r.status, 200);
    assert_eq!(r.body, "");
    assert_eq!(r.headers.get("Access-Control-Allow-Origin"), Some(&"https://example.com".to_string()));
    assert_eq!(r.headers.get("Access-Control-Allow-Methods"), Some(&"GET, POST, PUT, DELETE, OPTIONS".to_string()));
    assert_eq!(r.headers.get("Access-Control-Allow-Headers"), Some(&"Content-Type, Authorization".to_string()));
    let mut h = TextMap::new();
    c.on_response(&mut h);
    assert_eq!(h.get("Access-Control-Allow-Origin"), Some(&"https://example.com".to_string()));
}

#[test]
fn auth_guard_decisions() {
    let g = AuthGuard::new().require_role("admin").require_role("editor");
    assert!(matches!(g.decide(&None, &vec![]), GuardDecision::Unauthorized));
    let some = Some("u1".to_string());
    assert!(matches!(g.decide(&some, &vec!["viewer".to_string()]), GuardDecision::Forbidden));
    assert!(matches!(g.decide(&some, &vec!["viewer".to_string(), "editor".to_string()]), GuardDecision::Proceed));
    let open = AuthGuard::new();
    assert!(matches!(open.decide(&some, &vec![]), GuardDecision::Proceed));
    let r = AuthGuard::new().redirect_to("/login");
    match r.decide(&None, &vec![]) {
        GuardDecision::Redirect(u) => assert_eq!(u, "/login"),
        _ => panic!("expected redirect"),
    }
}

#[test]
fn guard_replies() {
    let u = GuardDecision::Unauthorized.reply().unwrap();
    assert_eq!(u.status, 401);
    assert_eq!(u.body, "{\"error\":\"Authentication required\"}");
    let f = GuardDecision::Forbidden.reply().unwrap();
    assert_eq!(f.status, 403);
    let r = GuardDecision::Redirect("/in".to_string()).reply().unwrap();
    assert_eq!(r.status, 302);
    assert_eq!(r.headers.get("Location"), Some(&"/in".to_string()));
    assert!(GuardDecision::Proceed.reply().is_none());
}

#[test]
fn error_kinds_map_to_statuses() {
    assert_eq!(AppError::NotFound("x".to_string()).status(), 404);
    assert_eq!(AppError::Internal("x".to_string()).status(), 500);
    assert_eq!(AppError::BadRequest("x".to_string()).status(), 400);
    assert_eq!(AppError::Unauthorized("x".to_string()).status(), 401);
    assert_eq!(AppError::Forbidden("x".to_string()).status(), 403);
    assert_eq!(AppError::Custom(418, "x".to_string()).status(), 418);
    assert_eq!(AppError::Internal("boom".to_string()).to_text(), "Internal Server Error: boom");
    assert_eq!(AppError::Custom(418, "tea".to_string()).to_text(), "Custom Error: tea");
}

#[test]
fn default_error_reply_is_an_html_page() {
    let r = default_error_reply(&AppError::NotFound("Route not found: /nope".to_string()));
    assert_eq!(r.status, 404);
    assert_eq!(r.headers.get("Content-Type"), Some(&"text/html".to_string()));
    assert_eq!(
        r.body,
        "<div class=\"container\"><h1>Error 404: Not Found</h1><p>Route not found: /nope</p></div>"
    );
    let r = default_error_reply(&AppError::Internal("a < b & c > d".to_string()));
    assert_eq!(r.status, 500);
    assert_eq!(
        r.body,
        "<div class=\"container\"><h1>Error 500: Internal Server Error</h1><p>a &lt; b &amp; c &gt; d</p></div>"
    );
    let r = default_error_reply(&AppError::Custom(599, "x".to_string()));
    assert_eq!(r.body, "<div class=\"container\"><h1>Error 599: Unknown Error</h1><p>x</p></div>");
    let r = default_error_reply(&AppError::Custom(418, "tea".to_string()));
    assert_eq!(r.body, "<div class=\"container\"><h1>Error 418: I'm a teapot</h1><p>tea</p></div>");
}

#[test]
fn extension_table() {
    assert_eq!(content_type_of_extension(Some("svg")), "image/svg+xml");
    assert_eq!(content_type_of_extension(Some("ico")), "image/x-icon");
    assert_eq!(content_type_of_extension(Some("CSS")), "application/octet-stream");
    assert_eq!(content_type_of_extension(None), "application/octet-stream");
}

#[test]
fn builders_keep_other_settings() {
    let jwt = Arc::new(JwtAuth::new("k"));
    let m = AuthMiddleware::new(jwt.clone()).skip_path("/a");
    assert!(Arc::ptr_eq(&m.jwt, &jwt));
    assert_eq!(m.skip_paths, vec!["/login".to_string(), "/register".to_string(), "/a".to_string()]);
    let mut c = Config::defaults();
    c.set("k", "v");
    assert_eq!(c.server.port, 3000);
    assert_eq!(c.database.max_connections, 10);
}

#[test]
fn dispatcher_sends_static_prefix_to_static_files() {
    let app: App<u32, u32> = App::new().static_files("public", "/static");
    assert_eq!(app.target("/static/site.css"), Target::StaticFiles);
    assert_eq!(app.target("/users"), Target::Routes);
    let bare: App<u32, u32> = App::new();
    assert_eq!(bare.target("/static/site.css"), Target::Routes);
}

#[test]
fn static_files_strip_prefix() {
    let s = StaticFiles::new("public", "/static");
    assert_eq!(s.file_path("/static/css/a.css"), Some("/css/a.css".to_string()));
    assert_eq!(s.file_path("/other"), None);
    assert!(s.serves("/static"));
}

#[test]
fn asset_content_types() {
    let m = AssetManager::new("assets");
    assert_eq!(m.get_content_type("css/site.css"), "text/css");
    assert_eq!(m.get_content_type("app.js"), "application/javascript");
    assert_eq!(m.get_content_type("photo.JPEG"), "application/octet-stream");
    assert_eq!(m.get_content_type("photo.jpeg"), "image/jpeg");
    assert_eq!(m.get_content_type("font.woff2"), "font/woff2");
    assert_eq!(m.get_content_type("README"), "application/octet-stream");
    assert_eq!(m.cache_control(), "public, max-age=3600");
    let o = AssetOptimization::default();
    assert!(o.minify_css && o.minify_js && o.compress_images);
}

#[test]
fn compression_choice() {
    assert_eq!(CompressionMiddleware::choose_encoding("gzip, deflate, br"), Some(Encoding::Brotli));
    assert_eq!(CompressionMiddleware::choose_encoding("gzip"), Some(Encoding::Gzip));
    assert_eq!(CompressionMiddleware::choose_encoding("deflate"), None);
    assert_eq!(CompressionMiddleware::choose_encoding(""), None);
    let c = CompressionMiddleware::new();
    assert!(c.should_compress(1024));
    assert!(!c.should_compress(1023));
    let c = c.min_size(10);
    assert!(c.should_compress(10));
    assert_eq!(Encoding::Brotli.name(), "br");
}

#[test]
fn token_middleware_steps() {
    let jwt = Arc::new(JwtAuth::new("s3cret"));
    assert_eq!(jwt.secret(), "s3cret");
    let m = AuthMiddleware::new(jwt).skip_path("/health");
    assert!(matches!(m.step("/login", None), TokenStep::Skip));
    assert!(matches!(m.step("/health", None), TokenStep::Skip));
    assert!(matches!(m.step("/api", None), TokenStep::Missing));
    assert!(matches!(m.step("/api", Some("Basic abc")), TokenStep::Missing));
    match m.step("/api", Some("Bearer tok.en")) {
        TokenStep::Verify(t) => assert_eq!(t, "tok.en"),
        _ => panic!("expected a token"),
    }
}

#[test]
fn config_defaults_and_custom_entries() {
    let mut c = Config::defaults();
    assert_eq!(c.server.port, 3000);
    assert!(c.server.workers >= 1);
    assert_eq!(c.get("theme"), None);
    c.set("theme", "dark");
    c.set("theme", "light");
    assert_eq!(c.get("theme"), Some(&"light".to_string()));
}

#[test]
fn template_engine_wraps_body() {
    let mut t = TemplateEngine::new();
    assert!(t.register_template_file("home", "home.html").is_ok());
    assert_eq!(t.render("<p>hi</p>"), "<html><body><p>hi</p></body></html>");
}

#[test]
fn decimal_text() {
    assert_eq!(decimal(0), "0");
    assert_eq!(decimal(429), "429");
    assert_eq!(decimal(u64::MAX), u64::MAX.to_string());
}

#[test]
fn port_parsing_follows_std() {
    for s in ["8080", "+80", "0", "65535", "65536", "", "+", "-1", "80a", " 80", "0099", "99999999999"] {
        assert_eq!(parse_port(s), s.parse::<u16>().ok(), "{}", s);
    }
}

#[test]
fn environment_overrides_settings() {
    let mut c = Config::defaults();
    let env = EnvOverrides {
        host: Some("0.0.0.0".to_string()),
        port: Some("not-a-port".to_string()),
        database_url: None,
        jwt_secret: Some("k".to_string()),
        enable_compression: Some("false".to_string()),
        enable_metrics: Some("true".to_string()),
        enable_hot_reload: None,
        enable_logging: Some("TRUE".to_string()),
    };
    c.apply_overrides(&env);
    assert_eq!(c.server.host, "0.0.0.0");
    assert_eq!(c.server.port, 3000);
    assert_eq!(c.database.url, "postgresql://localhost/rustnext");
    assert_eq!(c.auth.jwt_secret, "k");
    assert!(!c.features.compression);
    assert!(c.features.metrics);
    assert!(!c.features.hot_reload);
    assert!(!c.features.logging);
    let env2 = EnvOverrides {
        host: None,
        port: Some("8081".to_string()),
        database_url: None,
        jwt_secret: None,
        enable_compression: None,
        enable_metrics: None,
        enable_hot_reload: None,
        enable_logging: None,
    };
    c.apply_overrides(&env2);
    assert_eq!(c.server.port, 8081);
    assert!(c.features.metrics);
}

fn reference_minify(text: &str, marker: &str) -> String {
    text.lines()
        .map(|l| l.trim())
        .filter(|l| !l.starts_with(marker) && !l.is_empty())
        .collect::<Vec<_>>()
        .join(" ")
}

#[test]
fn css_and_js_are_minified() {
    let m = AssetManager::new("assets");
    let css = "body {\r\n  color: red;\n}\n/* note */\n\n\t\n";
    let out = m.optimize_content(&css.as_bytes().to_vec(), "text/css");
    assert_eq!(String::from_utf8(out).unwrap(), "body { color: red; }");
    let js = "let a = 1; \n   // comment\n  a++;";
    let out = m.optimize_content(&js.as_bytes().to_vec(), "application/javascript");
    assert_eq!(String::from_utf8(out).unwrap(), "let a = 1; a++;");
    let png = vec![0x89u8, 0x50, 0x4e, 0x47, 0x0a, 0x20];
    assert_eq!(m.optimize_content(&png, "image/png"), png);
    for (text, marker) in [(css, "/*"), (js, "//"), ("", "//"), ("\n\n", "/*"), ("a\nb\r\nc", "//")] {
        let got: String = rustnext::assets::minify(text, marker).into_iter().collect();
        assert_eq!(got, reference_minify(text, marker));
    }
}

#[test]
fn invalid_utf8_is_replaced_before_minifying() {
    let m = AssetManager::new("assets");
    let bytes = vec![b'a', 0xff, b'\n', b'b'];
    let out = m.optimize_content(&bytes, "text/javascript");
    assert_eq!(String::from_utf8(out).unwrap(), "a\u{fffd} b");
}

#[test]
fn form_body_becomes_one_upload() {
    let ups = rustnext::upload::uploads_from_body(b"hello".to_vec());
    assert_eq!(ups.len(), 1);
    assert_eq!(ups[0].filename, "example.txt");
    assert_eq!(ups[0].content_type, "text/plain");
    assert_eq!(ups[0].size, 5);
    assert_eq!(ups[0].data, b"hello".to_vec());
}
