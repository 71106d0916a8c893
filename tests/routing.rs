use rustnext::http::{AppError, Method};
use rustnext::pattern::PathPattern;
use rustnext::request::parse_query;
use rustnext::router::{Route, Router};
use rustnext::text_map::TextMap;

#[test]
fn literal_template_matches_only_identical_path() {
    let p = PathPattern::new("/about");
    assert!(p.match_path("/about").is_some());
    assert!(p.match_path("/about/").is_none());
    assert!(p.match_path("/abou").is_none());
    assert!(p.match_path("/aboutx").is_none());
    assert!(p.match_path("x/about").is_none());
    assert!(p.match_path("").is_none());
    assert_eq!(p.match_path("/about").unwrap().captures.len(), 0);
}

#[test]
fn literal_template_with_regex_characters_matches_itself() {
    let p = PathPattern::new("/a.b+c?(d)");
    assert!(p.match_path("/a.b+c?(d)").is_some());
    assert!(p.match_path("/aXb+c?(d)").is_none());
}

#[test]
fn named_parameter_captures_one_segment() {
    let p = PathPattern::new("/users/:id");
    assert_eq!(p.param_names, vec!["id".to_string()]);
    let m = p.match_path("/users/42").unwrap();
    assert_eq!(m.params.get("id"), Some(&"42".to_string()));
    assert_eq!(m.params.len(), 1);
    assert!(p.match_path("/users/42/extra").is_none());
    assert!(p.match_path("/users/").is_none());
}

#[test]
fn wildcard_captures_rest_of_path() {
    let p = PathPattern::new("/files/*");
    let m = p.match_path("/files/a/b/c.txt").unwrap();
    assert_eq!(m.wildcards, vec!["a/b/c.txt".to_string()]);
    assert_eq!(m.params.len(), 0);
    let empty = p.match_path("/files/").unwrap();
    assert_eq!(empty.wildcards, vec!["".to_string()]);
}

#[test]
fn wildcard_is_excluded_from_named_parameters() {
    let p = PathPattern::new("/*/:id");
    let m = p.match_path("/x/y/7").unwrap();
    assert_eq!(m.captures, vec!["x/y".to_string(), "7".to_string()]);
    assert_eq!(m.params.get("id"), Some(&"7".to_string()));
    assert_eq!(m.wildcards, vec!["x/y".to_string()]);
}

#[test]
fn parameter_name_stops_at_non_name_character() {
    let p = PathPattern::new("/posts/:post_id.json");
    assert_eq!(p.param_names, vec!["post_id".to_string()]);
    let m = p.match_path("/posts/12.json").unwrap();
    assert_eq!(m.params.get("post_id"), Some(&"12".to_string()));
}

#[test]
fn duplicate_parameter_name_keeps_first_capture() {
    let p = PathPattern::new("/:a/:a");
    let m = p.match_path("/one/two").unwrap();
    assert_eq!(m.params.get("a"), Some(&"one".to_string()));
    assert_eq!(m.params.len(), 1);
}

#[test]
fn empty_segments_are_literal() {
    let p = PathPattern::new("/a//b");
    assert!(p.match_path("/a//b").is_some());
    assert!(p.match_path("/a/b").is_none());
}

#[test]
fn first_registered_route_wins() {
    let r: Router<u32, u32> = Router::new().get("/a/:x", 1).get("/a/fixed", 2);
    let (i, m) = r.find_route(Method::Get, "/a/fixed").unwrap();
    assert_eq!(i, 0);
    assert_eq!(*r.handler(i), 1);
    assert_eq!(m.params.get("x"), Some(&"fixed".to_string()));
}

#[test]
fn method_must_match_exactly() {
    let r: Router<u32, u32> = Router::new().get("/items", 1).post("/items", 2).put("/items", 3).delete("/items", 4);
    assert_eq!(r.find_route(Method::Post, "/items").unwrap().0, 1);
    assert_eq!(r.find_route(Method::Put, "/items").unwrap().0, 2);
    assert_eq!(r.find_route(Method::Delete, "/items").unwrap().0, 3);
    assert!(r.find_route(Method::Head, "/items").is_none());
    assert!(r.find_route(Method::Patch, "/items").is_none());
}

#[test]
fn empty_router_always_answers_not_found() {
    let r: Router<u32, u32> = Router::new();
    for path in ["/", "/x", "", "/a/b/c"] {
        let mut params = TextMap::new();
        match r.resolve(Method::Get, path, &mut params) {
            Err(AppError::NotFound(msg)) => assert_eq!(msg, format!("Route not found: {}", path)),
            _ => panic!("expected not found"),
        }
        assert_eq!(params.len(), 0);
    }
}

#[test]
fn path_matching_under_other_method_is_not_found() {
    let r: Router<u32, u32> = Router::new().post("/submit", 1);
    let mut params = TextMap::new();
    let e = r.resolve(Method::Get, "/submit", &mut params).unwrap_err();
    assert_eq!(e.status(), 404);
    assert_eq!(e.to_text(), "Not Found: Route not found: /submit");
}

#[test]
fn resolve_merges_route_parameters_over_existing_ones() {
    let r: Router<u32, u32> = Router::new().get("/users/:id", 7);
    let mut params = TextMap::new();
    params.insert("id".to_string(), "old".to_string());
    params.insert("keep".to_string(), "yes".to_string());
    assert_eq!(r.resolve(Method::Get, "/users/9", &mut params).unwrap(), 0);
    assert_eq!(params.get("id"), Some(&"9".to_string()));
    assert_eq!(params.get("keep"), Some(&"yes".to_string()));
    assert_eq!(params.len(), 2);
}

#[test]
fn repeated_dispatch_gives_identical_results() {
    let r: Router<u32, u32> = Router::new().get("/a/:x", 1).get("/b", 2).use_middleware(5);
    let mut first = TextMap::new();
    let mut second = TextMap::new();
    let a = r.resolve(Method::Get, "/a/q", &mut first).unwrap();
    let b = r.resolve(Method::Get, "/a/q", &mut second).unwrap();
    assert_eq!(a, b);
    assert_eq!(first.get("x"), second.get("x"));
    assert_eq!(r.wrap_order(), vec![0]);
}

#[test]
fn query_string_is_split_and_decoded() {
    let q = parse_query(Some("a%20b=c%21&flag&x=1&x=2&e="));
    assert_eq!(q.get("a b"), Some(&"c!".to_string()));
    assert_eq!(q.get("x"), Some(&"2".to_string()));
    assert_eq!(q.get("e"), Some(&"".to_string()));
    assert_eq!(q.get("flag"), None);
    assert_eq!(q.len(), 3);
    assert_eq!(parse_query(None).len(), 0);
    let eq = parse_query(Some("k=v=w"));
    assert_eq!(eq.get("k"), Some(&"v=w".to_string()));
}

#[test]
fn route_exposes_wildcard_capture() {
    let r = Route::new(Method::Get, "/files/*", 0u32);
    let m = r.matches(Method::Get, "/files/a/b/c.txt").unwrap();
    assert_eq!(m.wildcards, vec!["a/b/c.txt".to_string()]);
    assert_eq!(m.captures, vec!["a/b/c.txt".to_string()]);
    assert_eq!(m.params.len(), 0);
    assert!(r.matches(Method::Post, "/files/a").is_none());
    assert!(r.matches(Method::Get, "/other/a").is_none());
}
