use scoped_router::matcher::{is_acceptable, request_key, PatternRejected};
use scoped_router::method::Method;
use scoped_router::router::Router;

fn handler_at(router: &mut Router<usize>, method: Method, path: &str) -> Option<usize> {
    let mut copy = Router::new();
    if let Some(list) = router.routes() {
        for e in list {
            copy = copy.on(method_of(&e.key[..e.method_prefix_len]), &e.key[e.method_prefix_len..], e.handler);
        }
    }
    let matcher = copy.compile().unwrap();
    matcher.find(method, path).map(|hit| *hit.0)
}

fn method_of(token: &str) -> Method {
    match token {
        "OPTIONS" => Method::Options,
        "GET" => Method::Get,
        "POST" => Method::Post,
        "PUT" => Method::Put,
        "DELETE" => Method::Delete,
        "HEAD" => Method::Head,
        "TRACE" => Method::Trace,
        "CONNECT" => Method::Connect,
        "PATCH" => Method::Patch,
        "*" => Method::Any,
        other => panic!("no method {}", other),
    }
}

#[test]
fn end_to_end() {
    let mut app = Router::new()
        .get("/about", 1)
        .post("/login", 2)
        .delete("/logout", 3)
        .any("/*", 4);
    let list = app.routes().unwrap();
    let keys: Vec<&str> = list.iter().map(|e| e.key.as_str()).collect();
    assert_eq!(keys, vec!["GET/about", "POST/login", "DELETE/logout", "*/*"]);
    let handlers: Vec<i32> = list.iter().map(|e| e.handler).collect();
    assert_eq!(handlers, vec![1, 2, 3, 4]);

    let matcher = app.compile().unwrap();
    assert_eq!(matcher.len(), 4);
    assert_eq!(matcher.find(Method::Get, "/about").map(|hit| *hit.0), Some(1));
    assert_eq!(matcher.find(Method::Post, "/login").map(|hit| *hit.0), Some(2));
    assert_eq!(matcher.find(Method::Delete, "/logout").map(|hit| *hit.0), Some(3));
    assert_eq!(matcher.find(Method::Put, "/elsewhere").map(|hit| *hit.0), Some(4));
}

#[test]
fn compile_drains_the_router() {
    let mut app = Router::new().path("/api").name("app").get("/a", 1);
    let matcher = app.compile().unwrap();
    assert_eq!(matcher.len(), 1);
    assert!(app.routes().is_none());
    assert_eq!(app.mount_path(), "/api");
    assert_eq!(app.display_name(), Some("app"));
    let again = app.compile().unwrap();
    assert_eq!(again.len(), 0);
    assert!(again.find(Method::Get, "/api/a").is_none());
}

#[test]
fn compile_of_an_empty_router_finds_nothing() {
    let matcher = Router::<u8>::new().compile().unwrap();
    assert_eq!(matcher.len(), 0);
    assert!(matcher.find(Method::Get, "/").is_none());
    assert!(matcher.find(Method::Any, "").is_none());
}

#[test]
fn find_tells_methods_apart() {
    let matcher = Router::new().get("/item", 1).post("/item", 2).compile().unwrap();
    assert_eq!(matcher.find(Method::Get, "/item").map(|hit| *hit.0), Some(1));
    assert_eq!(matcher.find(Method::Post, "/item").map(|hit| *hit.0), Some(2));
    assert!(matcher.find(Method::Put, "/item").is_none());
    assert!(matcher.find(Method::Get, "/other").is_none());
}

#[test]
fn find_hands_out_captured_parameters() {
    let matcher = Router::new()
        .path("/users")
        .get("/:id", 1)
        .get("/:id/repos/:repo", 2)
        .compile()
        .unwrap();
    let (handler, params) = matcher.find(Method::Get, "/users/42").unwrap();
    assert_eq!(*handler, 1);
    assert_eq!(params, vec![("id".to_string(), "42".to_string())]);
    let (handler, params) = matcher.find(Method::Get, "/users/42/repos/tree").unwrap();
    assert_eq!(*handler, 2);
    assert_eq!(
        params,
        vec![
            ("id".to_string(), "42".to_string()),
            ("repo".to_string(), "tree".to_string())
        ]
    );
}

#[test]
fn find_after_scoping() {
    let v1 = Router::new().path("/v1").get("/users", 2).post("/users", 3);
    let mut app = Router::new().path("/api").get("/", 1).scope(v1);
    let matcher = app.compile().unwrap();
    assert_eq!(matcher.find(Method::Get, "/api/").map(|hit| *hit.0), Some(1));
    assert_eq!(matcher.find(Method::Get, "/api/v1/users").map(|hit| *hit.0), Some(2));
    assert_eq!(matcher.find(Method::Post, "/api/v1/users").map(|hit| *hit.0), Some(3));
    assert!(matcher.find(Method::Get, "/v1/users").is_none());
}

#[test]
fn handlers_keep_their_binding_order() {
    let mut app = Router::new().get("/c", 'c').get("/a", 'a').get("/b", 'b');
    let matcher = app.compile().unwrap();
    assert_eq!(matcher.len(), 3);
    assert_eq!(matcher.find(Method::Get, "/a").map(|hit| *hit.0), Some('a'));
    assert_eq!(matcher.find(Method::Get, "/b").map(|hit| *hit.0), Some('b'));
    assert_eq!(matcher.find(Method::Get, "/c").map(|hit| *hit.0), Some('c'));
}

#[test]
fn duplicates_are_left_to_the_engine() {
    let mut app = Router::new().get("/a", 1).get("/a", 2);
    let matcher = app.compile().unwrap();
    assert_eq!(matcher.len(), 2);
    let found = matcher.find(Method::Get, "/a").map(|hit| *hit.0);
    assert!(found == Some(1) || found == Some(2));
}

#[test]
fn compile_rejects_the_first_key_with_a_parameter_outside_ascii() {
    let mut app = Router::new()
        .get("/plain", 1)
        .get("/\u{fc}ber", 2)
        .get("/caf\u{e9}/:id", 3)
        .get("/\u{65e5}/*rest", 4);
    assert_eq!(app.compile().err(), Some(PatternRejected { index: 2 }));
    assert!(app.routes().is_none());

    let mut app = Router::new().path("/\u{65e5}").get("/:x", 1);
    assert_eq!(app.compile().err(), Some(PatternRejected { index: 0 }));

    let mut app = Router::new().get("/a", 1).any("/caf\u{e9}", 2);
    assert_eq!(app.compile().err(), Some(PatternRejected { index: 1 }));
}

#[test]
fn compile_takes_keys_outside_ascii_that_hold_no_parameter() {
    let mut app = Router::new()
        .get("/caf\u{e9}", 1)
        .get("/caf\u{e8}", 2)
        .post("/\u{65e5}\u{672c}/\u{8a9e}", 3)
        .path("/\u{fc}ber")
        .get("/uns", 4);
    let matcher = app.compile().unwrap();
    assert_eq!(matcher.len(), 4);
    assert_eq!(matcher.find(Method::Get, "/caf\u{e9}").map(|hit| *hit.0), Some(1));
    assert_eq!(matcher.find(Method::Get, "/caf\u{e8}").map(|hit| *hit.0), Some(2));
    assert_eq!(
        matcher.find(Method::Post, "/\u{65e5}\u{672c}/\u{8a9e}").map(|hit| *hit.0),
        Some(3)
    );
    assert_eq!(matcher.find(Method::Get, "/\u{fc}ber/uns").map(|hit| *hit.0), Some(4));
    assert!(matcher.find(Method::Get, "/caf").is_none());
}

#[test]
fn acceptable_keys() {
    assert!(is_acceptable("GET/about"));
    assert!(is_acceptable("GET/users/:id"));
    assert!(is_acceptable("*/*"));
    assert!(is_acceptable(""));
    assert!(is_acceptable("GET/caf\u{e9}"));
    assert!(!is_acceptable("GET/caf\u{e9}/:id"));
    assert!(!is_acceptable("GET/:id/caf\u{e9}"));
    assert!(!is_acceptable("GET/files/*\u{fc}"));
    assert!(!is_acceptable("*/caf\u{e9}"));
}

#[test]
fn the_last_of_equal_keys_is_the_one_filed() {
    let mut app = Router::new().get("/a", 1).post("/a", 2).get("/a", 3).get("/b", 4);
    let matcher = app.compile().unwrap();
    assert_eq!(matcher.len(), 4);
    assert_eq!(matcher.find(Method::Get, "/a").map(|hit| *hit.0), Some(3));
    assert_eq!(matcher.find(Method::Post, "/a").map(|hit| *hit.0), Some(2));
    assert_eq!(matcher.find(Method::Get, "/b").map(|hit| *hit.0), Some(4));
}

#[test]
fn each_key_is_filed_as_its_own_pattern() {
    let mut app = Router::new().path("/api").get("/one", 1).get("/two", 2).put("/one", 3);
    let matcher = app.compile().unwrap();
    assert_eq!(matcher.find(Method::Get, "/api/one").map(|hit| *hit.0), Some(1));
    assert_eq!(matcher.find(Method::Get, "/api/two").map(|hit| *hit.0), Some(2));
    assert_eq!(matcher.find(Method::Put, "/api/one").map(|hit| *hit.0), Some(3));
    assert!(matcher.find(Method::Get, "").is_none());
    assert!(matcher.find(Method::Put, "/api/two").is_none());
}

#[test]
fn compile_takes_every_ascii_key() {
    let mut app = Router::new()
        .get("/a b", 1)
        .get("/~tilde/%20", 2)
        .get("/:x/*rest", 3)
        .any("", 4);
    let matcher = app.compile().unwrap();
    assert_eq!(matcher.len(), 4);
    assert_eq!(matcher.find(Method::Get, "/a b").map(|hit| *hit.0), Some(1));
}

#[test]
fn find_through_a_rebuilt_router() {
    let mut app = Router::new().path("/api").get("/users", 5usize).any("/*", 6);
    assert_eq!(handler_at(&mut app, Method::Get, "/api/users"), Some(5));
}

#[test]
fn handlers_are_kept_in_binding_order() {
    let mut app = Router::new().get("/c", 'c').post("/a", 'a').any("/b", 'b');
    let matcher = app.compile().unwrap();
    assert_eq!(matcher.handler_at(0), Some(&'c'));
    assert_eq!(matcher.handler_at(1), Some(&'a'));
    assert_eq!(matcher.handler_at(2), Some(&'b'));
    assert_eq!(matcher.handler_at(3), None);
}

#[test]
fn any_answers_every_method() {
    let matcher = Router::new().any("/*", 9).compile().unwrap();
    for method in [Method::Get, Method::Post, Method::Delete, Method::Patch, Method::Any] {
        assert_eq!(matcher.find(method, "/whatever").map(|hit| *hit.0), Some(9));
    }
}

#[test]
fn find_takes_paths_outside_ascii() {
    let matcher = Router::new().get("/files/:name", 1).compile().unwrap();
    let (handler, params) = matcher.find(Method::Get, "/files/caf\u{e9}").unwrap();
    assert_eq!(*handler, 1);
    assert_eq!(params, vec![("name".to_string(), "caf\u{e9}".to_string())]);
    assert!(matcher.find(Method::Get, "/\u{65e5}\u{672c}").is_none());
}

#[test]
fn request_key_is_slash_token_path() {
    assert_eq!(request_key(Method::Get, "/about"), "/GET/about");
    assert_eq!(request_key(Method::Delete, "/users/42"), "/DELETE/users/42");
    assert_eq!(request_key(Method::Any, "/x"), "/*/x");
    assert_eq!(request_key(Method::Options, ""), "/OPTIONS");
    assert_eq!(request_key(Method::Post, "caf\u{e9}"), "/POSTcaf\u{e9}");
}

#[test]
fn resolve_reads_the_handler_at_the_place_given() {
    let matcher = Router::new().get("/a", 'a').get("/b", 'b').compile().unwrap();
    let params = vec![("id".to_string(), "7".to_string())];
    let (handler, out) = matcher.resolve(Some((1, params.clone()))).unwrap();
    assert_eq!(*handler, 'b');
    assert_eq!(out, params);
    let (handler, out) = matcher.resolve(Some((0, Vec::new()))).unwrap();
    assert_eq!(*handler, 'a');
    assert!(out.is_empty());
}

#[test]
fn resolve_of_nothing_or_of_no_place_is_nothing() {
    let matcher = Router::new().get("/a", 'a').get("/b", 'b').compile().unwrap();
    assert!(matcher.resolve(None).is_none());
    assert!(matcher.resolve(Some((2, Vec::new()))).is_none());
    assert!(matcher.resolve(Some((usize::MAX, Vec::new()))).is_none());
    let empty = Router::<char>::new().compile().unwrap();
    assert!(empty.resolve(Some((0, Vec::new()))).is_none());
}

#[test]
fn find_succeeds_where_the_engine_holds_the_key() {
    let matcher = Router::new().path("/api").get("/users/:id", 1).compile().unwrap();
    let found = matcher.find(Method::Get, "/api/users/9");
    assert!(found.is_some());
    let (handler, params) = found.unwrap();
    assert_eq!(*handler, 1);
    assert_eq!(params, vec![("id".to_string(), "9".to_string())]);
    assert!(matcher.find(Method::Get, "/api").is_none());
}
