use route_core::host::{make_key, RegistryError, WebHost};
use route_core::provider::{IStartup, ServiceProvider};
use route_core::route::{extract_params_from_path, get, post, Handler, Route, RouteError};

#[derive(Clone)]
enum TestHandler {
    Health,
    Item,
    Echo,
    Users,
    Profile,
}

impl Handler for TestHandler {
    fn invoke(&self, params: &Vec<(String, String)>, body: Option<String>) -> String {
        match self {
            TestHandler::Health => "ok".to_string(),
            TestHandler::Users => "users".to_string(),
            TestHandler::Item => {
                let mut id = String::new();
                for (name, value) in params {
                    if name == "id" {
                        id = value.clone();
                    }
                }
                format!("item:{}", id)
            }
            TestHandler::Profile => {
                let mut id = String::new();
                for (name, value) in params {
                    if name == "id" {
                        id = value.clone();
                    }
                }
                format!("profile:{}", id)
            }
            TestHandler::Echo => {
                let mut out = String::new();
                for (name, value) in params {
                    out.push_str(name);
                    out.push('=');
                    out.push_str(value);
                    out.push(';');
                }
                if let Some(b) = body {
                    out.push_str("body=");
                    out.push_str(&b);
                }
                out
            }
        }
    }
}

struct Startup;

impl IStartup for Startup {
    fn configure_services(provider: &mut ServiceProvider) {
        provider.add_service("db".to_string());
    }
}

fn host_of(routes: Vec<Route<TestHandler>>) -> WebHost<TestHandler> {
    WebHost::new::<Startup>(routes).expect("registry construction failed")
}

#[test]
fn health_route_dispatches() {
    let mut host = host_of(vec![get("/health", TestHandler::Health).unwrap()]);
    let r = host.handle_request("GET", "/health", None);
    assert_eq!(r, Some("ok".to_string()));
}

#[test]
fn item_route_extracts_param() {
    let mut host = host_of(vec![get("/items/{id}", TestHandler::Item).unwrap()]);
    let r = host.handle_request("GET", "/items/55", None);
    assert_eq!(r, Some("item:55".to_string()));
}

#[test]
fn param_made_available_to_handler() {
    let mut host = host_of(vec![get("/users/{id}", TestHandler::Echo).unwrap()]);
    let r = host.handle_request("GET", "/users/42", None);
    assert_eq!(r, Some("id=42;".to_string()));
}

#[test]
fn ambiguous_routes_resolve_deterministically() {
    let mut host = host_of(vec![
        get("/users", TestHandler::Users).unwrap(),
        get("/users/{id}/profile", TestHandler::Profile).unwrap(),
    ]);
    let first = host.handle_request("GET", "/users/7/profile", None);
    assert_eq!(first, Some("profile:7".to_string()));
    for _ in 0..10 {
        let again = host.handle_request("GET", "/users/7/profile", None);
        assert_eq!(again, first);
    }
}

#[test]
fn no_match_returns_none() {
    let mut host = host_of(vec![
        get("/health", TestHandler::Health).unwrap(),
        get("/items/{id}", TestHandler::Item).unwrap(),
    ]);
    let r = host.handle_request("DELETE", "/nonexistent", None);
    assert_eq!(r, None);
}

#[test]
fn scoped_state_cleared_once_per_matched_dispatch() {
    let mut host = host_of(vec![get("/health", TestHandler::Health).unwrap()]);
    host.provider.add_scoped_instance("request_ctx".to_string());
    host.provider.add_scoped_instance("session".to_string());
    let before = host.provider.cleared_count;

    let r = host.handle_request("GET", "/health", None);
    assert_eq!(r, Some("ok".to_string()));
    assert_eq!(host.provider.cleared_count, before + 1);
    assert!(host.provider.scoped_instances.is_empty());
    assert_eq!(host.provider.services, vec!["db".to_string()]);

    let miss = host.handle_request("GET", "/absent", None);
    assert_eq!(miss, None);
    assert_eq!(host.provider.cleared_count, before + 1);
}

#[test]
fn registry_build_is_idempotent() {
    let declared = || {
        vec![
            get("/health", TestHandler::Health).unwrap(),
            get("/items/{id}", TestHandler::Item).unwrap(),
            get("/users", TestHandler::Users).unwrap(),
        ]
    };
    let mut first = host_of(declared());
    let mut second = host_of(declared());
    for (method, path) in [
        ("GET", "/health"),
        ("GET", "/items/9"),
        ("GET", "/users"),
        ("GET", "/users/3"),
        ("POST", "/health"),
        ("DELETE", "/nonexistent"),
    ] {
        assert_eq!(
            first.handle_request(method, path, None),
            second.handle_request(method, path, None)
        );
    }
}

#[test]
fn prefix_route_matches_longer_request() {
    let mut host = host_of(vec![get("/users", TestHandler::Users).unwrap()]);
    let r = host.handle_request("GET", "/users/123/comments", None);
    assert_eq!(r, Some("users".to_string()));
}

#[test]
fn trailing_slash_route_is_prefix_candidate() {
    let mut host = host_of(vec![get("/users/", TestHandler::Users).unwrap()]);
    let r = host.handle_request("GET", "/users/123", None);
    assert_eq!(r, Some("users".to_string()));
}

#[test]
fn root_route_matches_root_request() {
    let mut host = host_of(vec![get("/", TestHandler::Health).unwrap()]);
    let r = host.handle_request("GET", "/", None);
    assert_eq!(r, Some("ok".to_string()));
}

#[test]
fn post_route_receives_body() {
    let mut host = host_of(vec![post("/items", TestHandler::Echo).unwrap()]);
    let r = host.handle_request("POST", "/items", Some("data".to_string()));
    assert_eq!(r, Some("body=data".to_string()));
}

#[test]
fn unmatched_brace_is_rejected() {
    let r = get("/bad/{x", TestHandler::Health);
    assert_eq!(r.err(), Some(RouteError::UnmatchedBrace));
    let r = get("/bad/x}", TestHandler::Health);
    assert_eq!(r.err(), Some(RouteError::UnmatchedBrace));
}

#[test]
fn duplicate_param_is_rejected() {
    let r = get("/a/{x}/{x}", TestHandler::Health);
    assert_eq!(r.err(), Some(RouteError::DuplicateParam));
    let ok = get("/a/{x}/{y}", TestHandler::Health);
    assert!(ok.is_ok());
}

#[test]
fn invalid_route_is_rejected_at_build() {
    let bad = Route {
        method: "GET".to_string(),
        path: "/a/{x}".to_string(),
        handler: TestHandler::Health,
        params: vec![],
        has_body: false,
    };
    let r = WebHost::new::<Startup>(vec![bad]);
    assert!(matches!(r.err(), Some(RegistryError::InvalidRoute)));
}

#[test]
fn duplicate_key_is_rejected_at_build() {
    let r = WebHost::new::<Startup>(vec![
        get("/a", TestHandler::Health).unwrap(),
        get("/a", TestHandler::Users).unwrap(),
    ]);
    assert!(matches!(r.err(), Some(RegistryError::DuplicateKey)));
}

#[test]
fn register_replaces_route_with_same_key() {
    let mut host = host_of(vec![get("/a", TestHandler::Users).unwrap()]);
    host.register(get("/a", TestHandler::Health).unwrap());
    assert_eq!(host.routes.len(), 1);
    assert_eq!(host.handle_request("GET", "/a", None), Some("ok".to_string()));
}

#[test]
fn add_controllers_appends_new_keys_in_order() {
    let mut host = host_of(vec![]);
    host.add_controllers(vec![
        get("/a", TestHandler::Users).unwrap(),
        get("/b", TestHandler::Health).unwrap(),
        get("/a", TestHandler::Health).unwrap(),
    ]);
    assert_eq!(host.routes.len(), 2);
    assert_eq!(host.routes[0].path, "/a".to_string());
    assert_eq!(host.routes[1].path, "/b".to_string());
    assert_eq!(host.handle_request("GET", "/a", None), Some("ok".to_string()));
}

#[test]
fn registering_same_set_twice_changes_nothing() {
    let declared = || {
        vec![
            get("/a", TestHandler::Users).unwrap(),
            get("/b/{id}", TestHandler::Item).unwrap(),
        ]
    };
    let mut host = host_of(vec![]);
    host.add_controllers(declared());
    let once: Vec<(String, String)> = host
        .routes
        .iter()
        .map(|r| (r.method.clone(), r.path.clone()))
        .collect();
    host.add_controllers(declared());
    let twice: Vec<(String, String)> = host
        .routes
        .iter()
        .map(|r| (r.method.clone(), r.path.clone()))
        .collect();
    assert_eq!(once, twice);
    assert_eq!(
        host.handle_request("GET", "/b/9", None),
        Some("item:9".to_string())
    );
}

#[test]
fn extract_params_from_path_lists_names() {
    let names = extract_params_from_path("/users/{id}/posts/{post}");
    assert_eq!(names, vec!["id".to_string(), "post".to_string()]);
    let none = extract_params_from_path("/users/all");
    assert!(none.is_empty());
}

#[test]
fn make_key_joins_method_and_path() {
    let k = make_key("GET", "/users/{id}");
    assert_eq!(k, "GET:/users/{id}".to_string());
}

#[test]
fn self_test_reports_every_route() {
    let host = host_of(vec![
        get("/health", TestHandler::Health).unwrap(),
        get("/users", TestHandler::Users).unwrap(),
    ]);
    let report = host.self_test();
    assert_eq!(
        report,
        vec![
            ("GET:/health".to_string(), "ok".to_string()),
            ("GET:/users".to_string(), "users".to_string()),
        ]
    );
}

#[test]
fn methods_are_case_sensitive_and_distinct() {
    let mut host = host_of(vec![get("/a", TestHandler::Health).unwrap()]);
    assert_eq!(host.handle_request("get", "/a", None), None);
    assert_eq!(host.handle_request("POST", "/a", None), None);
}
