use qpackt::dispatch::{route_request, RouteDecision, COOKIE_MAX_AGE_SECONDS, version_cookie_name};
use qpackt::fingerprint::VisitorHash;
use qpackt::registry::VersionRegistry;
use qpackt::routes::{build_destination, ReverseProxies, ReverseProxy};
use qpackt::strategy::Strategy;
use qpackt::version::{Version, VersionName};

fn version(name: &str, strategy: Strategy) -> Version {
    Version { name: VersionName::new(name.to_string()), web_root: name.to_string(), strategy }
}

fn rules(list: Vec<(i32, &str, &str)>) -> ReverseProxies {
    let mut proxies = ReverseProxies::new();
    proxies.set(
        list.into_iter()
            .map(|(id, prefix, target)| ReverseProxy {
                id,
                prefix: prefix.to_string(),
                target: target.to_string(),
            })
            .collect(),
    );
    proxies
}

fn registry() -> VersionRegistry {
    VersionRegistry::start(vec![
        version("v1", Strategy::Weight(1)),
        version("v2", Strategy::Weight(9)),
        version("v3", Strategy::UrlParam("beta".to_string())),
    ])
}

#[test]
fn cookie_stickiness() {
    // A valid version cookie routes to that version, whatever the
    // strategies say, and no new cookie is set.
    let proxies = rules(vec![]);
    let reg = registry();
    for _ in 0..20 {
        match route_request(
            &proxies,
            &reg,
            "/page",
            None,
            "/page",
            Some("v2"),
            VisitorHash(7),
            1000,
        ) {
            RouteDecision::Previous { url, version, log } => {
                assert!(version.matches("v2"));
                assert_eq!(url, "http://localhost:9001");
                assert_eq!(log.time, 1000);
                assert_eq!(log.visitor, VisitorHash(7));
                assert!(log.version.matches("v2"));
                assert_eq!(log.uri, "/page");
            }
            other => panic!("unexpected decision: {:?}", other),
        }
    }
}

#[test]
fn invalid_cookie_falls_through_to_selection() {
    let proxies = rules(vec![]);
    let reg = registry();
    match route_request(
        &proxies,
        &reg,
        "/",
        Some("beta=1"),
        "/?beta=1",
        Some("vX"),
        VisitorHash(1),
        5,
    ) {
        RouteDecision::New { version, .. } => assert!(version.matches("v3")),
        other => panic!("unexpected decision: {:?}", other),
    }
}

#[test]
fn url_param_always_wins_for_new_visitors() {
    let proxies = rules(vec![]);
    let reg = registry();
    for _ in 0..20 {
        match route_request(
            &proxies,
            &reg,
            "/",
            Some("beta=1"),
            "/?beta=1",
            None,
            VisitorHash(1),
            5,
        ) {
            RouteDecision::New { url, version, log } => {
                assert!(version.matches("v3"));
                assert_eq!(url, "http://localhost:9002");
                assert!(log.version.matches("v3"));
            }
            other => panic!("unexpected decision: {:?}", other),
        }
    }
}

#[test]
fn reverse_proxy_precedence() {
    // A matching prefix rule wins over cookies and strategies; the
    // prefix is stripped, the target's path prepended, and the decision
    // carries neither a cookie to set nor a request log.
    let proxies = rules(vec![(1, "/reverse", "http://127.0.0.1:9999/api")]);
    let reg = registry();
    match route_request(
        &proxies,
        &reg,
        "/reverse/test/123",
        None,
        "/reverse/test/123",
        Some("v2"),
        VisitorHash(7),
        1000,
    ) {
        RouteDecision::Reverse(dest) => {
            assert_eq!(dest.target, "http://127.0.0.1:9999/api");
            assert_eq!(dest.path, "/api/test/123");
            assert_eq!(dest.query, None);
        }
        other => panic!("unexpected decision: {:?}", other),
    }
}

#[test]
fn reverse_proxy_preserves_query() {
    let proxies = rules(vec![(1, "/reverse", "http://127.0.0.1:9999/api")]);
    let reg = registry();
    match route_request(
        &proxies,
        &reg,
        "/reverse/a",
        Some("q=1"),
        "/reverse/a?q=1",
        None,
        VisitorHash(7),
        1000,
    ) {
        RouteDecision::Reverse(dest) => {
            assert_eq!(dest.path, "/api/a");
            assert_eq!(dest.query.as_deref(), Some("q=1"));
        }
        other => panic!("unexpected decision: {:?}", other),
    }
}

#[test]
fn first_matching_rule_wins() {
    let proxies = rules(vec![
        (1, "/api/v2", "http://127.0.0.1:1111/x"),
        (2, "/api", "http://127.0.0.1:2222/y"),
    ]);
    let reg = registry();
    match route_request(&proxies, &reg, "/api/v2/z", None, "/api/v2/z", None, VisitorHash(1), 0) {
        RouteDecision::Reverse(dest) => assert_eq!(dest.target, "http://127.0.0.1:1111/x"),
        other => panic!("unexpected decision: {:?}", other),
    }
    match route_request(&proxies, &reg, "/api/other", None, "/api/other", None, VisitorHash(1), 0) {
        RouteDecision::Reverse(dest) => assert_eq!(dest.target, "http://127.0.0.1:2222/y"),
        other => panic!("unexpected decision: {:?}", other),
    }
}

#[test]
fn nothing_eligible_is_unroutable() {
    let proxies = rules(vec![]);
    let reg = VersionRegistry::start(vec![version("v1", Strategy::UrlParam("x".to_string()))]);
    match route_request(&proxies, &reg, "/", None, "/", None, VisitorHash(1), 0) {
        RouteDecision::Unroutable => {}
        other => panic!("unexpected decision: {:?}", other),
    }
}

#[test]
fn destination_builder_strips_prefix() {
    let rule = ReverseProxy {
        id: 1,
        prefix: "/reverse".to_string(),
        target: "http://localhost:9999/api".to_string(),
    };
    let dest = build_destination(&rule, "/reverse/test/123", None).unwrap();
    assert_eq!(dest.path, "/api/test/123");
    let bad = ReverseProxy { id: 2, prefix: "/a".to_string(), target: "not a url".to_string() };
    assert!(build_destination(&bad, "/a/b", None).is_none());
}

#[test]
fn cookie_constants() {
    assert_eq!(version_cookie_name(), "QPACKT_VERSION");
    assert_eq!(COOKIE_MAX_AGE_SECONDS, 7 * 24 * 60 * 60);
}
