use cs2_addons::router::{actor_name, match_pattern, match_route, routes, RouteId};

fn param<'a>(params: &'a [(String, String)], key: &str) -> Option<&'a str> {
    params.iter().find(|(k, _)| k == key).map(|(_, v)| v.as_str())
}

#[test]
fn matches_declared_routes() {
    let (id, params) = match_route("GET", "/servers/3/state").expect("route matches");
    assert_eq!(id, RouteId::State);
    assert_eq!(param(&params, "id"), Some("3"));

    let (id, _) = match_route("post", "/servers/3/plugins/toggle").expect("route matches");
    assert_eq!(id, RouteId::TogglePlugin);

    let (id, _) = match_route("POST", "/servers/3/plugins/attributes").expect("route matches");
    assert_eq!(id, RouteId::SetAttributes);

    let (id, _) = match_route("POST", "/servers/3/plugins").expect("route matches");
    assert_eq!(id, RouteId::AddPlugin);

    let (id, _) = match_route("DELETE", "servers/3/plugins").expect("route matches");
    assert_eq!(id, RouteId::RemovePlugin);
}

#[test]
fn rejects_unknown() {
    assert!(match_route("GET", "/servers/3/unknown").is_none());
    assert!(match_route("PUT", "/servers/3/state").is_none());
    assert!(match_route("GET", "/servers/3/state/extra").is_none());
    assert!(match_route("POST", "/servers/3/amxx/plugins/toggle").is_none());
    assert!(match_route("GET", "/").is_none());
}

#[test]
fn patterns_capture_named_segments() {
    let params = match_pattern("/a/{x}/b/{y}", "a/1/b/2/").expect("matches");
    assert_eq!(params, vec![("x".to_string(), "1".to_string()), ("y".to_string(), "2".to_string())]);
    assert!(match_pattern("/a/{x}", "/b/1").is_none());
    assert!(match_pattern("/a", "/a/1").is_none());
}

#[test]
fn every_route_is_reachable() {
    for route in routes() {
        let path = route.pattern.replace("{id}", "9");
        let (id, params) = match_route(route.method, &path).expect("declared route matches");
        assert_eq!(id, route.id);
        assert_eq!(param(&params, "id"), Some("9"));
    }
}

#[test]
fn actor_prefers_a_display_name() {
    assert_eq!(actor_name(Some("John".to_string()), "jd".to_string()), "John");
    assert_eq!(actor_name(Some("  ".to_string()), "jd".to_string()), "jd");
    assert_eq!(actor_name(None, "jd".to_string()), "jd");
}
