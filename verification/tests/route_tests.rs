use chatty::context::ServerHttpRequest;
use chatty::middleware::route::{RouteConfig, RouteHandler, RouteMiddleware};
use chatty::server::builder::{map_get, map_get_handler};
use chatty::StringHashMap;

fn request(method: &str, path: &str) -> ServerHttpRequest {
    ServerHttpRequest { method: method.to_string(), path: path.to_string(), headers: StringHashMap::new() }
}

#[test]
fn finds_the_route_for_method_and_path() {
    let routes = RouteMiddleware::from_routes(vec![("GET", "/shibe", 1u32), ("GET", "/doge", 2u32)]);
    assert_eq!(routes.find_route(&request("GET", "/doge")).map(|r| r.handler), Some(2));
    assert_eq!(routes.find_route(&request("GET", "/shibe")).map(|r| r.handler), Some(1));
}

#[test]
fn other_methods_and_paths_find_nothing() {
    let routes = RouteMiddleware::from_routes(vec![("GET", "/shibe", 1u32)]);
    assert!(routes.find_route(&request("POST", "/shibe")).is_none());
    assert!(routes.find_route(&request("GET", "/shibe/")).is_none());
    assert!(routes.find_route(&request("get", "/shibe")).is_none());
}

#[test]
fn the_last_route_for_a_path_wins() {
    let routes = RouteMiddleware::from_routes(vec![
        ("GET", "/a", 1u32),
        ("POST", "/a", 2u32),
        ("GET", "/a", 3u32),
    ]);
    assert_eq!(routes.find_route(&request("GET", "/a")).map(|r| r.handler), Some(3));
    assert_eq!(routes.find_route(&request("POST", "/a")).map(|r| r.handler), Some(2));
}

#[test]
fn no_routes_find_nothing() {
    let routes: RouteMiddleware<u32> = RouteMiddleware::from_routes(vec![]);
    assert!(routes.find_route(&request("GET", "/")).is_none());
}

#[test]
fn map_get_builds_a_closure_route() {
    let (method, path, handler) = map_get::<u8, u16>("/shibe", 7u8);
    assert_eq!(method, "GET");
    assert_eq!(path, "/shibe");
    assert!(matches!(handler, RouteHandler::Closure(7)));
}

#[test]
fn map_get_handler_builds_an_async_route() {
    let (method, path, handler) = map_get_handler::<u8, u16>("/doge", 9u16);
    assert_eq!(method, "GET");
    assert_eq!(path, "/doge");
    assert!(matches!(handler, RouteHandler::AsyncHandler(9)));
}

#[test]
fn route_configs_compare_by_method_and_route() {
    let a = RouteConfig { method: "GET".to_string(), route: "/a".to_string() };
    let b = RouteConfig { method: "GET".to_string(), route: "/a".to_string() };
    let c = RouteConfig { method: "POST".to_string(), route: "/a".to_string() };
    assert!(a == b);
    assert!(a != c);
}
