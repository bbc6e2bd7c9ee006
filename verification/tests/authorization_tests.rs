use chatty::authentication::ServerUser;
use chatty::context::{ServerContext, ServerHttpRequest, ServerHttpResponseContent};
use chatty::middleware::authorization::AuthorizationMiddleware;
use chatty::{StringHashMap, StringHashSet};

fn config() -> AuthorizationMiddleware {
    let mut config = StringHashMap::new();
    config.insert("/contact.html".to_string(), "doge".to_string());
    AuthorizationMiddleware { config }
}

fn context_for(path: &str, user: ServerUser) -> ServerContext {
    ServerContext {
        raw_message: String::new(),
        request: ServerHttpRequest { method: "GET".to_string(), path: path.to_string(), headers: StringHashMap::new() },
        response: None,
        user,
    }
}

fn user_with(claims: &[&str]) -> ServerUser {
    let mut set = StringHashSet::new();
    for claim in claims {
        set.insert(claim.to_string());
    }
    ServerUser::Authenticated { id: "user".to_string(), email: None, claims: set }
}

#[test]
fn paths_without_a_claim_go_on() {
    let middleware = config();
    let mut context = context_for("/index.html", ServerUser::Anonymous);
    assert!(middleware.authorize(&mut context));
    assert!(context.response.is_none());
}

#[test]
fn anonymous_users_are_forbidden() {
    let middleware = config();
    let mut context = context_for("/contact.html", ServerUser::Anonymous);
    assert!(!middleware.authorize(&mut context));
    let response = context.response.unwrap();
    assert_eq!(response.code, 403);
    assert!(matches!(response.content, ServerHttpResponseContent::Empty));
    assert_eq!(response.content_type, "text/plain");
}

#[test]
fn users_without_the_claim_are_forbidden() {
    let middleware = config();
    let mut context = context_for("/contact.html", user_with(&["cat"]));
    assert!(!middleware.authorize(&mut context));
    assert_eq!(context.response.unwrap().code, 403);
}

#[test]
fn users_with_the_claim_go_on() {
    let middleware = config();
    let mut context = context_for("/contact.html", user_with(&["cat", "doge"]));
    assert!(middleware.authorize(&mut context));
    assert!(context.response.is_none());
}
