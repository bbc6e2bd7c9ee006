use std::sync::Arc;
use chatty::authentication::ServerUser;
use chatty::context::{ServerContext, ServerHttpRequest, ServerHttpResponseContent};
use chatty::middleware::basic_authentication::{
    basic_credentials, credentials_from_decoded, AuthenticationStep, BasicAuthenticationMiddleware,
};
use chatty::{StringHashMap, StringHashSet};

fn protected(paths: &[&str]) -> BasicAuthenticationMiddleware<()> {
    let mut set = StringHashSet::new();
    for path in paths {
        set.insert(path.to_string());
    }
    BasicAuthenticationMiddleware { authentication_service: Arc::new(()), paths: set }
}

fn context_for(path: &str, authorization: Option<&str>) -> ServerContext {
    let mut headers = StringHashMap::new();
    if let Some(value) = authorization {
        headers.insert("Authorization".to_string(), value.to_string());
    }
    ServerContext {
        raw_message: String::new(),
        request: ServerHttpRequest { method: "GET".to_string(), path: path.to_string(), headers },
        response: None,
        user: ServerUser::Anonymous,
    }
}

fn assert_unauthorized(context: &ServerContext, realm: &str) {
    let response = context.response.as_ref().unwrap();
    assert_eq!(response.code, 401);
    assert!(matches!(response.content, ServerHttpResponseContent::Empty));
    assert_eq!(response.content_length, 0);
    assert_eq!(response.content_type, "text/plain");
    assert_eq!(response.headers.len(), 1);
    assert_eq!(
        response.headers.get("WWW-Authenticate").cloned(),
        Some(format!("Basic realm=\"{}\" charset=\"UTF-8\"", realm))
    );
}

#[test]
fn basic_credentials_decode_user_and_password() {
    assert_eq!(
        basic_credentials("Basic dXNlcjpwYXNzd29yZA=="),
        Ok(("user".to_string(), "password".to_string()))
    );
}

#[test]
fn basic_credentials_keep_colons_in_password() {
    // "doge:pa:ss"
    assert_eq!(
        basic_credentials("Basic ZG9nZTpwYTpzcw=="),
        Ok(("doge".to_string(), "pa:ss".to_string()))
    );
}

#[test]
fn basic_credentials_allow_empty_user_and_password() {
    // ":"
    assert_eq!(basic_credentials("Basic Og=="), Ok((String::new(), String::new())));
}

#[test]
fn basic_credentials_need_the_basic_scheme() {
    assert_eq!(basic_credentials("Bearer dXNlcjpwYXNzd29yZA=="), Err(()));
    assert_eq!(basic_credentials("basic dXNlcjpwYXNzd29yZA=="), Err(()));
    assert_eq!(basic_credentials("Basic"), Err(()));
    assert_eq!(basic_credentials(""), Err(()));
}

#[test]
fn basic_credentials_need_base64() {
    assert_eq!(basic_credentials("Basic !!!!"), Err(()));
    assert_eq!(basic_credentials("Basic dXNlcjpwYXNzd29yZA== "), Err(()));
}

#[test]
fn basic_credentials_need_a_colon() {
    // "user"
    assert_eq!(basic_credentials("Basic dXNlcg=="), Err(()));
}

#[test]
fn basic_credentials_need_utf8() {
    // 0xff 0x3a 0x61
    assert_eq!(basic_credentials("Basic /zph"), Err(()));
}

#[test]
fn credentials_from_decoded_bytes() {
    assert_eq!(credentials_from_decoded(b"a:b".to_vec()), Ok(("a".to_string(), "b".to_string())));
    assert_eq!(
        credentials_from_decoded("ü:ß".as_bytes().to_vec()),
        Ok(("ü".to_string(), "ß".to_string()))
    );
    assert_eq!(credentials_from_decoded(vec![0xff, b':', b'a']), Err(()));
    assert_eq!(credentials_from_decoded(b"no colon".to_vec()), Err(()));
}

#[test]
fn unprotected_paths_go_on() {
    let middleware = protected(&["/contact.html"]);
    let mut context = context_for("/index.html", None);
    assert_eq!(middleware.before_authentication(&mut context), AuthenticationStep::Done { proceed: true });
    assert!(context.response.is_none());
}

#[test]
fn protected_path_without_header_is_unauthorized() {
    let middleware = protected(&["/contact.html", "/shibe"]);
    let mut context = context_for("/shibe", None);
    assert_eq!(middleware.before_authentication(&mut context), AuthenticationStep::Done { proceed: false });
    assert_unauthorized(&context, "/shibe");
}

#[test]
fn protected_path_with_bad_header_is_unauthorized() {
    let middleware = protected(&["/shibe"]);
    let mut context = context_for("/shibe", Some("Bearer token"));
    assert_eq!(middleware.before_authentication(&mut context), AuthenticationStep::Done { proceed: false });
    assert_unauthorized(&context, "/shibe");
}

#[test]
fn protected_path_with_credentials_asks_the_service() {
    let middleware = protected(&["/shibe"]);
    let mut context = context_for("/shibe", Some("Basic dXNlcjpwYXNzd29yZA=="));
    assert_eq!(
        middleware.before_authentication(&mut context),
        AuthenticationStep::Verify { user: "user".to_string(), password: "password".to_string() }
    );
    assert!(context.response.is_none());
}

#[test]
fn accepted_user_is_recorded() {
    let middleware = protected(&["/shibe"]);
    let mut context = context_for("/shibe", None);
    let mut claims = StringHashSet::new();
    claims.insert("doge".to_string());
    let user = ServerUser::Authenticated {
        id: "user".to_string(),
        email: Some("user@email.com".to_string()),
        claims,
    };
    assert!(middleware.after_authentication(&mut context, Ok(user)));
    assert!(context.response.is_none());
    match &context.user {
        ServerUser::Authenticated { id, email, claims } => {
            assert_eq!(id, "user");
            assert_eq!(email.as_deref(), Some("user@email.com"));
            assert!(claims.contains("doge"));
        }
        ServerUser::Anonymous => panic!("the user was not recorded"),
    }
}

#[test]
fn refused_user_is_unauthorized() {
    let middleware = protected(&["/shibe"]);
    let mut context = context_for("/shibe", None);
    assert!(!middleware.after_authentication(&mut context, Err(())));
    assert_unauthorized(&context, "/shibe");
    assert!(matches!(context.user, ServerUser::Anonymous));
}

#[test]
fn unauthorized_response_names_the_realm() {
    let response = BasicAuthenticationMiddleware::<()>::build_unauthorized_response("/contact.html");
    assert_eq!(response.code, 401);
    assert_eq!(
        response.headers.get("WWW-Authenticate").cloned(),
        Some("Basic realm=\"/contact.html\" charset=\"UTF-8\"".to_string())
    );
}

#[test]
fn protected_request_passes_only_when_the_service_accepts() {
    let middleware = protected(&["/shibe"]);
    let mut context = context_for("/shibe", Some("Basic dXNlcjpwYXNzd29yZA=="));
    match middleware.before_authentication(&mut context) {
        AuthenticationStep::Verify { user, password } => {
            assert_eq!((user.as_str(), password.as_str()), ("user", "password"));
        }
        other => panic!("expected verification, got {:?}", other),
    }
    let mut refused = context_for("/shibe", Some("Basic dXNlcjpwYXNzd29yZA=="));
    assert!(!middleware.after_authentication(&mut refused, Err(())));
    assert_unauthorized(&refused, "/shibe");
    let user = ServerUser::Authenticated { id: "user".to_string(), email: None, claims: StringHashSet::new() };
    assert!(middleware.after_authentication(&mut context, Ok(user)));
    assert!(context.response.is_none());
}
