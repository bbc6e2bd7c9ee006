use chatty::authentication::ServerUser;
use chatty::context::{ServerContext, ServerHttpRequest, ServerHttpResponseContent};
use chatty::middleware::serve_dir::{text_ends_with, ServeDirMiddleware};

fn serve() -> ServeDirMiddleware {
    ServeDirMiddleware { directory_path: "asset".to_string() }
}

#[test]
fn root_serves_the_index() {
    assert_eq!(serve().file_path_for("/"), "/index.html");
}

#[test]
fn parent_references_are_removed() {
    let middleware = serve();
    assert_eq!(middleware.file_path_for("/a/../b.png"), "/a/b.png");
    assert_eq!(middleware.file_path_for("/../../etc/passwd"), "/etc/passwd");
    assert_eq!(middleware.file_path_for("/plain.txt"), "/plain.txt");
    assert_eq!(middleware.file_path_for(""), "");
}

#[test]
fn parent_references_are_removed_in_one_pass() {
    assert_eq!(serve().file_path_for("/....//x"), "/../x");
}

#[test]
fn full_path_joins_directory_and_file() {
    assert_eq!(serve().full_path("/index.html"), "asset/index.html");
}

#[test]
fn content_types_follow_the_name() {
    let middleware = serve();
    assert_eq!(middleware.content_type_for_file_name("/index.html"), "text/html");
    assert_eq!(middleware.content_type_for_file_name("/doge.png"), "image/png");
    assert_eq!(middleware.content_type_for_file_name("/style.css"), "text/plain");
    assert_eq!(middleware.content_type_for_file_name("xhtml"), "text/html");
    assert_eq!(middleware.content_type_for_file_name("png"), "image/png");
    assert_eq!(middleware.content_type_for_file_name(""), "text/plain");
}

#[test]
fn suffix_check() {
    assert!(text_ends_with("abc", "bc"));
    assert!(text_ends_with("abc", ""));
    assert!(!text_ends_with("bc", "abc"));
    assert!(!text_ends_with("abc", "bd"));
}

#[test]
fn file_response_carries_the_bytes() {
    let middleware = serve();
    let mut context = ServerContext {
        raw_message: String::new(),
        request: ServerHttpRequest::empty(),
        response: None,
        user: ServerUser::Anonymous,
    };
    middleware.respond_with_file(&mut context, "/doge.png", vec![1, 2, 3]);
    let response = context.response.unwrap();
    assert_eq!(response.code, 200);
    assert_eq!(response.content_length, 3);
    assert_eq!(response.content_type, "image/png");
    match response.content {
        ServerHttpResponseContent::Binary(data) => assert_eq!(data, vec![1, 2, 3]),
        _ => panic!("expected a binary body"),
    }
}
