use chatty::authentication::ServerUser;
use chatty::context::{ServerContext, ServerHttpRequest, ServerHttpResponse, ServerHttpResponseContent};
use chatty::StringHashMap;

fn context_with(raw: &str) -> ServerContext {
    ServerContext {
        raw_message: raw.to_string(),
        request: ServerHttpRequest::empty(),
        response: None,
        user: ServerUser::Anonymous,
    }
}

fn text_of(content: &ServerHttpResponseContent) -> Option<String> {
    match content {
        ServerHttpResponseContent::Text(t) => Some(t.clone()),
        _ => None,
    }
}

#[test]
fn set_response_answers_with_plain_text() {
    let mut context = context_with("raw");
    context.set_response("you are a shibe");
    let response = context.response.as_ref().unwrap();
    assert_eq!(response.code, 200);
    assert_eq!(response.content_length, 15);
    assert_eq!(text_of(&response.content), Some("you are a shibe".to_string()));
    assert_eq!(response.content_type, "text/plain");
    assert!(response.headers.is_empty());
    assert_eq!(context.raw_message, "raw");
}

#[test]
fn set_response_counts_bytes_not_characters() {
    let mut context = context_with("");
    context.set_response("héllo");
    assert_eq!(context.response.unwrap().content_length, 6);
}

#[test]
fn empty_request_has_nothing() {
    let request = ServerHttpRequest::empty();
    assert_eq!(request.method, "");
    assert_eq!(request.path, "");
    assert!(request.headers.is_empty());
}

#[test]
fn internal_error_is_bodyless_500() {
    let response = ServerHttpResponse::internal_error();
    assert_eq!(response.code, 500);
    assert!(matches!(response.content, ServerHttpResponseContent::Empty));
    assert_eq!(response.content_length, 0);
    assert_eq!(response.content_type, "text/plain");
}

#[test]
fn not_found_is_bodyless_404() {
    let response = ServerHttpResponse::not_found();
    assert_eq!(response.code, 404);
    assert!(matches!(response.content, ServerHttpResponseContent::Empty));
    assert_eq!(response.content_length, 0);
    assert_eq!(response.content_type, "text/plain");
}

#[test]
fn from_code_keeps_the_code() {
    let response = ServerHttpResponse::from_code(403);
    assert_eq!(response.code, 403);
    assert!(matches!(response.content, ServerHttpResponseContent::Empty));
    assert!(response.headers.is_empty());
}

#[test]
fn reason_phrases_of_known_codes() {
    assert_eq!(ServerHttpResponse::code_to_reason_phrase(200), "OK");
    assert_eq!(ServerHttpResponse::code_to_reason_phrase(404), "Not Found");
    assert_eq!(ServerHttpResponse::code_to_reason_phrase(500), "Internal Server Error");
}

#[test]
fn raw_http_of_text_response() {
    let mut context = context_with("");
    context.set_response("hi");
    let data = context.response.unwrap().into_raw_http();
    let expected = "HTTP/1.1 200 OK\nServer: chatty\nContent-Length: 2\nContent-Type: text/plain\nConnection: Closed\n\nhi";
    assert_eq!(String::from_utf8(data).unwrap(), expected);
}

#[test]
fn raw_http_of_empty_response() {
    let data = ServerHttpResponse::not_found().into_raw_http();
    let expected = "HTTP/1.1 404 Not Found\nServer: chatty\nContent-Length: 0\nContent-Type: text/plain\nConnection: Closed\n\n";
    assert_eq!(data, expected.as_bytes().to_vec());
}

#[test]
fn raw_http_of_binary_response_keeps_bytes() {
    let response = ServerHttpResponse {
        code: 200,
        content: ServerHttpResponseContent::Binary(vec![0, 159, 146, 150]),
        content_length: 1234,
        content_type: "image/png".to_string(),
        headers: StringHashMap::new(),
    };
    let data = response.into_raw_http();
    let head = "HTTP/1.1 200 OK\nServer: chatty\nContent-Length: 1234\nContent-Type: image/png\nConnection: Closed\n\n";
    let mut expected = head.as_bytes().to_vec();
    expected.extend_from_slice(&[0, 159, 146, 150]);
    assert_eq!(data, expected);
}

#[test]
fn raw_http_writes_negative_lengths_with_a_sign() {
    let response = ServerHttpResponse {
        code: 500,
        content: ServerHttpResponseContent::Empty,
        content_length: -2147483648,
        content_type: "text/plain".to_string(),
        headers: StringHashMap::new(),
    };
    let text = String::from_utf8(response.into_raw_http()).unwrap();
    assert!(text.starts_with("HTTP/1.1 500 Internal Server Error\n"));
    assert!(text.contains("\nContent-Length: -2147483648\n"));
}

#[test]
fn raw_http_encodes_text_in_utf8() {
    let mut context = context_with("");
    context.set_response("é");
    let data = context.response.unwrap().into_raw_http();
    assert_eq!(&data[data.len() - 2..], &[0xc3, 0xa9]);
    assert!(String::from_utf8(data).unwrap().contains("Content-Length: 2\n"));
}

#[test]
fn request_display_is_method_and_path() {
    let request = ServerHttpRequest {
        method: "GET".to_string(),
        path: "/doge".to_string(),
        headers: StringHashMap::new(),
    };
    assert_eq!(request.display_text(), "GET /doge");
}

#[test]
fn response_display_is_code_and_reason() {
    assert_eq!(ServerHttpResponse::not_found().display_text(), "HTTP 404 Not Found");
}

#[test]
fn context_display_with_and_without_response() {
    let mut context = context_with("");
    context.request.method = "GET".to_string();
    context.request.path = "/".to_string();
    assert_eq!(context.display_text(), "Request: GET /, Response: Empty");
    context.set_response("x");
    assert_eq!(context.display_text(), "Request: GET /, Response: HTTP 200 OK");
}

#[test]
fn only_known_codes_have_reason_phrases() {
    assert!(ServerHttpResponse::has_reason_phrase(200));
    assert!(ServerHttpResponse::has_reason_phrase(404));
    assert!(ServerHttpResponse::has_reason_phrase(500));
    assert!(!ServerHttpResponse::has_reason_phrase(401));
    assert!(!ServerHttpResponse::has_reason_phrase(403));
}
