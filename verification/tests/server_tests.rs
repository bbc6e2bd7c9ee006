use chatty::authentication::ServerUser;
use chatty::context::{ServerContext, ServerHttpRequest, ServerHttpResponse, ServerHttpResponseContent};
use chatty::middleware::error_not_found::ErrorNotFoundMiddleware;
use chatty::middleware::henlo::HenloMiddleware;
use chatty::pipeline::PipelineStage;
use chatty::server::app::listen;
use chatty::server::builder::ServerBuilder;
use chatty::StringHashMap;

fn kind(stage: &PipelineStage<&'static str, u32>) -> &'static str {
    match stage {
        PipelineStage::HttpParsing(_) => "parsing",
        PipelineStage::Authentication(name) => name,
        PipelineStage::Authorization(_) => "authorization",
        PipelineStage::Logging(_) => "logging",
        PipelineStage::Route(_) => "route",
        PipelineStage::ServeDir(_) => "serve_dir",
    }
}

fn empty_context() -> ServerContext {
    ServerContext {
        raw_message: String::new(),
        request: ServerHttpRequest::empty(),
        response: None,
        user: ServerUser::Anonymous,
    }
}

#[test]
fn listen_starts_with_no_middleware() {
    let builder: ServerBuilder<&'static str, u32> = listen("127.0.0.1:8080");
    assert_eq!(builder.address, "127.0.0.1:8080");
    assert!(builder.middleware.is_empty());
}

#[test]
fn pipeline_runs_middlewares_in_the_order_added() {
    let mut builder: ServerBuilder<&'static str, u32> = listen("127.0.0.1:8080");
    builder.use_http_parsing();
    builder.use_authentication("authentication");
    let mut config = StringHashMap::new();
    config.insert("/contact.html".to_string(), "doge".to_string());
    builder.use_authorization(config);
    builder.use_route(vec![("GET", "/shibe", 1u32)]);
    builder.use_serve_dir("asset");
    builder.use_logging();
    let server = builder.build();
    assert_eq!(server.address, "127.0.0.1:8080");
    let mut pipeline = server.middleware.clone();
    let mut seen = Vec::new();
    while let Some(stage) = pipeline.next() {
        seen.push(kind(&stage));
    }
    assert_eq!(seen, vec!["parsing", "authentication", "authorization", "route", "serve_dir", "logging"]);
    assert!(pipeline.next().is_none());
    assert_eq!(server.middleware.middlewares.len(), 6);
}

#[test]
fn built_stages_keep_their_configuration() {
    let mut builder: ServerBuilder<&'static str, u32> = listen("addr");
    builder.use_serve_dir("asset");
    builder.use_route(vec![("GET", "/a", 1u32), ("GET", "/a", 2u32)]);
    let mut pipeline = builder.build().middleware;
    match &*pipeline.next().unwrap() {
        PipelineStage::ServeDir(m) => assert_eq!(m.directory_path, "asset"),
        _ => panic!("expected the directory stage"),
    }
    match &*pipeline.next().unwrap() {
        PipelineStage::Route(m) => {
            let request = ServerHttpRequest { method: "GET".to_string(), path: "/a".to_string(), headers: StringHashMap::new() };
            assert_eq!(m.find_route(&request).map(|r| r.handler), Some(2));
        }
        _ => panic!("expected the route stage"),
    }
}

#[test]
fn error_not_found_answers_unanswered_requests() {
    let mut context = empty_context();
    ErrorNotFoundMiddleware.before_next(&mut context);
    assert_eq!(context.response.as_ref().unwrap().code, 404);
    let mut answered = empty_context();
    answered.response = Some(ServerHttpResponse::internal_error());
    ErrorNotFoundMiddleware.before_next(&mut answered);
    assert_eq!(answered.response.unwrap().code, 500);
}

#[test]
fn henlo_greets() {
    let mut context = empty_context();
    HenloMiddleware.action(&mut context);
    let response = context.response.unwrap();
    assert_eq!(response.code, 200);
    assert_eq!(response.content_length, 11);
    assert_eq!(response.content_type, "text/plain");
    match response.content {
        ServerHttpResponseContent::Text(text) => assert_eq!(text, "henlo shibe"),
        _ => panic!("expected text"),
    }
}
