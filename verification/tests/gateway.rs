use api_tester::api_tester::ApiTester;
use api_tester::gateway::{GatewayRequest, GatewayState, history_request};
use api_tester::request_model::BodyMode;

#[test]
fn sessions_start_disabled_with_distinct_tokens() {
    let first = GatewayState::default();
    let second = GatewayState::default();
    assert!(first.server.is_none());
    assert!(!first.starting);
    assert_ne!(first.token, second.token);
    assert_eq!(first.token.len(), 64);
}

#[test]
fn binary_history_is_rejected_and_literal_query_is_preserved() {
    let mut request = GatewayRequest {
        method: "mIxEd".into(),
        target: "https://example.com/a%2Fb?x=1&x=&q=a+b&z=%20".into(),
        headers: Vec::new(),
        body: b"\xff".to_vec(),
    };
    assert!(history_request(&request).is_err());
    request.body = b"{\"hello\":true}".to_vec();
    let draft = history_request(&request).unwrap();
    assert_eq!(draft.url, request.target);
    assert_eq!(draft.method, request.method);
    assert_eq!(draft.body.as_bytes(), request.body.as_slice());
    assert_eq!(draft.body_mode, BodyMode::Raw);
}

#[test]
fn gateway_headers_must_be_text() {
    let mut request = GatewayRequest {
        method: "POST".into(),
        target: "http://127.0.0.1/x".into(),
        headers: vec![("x-trace".to_owned(), b"abc\tdef".to_vec())],
        body: Vec::new(),
    };
    let draft = history_request(&request).unwrap();
    assert_eq!(draft.headers.len(), 1);
    assert_eq!(draft.headers[0].name, "x-trace");
    assert_eq!(draft.headers[0].value, "abc\tdef");
    assert!(draft.headers[0].enabled);
    request.headers.push(("x-bin".to_owned(), vec![0x80]));
    assert_eq!(
        history_request(&request).err(),
        Some("gateway_header_history_unsupported")
    );
}

#[test]
fn stopping_the_gateway_invalidates_the_running_start() {
    let mut app = ApiTester::new();
    app.gateway.starting = true;
    app.gateway.server = Some(8080);
    let generation = app.gateway.generation;
    app.stop_gateway();
    assert_eq!(app.gateway.generation, generation.wrapping_add(1));
    assert!(app.gateway.server.is_none());
    assert!(!app.gateway.starting);
    assert_eq!(
        app.gateway.status,
        "Disabled. Already accepted executions finish and save history."
    );
}
