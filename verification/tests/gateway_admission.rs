use api_tester::api_tester::ApiTester;
use api_tester::gateway::{GatewayAdmission, GatewayReply, GatewayRequest};

fn request(body: Vec<u8>, header: Vec<u8>) -> GatewayRequest {
    GatewayRequest {
        method: "POST".to_owned(),
        target: "/items?q=a%20b".to_owned(),
        headers: vec![("X-Test".to_owned(), header)],
        body,
    }
}

fn reply(status: u16) -> GatewayReply {
    GatewayReply { status, headers: Vec::new(), body: b"ok".to_vec() }
}

#[test]
fn admitted_calls_are_counted_until_they_finish() {
    let mut app = ApiTester::new();
    match app.accept_gateway_exchange(&request(b"{}".to_vec(), b"1".to_vec()), false, false) {
        GatewayAdmission::Admitted(draft) => {
            assert_eq!(draft.method, "POST");
            assert_eq!(draft.url, "/items?q=a%20b");
            assert_eq!(draft.body, "{}");
        }
        other => panic!("unexpected {other:?}"),
    }
    assert_eq!(app.gateway.pending, 1);
    let answer = app.finish_gateway_exchange(true, Ok(reply(201))).unwrap();
    assert_eq!(answer.status, 201);
    assert_eq!(app.gateway.pending, 0);
}

#[test]
fn finished_calls_hide_failures_and_unsaved_history() {
    let mut app = ApiTester::new();
    app.gateway.pending = 2;
    assert_eq!(
        app.finish_gateway_exchange(true, Err("boom".to_owned())).unwrap_err(),
        "Gateway execution failed. See Resolved history for details; do not retry automatically."
    );
    assert_eq!(
        app.finish_gateway_exchange(false, Ok(reply(200))).unwrap_err(),
        "Execution finished, but history could not be persisted. Do not retry automatically."
    );
    assert_eq!(app.gateway.pending, 0);
}

#[test]
fn calls_are_refused_in_order_of_the_checks() {
    let mut app = ApiTester::new();
    assert!(matches!(
        app.accept_gateway_exchange(&request(b"{}".to_vec(), b"1".to_vec()), true, false),
        GatewayAdmission::Ignored
    ));
    app.gateway.pending = 8;
    assert!(matches!(
        app.accept_gateway_exchange(&request(b"{}".to_vec(), b"1".to_vec()), false, false),
        GatewayAdmission::Rejected { status: 429, code: "gateway_busy" }
    ));
    app.gateway.pending = 0;
    app.history_writable = false;
    assert!(matches!(
        app.accept_gateway_exchange(&request(b"{}".to_vec(), b"1".to_vec()), false, false),
        GatewayAdmission::Rejected { status: 503, code: "gateway_history_read_only" }
    ));
    app.history_writable = true;
    assert!(matches!(
        app.accept_gateway_exchange(&request(vec![0xff, 0xfe], b"1".to_vec()), false, false),
        GatewayAdmission::Rejected { status: 415, code: "gateway_binary_history_unsupported" }
    ));
    assert!(matches!(
        app.accept_gateway_exchange(&request(b"{}".to_vec(), vec![0x80]), false, false),
        GatewayAdmission::Rejected { status: 400, code: "gateway_header_history_unsupported" }
    ));
    match app.accept_gateway_exchange(&request(b"{}".to_vec(), b"1".to_vec()), false, true) {
        GatewayAdmission::Failed(message) => {
            assert_eq!(message, "Pinned environment was deleted. Re-enable the gateway.")
        }
        other => panic!("unexpected {other:?}"),
    }
    assert_eq!(app.gateway.pending, 0);
}

#[test]
fn the_gateway_starts_only_with_a_local_workspace_history_and_port() {
    let mut app = ApiTester::new();
    assert_eq!(app.begin_gateway_start(false, "8080"), None);
    assert_eq!(
        app.gateway.status,
        "Select a local workspace first. Remote execution is not supported in this preview."
    );
    app.history_writable = false;
    assert_eq!(app.begin_gateway_start(true, "8080"), None);
    assert_eq!(app.gateway.status, "Gateway requires writable history.");
    app.history_writable = true;
    for bad in ["0", "65536", "-1", "port", ""] {
        assert_eq!(app.begin_gateway_start(true, bad), None);
        assert_eq!(app.gateway.status, "Port must be a number from 1 to 65535.");
    }
    assert_eq!(app.begin_gateway_start(true, "+8080"), Some(8080));
    assert_eq!(app.begin_gateway_start(true, "65535"), Some(65535));
}

#[test]
fn a_start_listens_unless_a_newer_one_replaced_it() {
    let mut app = ApiTester::new();
    let first = app.mark_gateway_starting();
    assert!(app.gateway.starting);
    assert_eq!(app.gateway.pending, 1);
    assert_eq!(app.gateway.status, "Starting…");
    // Starting again while a start runs does nothing.
    assert_eq!(app.begin_gateway_start(true, "8080"), None);
    assert_eq!(app.gateway.status, "Starting…");
    app.stop_gateway();
    let second = app.mark_gateway_starting();
    assert_ne!(first, second);
    assert!(!app.finish_gateway_start(first, Ok((9000, "ws".to_owned(), None))));
    assert_eq!(app.gateway.server, None);
    assert_eq!(app.gateway.pending, 1);
    assert!(app.finish_gateway_start(second, Ok((9001, "ws".to_owned(), Some("dev".to_owned())))));
    assert_eq!(app.gateway.server, Some(9001));
    assert!(!app.gateway.starting);
    assert_eq!(app.gateway.pending, 0);
    assert_eq!(app.gateway.status, "Listening on 127.0.0.1:9001 · workspace ws · environment dev");
    assert!(app.gateway_takes_calls(second));
    assert!(!app.gateway_takes_calls(first));
}

#[test]
fn a_failed_start_reports_its_error() {
    let mut app = ApiTester::new();
    let generation = app.mark_gateway_starting();
    assert!(!app.finish_gateway_start(generation, Err("port in use".to_owned())));
    assert_eq!(app.gateway.status, "port in use");
    assert!(!app.gateway.starting);
    assert!(!app.gateway_takes_calls(generation));
}
