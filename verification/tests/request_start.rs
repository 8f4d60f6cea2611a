use api_tester::api_tester::ApiTester;
use api_tester::execution_stage::ExecutionStage;

#[test]
fn starting_a_request_clears_the_response_and_arms_cancellation() {
    let mut app = ApiTester::new();
    app.has_response = true;
    app.request_error = Some("old".to_owned());
    app.request_notice = Some("note".to_owned());
    app.editor.method = " post ".to_owned();
    let (generation, template) = app.start_request(false, Some("upstream".to_owned())).unwrap();
    assert_eq!(generation, 1);
    assert_eq!(template.request.method, "POST");
    assert!(app.sending);
    assert_eq!(app.execution_stage, Some(ExecutionStage::PreRequest));
    assert!(app.script_cancellation_armed);
    assert!(!app.has_response);
    assert_eq!(app.request_error, None);
    assert_eq!(app.request_notice, None);
    assert_eq!(app.request_history_target, Some("upstream".to_owned()));
    // A second start while sending does nothing.
    assert_eq!(app.start_request(false, None), None);
    assert_eq!(app.request_generation, 1);
}

#[test]
fn a_blank_method_or_dirty_environment_is_reported() {
    let mut app = ApiTester::new();
    app.editor.method = "   ".to_owned();
    app.has_response = true;
    assert_eq!(app.start_request(false, None), None);
    assert_eq!(app.request_error.as_deref(), Some("HTTP method cannot be empty."));
    assert!(!app.has_response);
    assert!(!app.sending);
    app.editor.method = "GET".to_owned();
    assert_eq!(app.start_request(true, None), None);
    assert_eq!(
        app.request_error.as_deref(),
        Some("The active environment has unsaved changes. Save or Revert them before sending.")
    );
    assert_eq!(app.request_generation, 0);
}
