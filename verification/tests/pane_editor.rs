use api_tester::api_tester::ApiTester;
use api_tester::pane_editor::{PaneEditorState, ResponseTab};
use api_tester::pane_tree::PaneId;
use api_tester::request_model::{BodyFieldKind, BodyMode, RawBodyLanguage};
use api_tester::request_pane::RequestPane;
use api_tester::workspace_tab::RequestTabId;

fn app_with_pane() -> (ApiTester, PaneId) {
    let mut app = ApiTester::new();
    let pane = PaneId::new();
    app.pane_editors.push(PaneEditorState::new(pane, RequestTabId::new()));
    (app, pane)
}

#[test]
fn pane_sessions_switch_sections_and_response_tabs() {
    let (mut app, pane) = app_with_pane();
    app.pane_set_request_pane(pane, RequestPane::Headers);
    assert_eq!(app.pane_editors[0].request_pane, RequestPane::Headers);
    app.pane_editors[0].copied = true;
    app.pane_set_response_tab(pane, 1);
    assert_eq!(app.pane_editors[0].response_tab, ResponseTab::Headers);
    assert!(!app.pane_editors[0].copied);
    app.pane_set_response_tab(pane, 42);
    assert_eq!(app.pane_editors[0].response_tab, ResponseTab::Body);
    app.pane_select_body_mode(pane, BodyMode::Raw);
    app.pane_select_raw_language(pane, RawBodyLanguage::Html);
    assert_eq!(app.pane_editors[0].editor.body_mode, BodyMode::Raw);
    assert_eq!(app.pane_editors[0].editor.raw_body_language, RawBodyLanguage::Html);
    // A pane without a session is left alone.
    app.pane_set_request_pane(PaneId::new(), RequestPane::Body);
    assert_eq!(app.pane_editors[0].request_pane, RequestPane::Headers);
}

#[test]
fn pane_query_parameters_keep_one_row() {
    let (mut app, pane) = app_with_pane();
    app.pane_push_query_param(pane);
    assert_eq!(app.pane_editors[0].query_params.len(), 2);
    let second = app.pane_editors[0].query_params[1].id;
    app.pane_toggle_query_param(pane, second, false);
    assert!(!app.pane_editors[0].query_params[1].enabled);
    let first = app.pane_editors[0].query_params[0].id;
    app.pane_remove_query_param(pane, first);
    app.pane_remove_query_param(pane, second);
    assert_eq!(app.pane_editors[0].query_params.len(), 1);
    assert!(app.pane_editors[0].query_params[0].enabled);
}

#[test]
fn pane_headers_and_fields() {
    let (mut app, pane) = app_with_pane();
    app.pane_push_header(pane);
    let header = app.pane_editors[0].editor.headers[1].id;
    assert!(app.pane_editors[0].editor.headers[1].shared);
    app.pane_toggle_header(pane, header, false);
    app.pane_toggle_header_sharing(pane, header, false);
    assert!(!app.pane_editors[0].editor.headers[1].enabled);
    assert!(!app.pane_editors[0].editor.headers[1].shared);
    app.pane_remove_header(pane, header);
    assert_eq!(app.pane_editors[0].editor.headers.len(), 1);

    app.pane_push_body_field(pane);
    let field = app.pane_editors[0].editor.body_fields[0].id;
    app.pane_toggle_body_field(pane, field, false);
    app.pane_set_body_field_kind(pane, field, BodyFieldKind::File);
    assert!(!app.pane_editors[0].editor.body_fields[0].enabled);
    assert_eq!(app.pane_editors[0].editor.body_fields[0].kind, BodyFieldKind::File);
    app.pane_remove_body_field(pane, field);
    assert!(app.pane_editors[0].editor.body_fields.is_empty());
}
