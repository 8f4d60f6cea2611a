use api_tester::api_tester::ApiTester;
use api_tester::request_model::{RequestDraft, RequestTemplate};
use api_tester::request_tabs::RequestTabAssociation;
use api_tester::realtime_refresh::RealtimeRefreshStep;

const MARKER: &str = "<redacted>";

fn template(url: &str) -> RequestTemplate {
    RequestTemplate::new(RequestDraft::new("GET", url))
}

/// A window whose active tab shows the saved request "Users".
fn app_with_saved_tab() -> (ApiTester, String, String) {
    let mut app = ApiTester::new();
    let collection = app.workspace.create_collection("API").unwrap();
    let request = app
        .workspace
        .create_saved_request(&collection, "Users", template("https://example.test/users"))
        .unwrap();
    app.request_tabs.open_saved(
        "Users",
        template("https://example.test/users"),
        RequestTabAssociation::new(None, Some(collection.clone()), Some(request.clone())),
    );
    app.selected_collection_id = Some(collection.clone());
    app.restore_active_request_tab(MARKER);
    (app, collection, request)
}

#[test]
fn a_clean_active_tab_takes_the_server_version() {
    let (mut app, collection, request) = app_with_saved_tab();
    let mut workspace = std::mem::take(&mut app.workspace);
    workspace.update_saved_request(&collection, &request, template("https://example.test/people")).unwrap();
    app.workspace_warning = Some("stale".to_owned());
    let conflicts = app.apply_refreshed_workspace(workspace, MARKER);
    assert!(conflicts.is_empty());
    assert_eq!(app.editor.url, "https://example.test/people");
    assert_eq!(app.request_tabs.active().template(), &template("https://example.test/people"));
    assert_eq!(app.workspace_warning, None);
    assert_eq!(app.request_notice, None);
    assert_eq!(app.selected_collection_id, Some(collection));
}

#[test]
fn a_dirty_active_tab_keeps_its_edits_and_gets_a_notice() {
    let (mut app, collection, request) = app_with_saved_tab();
    app.request_tabs.set_active_template(template("https://example.test/draft"));
    app.editor.url = "https://example.test/draft".to_owned();
    let mut workspace = std::mem::take(&mut app.workspace);
    workspace.update_saved_request(&collection, &request, template("https://example.test/people")).unwrap();
    let conflicts = app.apply_refreshed_workspace(workspace, MARKER);
    assert_eq!(conflicts.len(), 1);
    assert_eq!(app.editor.url, "https://example.test/draft");
    assert_eq!(app.loaded_request_baseline, template("https://example.test/people"));
    assert!(app.request_dirty.url);
    assert_eq!(
        app.request_notice.as_deref(),
        Some("This request changed on the server. Your edits are still here.")
    );
}

#[test]
fn a_deleted_collection_moves_the_selection_to_the_first_one() {
    let (mut app, collection, request) = app_with_saved_tab();
    // Keep the tab as an unsaved draft so that it is not restored.
    app.request_tabs.set_active_template(template("https://example.test/draft"));
    let mut workspace = std::mem::take(&mut app.workspace);
    workspace.remove_saved_request(&collection, &request).unwrap();
    let other = workspace.create_collection("Other").unwrap();
    let k = workspace.collections.iter().position(|c| c.id == collection).unwrap();
    workspace.collections.remove(k);
    app.selected_folder_id = Some("folder".to_owned());
    let conflicts = app.apply_refreshed_workspace(workspace, MARKER);
    // The saved request is gone: the tab conflicts and is detached.
    assert_eq!(conflicts.len(), 1);
    assert!(app.request_tabs.active().is_detached());
    assert_eq!(app.selected_collection_id, Some(other));
    assert_eq!(app.selected_folder_id, None);
}

#[test]
fn a_pushed_workspace_is_applied_switched_to_or_reported_gone() {
    let mut app = ApiTester::new();
    assert_eq!(app.realtime_refresh_step(false, "w1", Some("w1"), false), RealtimeRefreshStep::Ignore);
    assert_eq!(app.realtime_refresh_step(true, "w1", Some("w1"), false), RealtimeRefreshStep::Refresh);
    assert_eq!(
        app.realtime_refresh_step(true, "w1", Some("w2"), false),
        RealtimeRefreshStep::SwitchToSelected
    );
    assert_eq!(
        app.realtime_refresh_step(true, "w1", None, false),
        RealtimeRefreshStep::Unavailable { may_leave: true }
    );
    assert_eq!(
        app.realtime_refresh_step(true, "w1", Some("w2"), true),
        RealtimeRefreshStep::Unavailable { may_leave: false }
    );
    app.sending = true;
    assert_eq!(
        app.realtime_refresh_step(true, "w1", None, false),
        RealtimeRefreshStep::Unavailable { may_leave: false }
    );
    app.mark_workspace_unavailable();
    assert_eq!(
        app.workspace_warning.as_deref(),
        Some("This workspace is no longer available. Your open edits are still here.")
    );
}
