use api_tester::realtime::refresh_open_request_tabs;
use api_tester::request_model::{RequestDraft, RequestTemplate};
use api_tester::request_tabs::{RequestTabAssociation, RequestTabs};
use api_tester::workspace::Workspace;

fn template(url: &str) -> RequestTemplate {
    RequestTemplate::new(RequestDraft::new("GET", url))
}

#[test]
fn refreshes_clean_tabs_and_preserves_dirty_drafts() {
    let mut workspace = Workspace::default();
    let collection_id = workspace.create_collection("API").unwrap();
    let request_id = workspace
        .create_saved_request(
            &collection_id,
            "Users",
            template("https://example.test/users"),
        )
        .unwrap();
    let (_, saved_request) = workspace.saved_request(&request_id).unwrap();
    let association =
        RequestTabAssociation::new(None, Some(collection_id.clone()), Some(request_id.clone()));
    let mut clean_tabs = RequestTabs::default();
    clean_tabs.open_saved(
        &saved_request.name.clone(),
        saved_request.definition.clone(),
        association.clone(),
    );
    let mut dirty_tabs = clean_tabs.clone();
    dirty_tabs.set_active_template(template("https://example.test/local-draft"));

    workspace
        .update_saved_request(
            &collection_id,
            &request_id,
            template("https://example.test/people"),
        )
        .unwrap();
    workspace
        .rename_saved_request(&collection_id, &request_id, "People")
        .unwrap();

    assert!(refresh_open_request_tabs(&mut clean_tabs, &workspace).is_empty());
    assert_eq!(
        clean_tabs.active().template(),
        &template("https://example.test/people")
    );
    assert!(!clean_tabs.active().is_dirty());
    assert_eq!(clean_tabs.active().title(), "People");

    let conflicts = refresh_open_request_tabs(&mut dirty_tabs, &workspace);
    assert!(conflicts.contains(dirty_tabs.active_tab_id()));
    assert_eq!(
        dirty_tabs.active().template(),
        &template("https://example.test/local-draft")
    );
    assert_eq!(
        dirty_tabs.active().baseline_template(),
        &template("https://example.test/people")
    );
    assert!(dirty_tabs.active().is_dirty());
}

#[test]
fn detaches_deleted_open_requests_and_reports_the_conflict() {
    let mut workspace = Workspace::default();
    let collection_id = workspace.create_collection("API").unwrap();
    let request_id = workspace
        .create_saved_request(
            &collection_id,
            "Users",
            template("https://example.test/users"),
        )
        .unwrap();
    let (_, saved_request) = workspace.saved_request(&request_id).unwrap();
    let mut tabs = RequestTabs::default();
    tabs.open_saved(
        &saved_request.name.clone(),
        saved_request.definition.clone(),
        RequestTabAssociation::new(None, Some(collection_id.clone()), Some(request_id.clone())),
    );

    workspace
        .remove_saved_request(&collection_id, &request_id)
        .unwrap();
    let conflicts = refresh_open_request_tabs(&mut tabs, &workspace);

    assert!(conflicts.contains(tabs.active_tab_id()));
    assert!(tabs.active().is_detached());
    assert_eq!(
        tabs.active().template(),
        &template("https://example.test/users")
    );
}
