use api_tester::api_tester::ApiTester;
use api_tester::request_model::RequestTemplate;
use api_tester::workspace::SavedRequest;

#[test]
fn limits_need_a_local_workspace() {
    let app = ApiTester::new();
    let r = app.local_execution_limits_for_request(None, None);
    assert_eq!(r.unwrap_err(), "Local execution limits require a local workspace");
}

#[test]
fn a_request_without_identity_uses_the_workspace_scope() {
    let app = ApiTester::new();
    let scope = app.local_execution_limits_for_request(Some("ws"), None).unwrap();
    assert_eq!(scope.workspace, Some("ws".to_owned()));
    assert_eq!(scope.collection, None);
    assert_eq!(scope.folder, None);
}

#[test]
fn a_saved_request_resolves_to_its_collection_and_folder() {
    let mut app = ApiTester::new();
    let collection = app.workspace.create_collection("Main").unwrap();
    let folder = app.workspace.create_collection_folder(&collection, None, "Users").unwrap();
    let request = app
        .workspace
        .create_saved_request_in_folder(&collection, Some(&folder), "List", RequestTemplate::blank())
        .unwrap();
    let scope = app.local_execution_limits_for_request(Some("ws"), Some(&request)).unwrap();
    assert_eq!(scope.workspace, Some("ws".to_owned()));
    assert_eq!(scope.collection, Some(collection));
    assert_eq!(scope.folder, Some(folder));
}

#[test]
fn unknown_and_ambiguous_requests_are_refused() {
    let mut app = ApiTester::new();
    let first = app.workspace.create_collection("One").unwrap();
    let second = app.workspace.create_collection("Two").unwrap();
    assert_eq!(
        app.local_execution_limits_for_request(Some("ws"), Some("nope")).unwrap_err(),
        "Request not found in the local workspace"
    );
    let request = app.workspace.create_saved_request(&first, "A", RequestTemplate::blank()).unwrap();
    assert!(app.local_execution_limits_for_request(Some("ws"), Some(&request)).is_ok());
    let k = app.workspace.collections.iter().position(|c| c.id == second).unwrap();
    app.workspace.collections[k].requests.push(SavedRequest {
        id: request.clone(),
        name: "Copy".to_owned(),
        folder_id: None,
        definition: RequestTemplate::blank(),
    });
    assert_eq!(
        app.local_execution_limits_for_request(Some("ws"), Some(&request)).unwrap_err(),
        "Ambiguous local request identity"
    );
}
