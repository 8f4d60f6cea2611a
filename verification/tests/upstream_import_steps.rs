use api_tester::request_model::{RequestDraft, RequestTemplate};
use api_tester::upstream_import::{
    CreatedCollection, CreatedRequest, accept_created_collection, accept_created_folder,
    accept_created_request, check_upstream_login, imported_folder_parent, imported_request_folder,
    upstream_destination,
};

fn created(id: &str, workspace: &str, parent: Option<&str>) -> CreatedCollection {
    CreatedCollection {
        id: id.to_owned(),
        name: format!("{id} name"),
        workspace_id: workspace.to_owned(),
        parent_collection_id: parent.map(|p| p.to_owned()),
    }
}

fn request(id: &str, collection: &str) -> CreatedRequest {
    CreatedRequest {
        id: id.to_owned(),
        name: "Ping".to_owned(),
        collection_id: collection.to_owned(),
        definition: RequestTemplate::new(RequestDraft::new("GET", "https://example.test/ping")),
    }
}

#[test]
fn a_stored_login_must_exist_and_not_have_expired() {
    assert!(check_upstream_login(true, 100, 99).is_ok());
    assert_eq!(check_upstream_login(true, 100, 100).unwrap_err(), "Log in to this server again.");
    assert_eq!(check_upstream_login(false, 100, 0).unwrap_err(), "Log in to this server again.");
}

#[test]
fn the_server_collection_must_sit_at_the_workspace_root() {
    let mirror = accept_created_collection("w1", &created("c1", "w1", None)).unwrap();
    assert_eq!(mirror.id, "c1");
    assert_eq!(mirror.name, "c1 name");
    assert!(mirror.folders.is_empty() && mirror.requests.is_empty());
    assert_eq!(
        accept_created_collection("w1", &created("c1", "w2", None)).unwrap_err(),
        "Server returned an unexpected collection location."
    );
    assert_eq!(
        accept_created_collection("w1", &created("c1", "w1", Some("x"))).unwrap_err(),
        "Server returned an unexpected collection location."
    );
}

#[test]
fn folders_and_requests_are_mirrored_where_the_server_put_them() {
    let mut mirror = accept_created_collection("w1", &created("c1", "w1", None)).unwrap();
    let mut map: Vec<(String, String)> = Vec::new();
    let parent = imported_folder_parent(&map, &None).unwrap();
    assert_eq!(upstream_destination(&mirror, &parent), "c1");
    accept_created_folder(&mut mirror, &mut map, "w1", "local-a", parent, &created("f1", "w1", Some("c1"))).unwrap();
    let parent = imported_folder_parent(&map, &Some("local-a".to_owned())).unwrap();
    assert_eq!(parent.as_deref(), Some("f1"));
    assert_eq!(
        accept_created_folder(&mut mirror, &mut map, "w1", "local-b", parent.clone(), &created("f2", "w1", Some("c1")))
            .unwrap_err(),
        "Server returned an unexpected folder location."
    );
    assert_eq!(mirror.folders.len(), 1);
    accept_created_folder(&mut mirror, &mut map, "w1", "local-b", parent, &created("f2", "w1", Some("f1"))).unwrap();
    assert_eq!(mirror.folders[1].parent_id.as_deref(), Some("f1"));
    assert_eq!(
        imported_folder_parent(&map, &Some("nowhere".to_owned())).unwrap_err(),
        "Missing imported parent folder."
    );
    assert_eq!(
        imported_request_folder(&map, &Some("nowhere".to_owned())).unwrap_err(),
        "Missing imported request folder."
    );
    let folder = imported_request_folder(&map, &Some("local-b".to_owned())).unwrap();
    assert_eq!(
        accept_created_request(&mut mirror, folder.clone(), request("r1", "c1")).unwrap_err(),
        "Server returned an unexpected request location."
    );
    accept_created_request(&mut mirror, folder, request("r1", "f2")).unwrap();
    assert_eq!(mirror.requests.len(), 1);
    assert_eq!(mirror.requests[0].folder_id.as_deref(), Some("f2"));
    accept_created_request(&mut mirror, None, request("r2", "c1")).unwrap();
    assert_eq!(mirror.requests[1].folder_id, None);
}
