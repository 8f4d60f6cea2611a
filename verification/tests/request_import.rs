use api_tester::request_import::{
    ImportBundle, ImportedCollection, ImportedRequest, build_import_workspace, merge_import_bundles,
    request_import_details,
};
use api_tester::request_model::{RequestDraft, RequestTemplate};
use api_tester::workspace::Workspace;

fn request(name: &str, url: &str) -> ImportedRequest {
    ImportedRequest { name: name.to_owned(), template: RequestTemplate::new(RequestDraft::new("GET", url)) }
}

fn path(segments: &[&str]) -> Vec<String> {
    segments.iter().map(|s| s.to_string()).collect()
}

fn bundle(collections: Vec<ImportedCollection>) -> ImportBundle {
    ImportBundle {
        collections,
        requests: vec![request("List", "https://example.test/admin"), request("Pets", "https://example.test/pets")],
        warnings: Vec::new(),
        source_format: "Postman".to_owned(),
    }
}

#[test]
fn imported_folders_are_made_once_and_nested_by_path() {
    let shop = ImportedCollection {
        name: "  Shop ".to_owned(),
        folders: vec![path(&["Admin", "Empty"])],
        requests: vec![(0, path(&["Admin"])), (1, Vec::new()), (0, path(&["Admin", "Users"]))],
    };
    let workspace = build_import_workspace(Workspace::default(), &bundle(vec![shop])).unwrap();
    assert_eq!(workspace.collections.len(), 1);
    let made = &workspace.collections[0];
    assert_eq!(made.name, "Shop");
    // Admin, Admin/Empty, Admin/Users, each made once.
    assert_eq!(made.folders.len(), 3);
    assert_eq!(made.folders[0].name, "Admin");
    assert_eq!(made.folders[0].parent_id, None);
    assert_eq!(made.folders[1].name, "Empty");
    assert_eq!(made.folders[1].parent_id.as_deref(), Some(made.folders[0].id.as_str()));
    assert_eq!(made.folders[2].name, "Users");
    assert_eq!(made.folders[2].parent_id.as_deref(), Some(made.folders[0].id.as_str()));
    assert_eq!(made.requests.len(), 3);
    assert_eq!(made.requests[0].name, "List");
    assert_eq!(made.requests[0].folder_id.as_deref(), Some(made.folders[0].id.as_str()));
    assert_eq!(made.requests[1].name, "Pets");
    assert_eq!(made.requests[1].folder_id, None);
    assert_eq!(made.requests[1].definition.request.url, "https://example.test/pets");
    assert_eq!(made.requests[2].folder_id.as_deref(), Some(made.folders[2].id.as_str()));
}

#[test]
fn imported_collections_follow_the_existing_ones() {
    let mut existing = Workspace::default();
    existing.create_collection("Mine").unwrap();
    let first = ImportedCollection { name: "A".to_owned(), folders: Vec::new(), requests: vec![(0, Vec::new())] };
    let second = ImportedCollection { name: "B".to_owned(), folders: Vec::new(), requests: vec![(1, Vec::new())] };
    let workspace = build_import_workspace(existing, &bundle(vec![first, second])).unwrap();
    assert_eq!(workspace.collections.len(), 3);
    assert_eq!(workspace.collections[0].name, "Mine");
    assert_eq!(workspace.collections[1].name, "A");
    assert_eq!(workspace.collections[2].requests[0].name, "Pets");
}

#[test]
fn an_import_fails_on_its_first_bad_collection() {
    let blank = ImportedCollection { name: "   ".to_owned(), folders: Vec::new(), requests: Vec::new() };
    let bad_index = ImportedCollection { name: "X".to_owned(), folders: Vec::new(), requests: vec![(2, Vec::new())] };
    let good = ImportedCollection { name: "Y".to_owned(), folders: Vec::new(), requests: vec![(0, Vec::new())] };
    let err = build_import_workspace(Workspace::default(), &bundle(vec![bad_index, blank])).unwrap_err();
    assert_eq!(err, "Invalid imported request index");
    let blank = ImportedCollection { name: "   ".to_owned(), folders: Vec::new(), requests: Vec::new() };
    let err = build_import_workspace(Workspace::default(), &bundle(vec![good, blank])).unwrap_err();
    assert_eq!(err, "A collection needs a name.");
}

#[test]
fn import_details_list_collections_warnings_and_access() {
    let mut b = bundle(vec![
        ImportedCollection { name: "Shop".to_owned(), folders: Vec::new(), requests: vec![(0, Vec::new()), (1, Vec::new())] },
        ImportedCollection { name: "Pets".to_owned(), folders: Vec::new(), requests: vec![(1, Vec::new())] },
    ]);
    assert_eq!(
        request_import_details(&b, "Local", true),
        "Save to Local: Shop (2 requests), Pets (1 requests)"
    );
    b.warnings = vec!["Skipped a script".to_owned()];
    assert_eq!(
        request_import_details(&b, "Local", false),
        "Save to Local: Shop (2 requests), Pets (1 requests)\nSkipped a script\nSaving requires collection and request creation access in a writable workspace."
    );
}

fn names(list: &[&str]) -> Vec<String> {
    list.iter().map(|name| name.to_string()).collect()
}

fn part(name: &str, format: &str, requests: usize, warnings: &[&str]) -> ImportBundle {
    ImportBundle {
        collections: vec![ImportedCollection {
            name: name.to_owned(),
            folders: Vec::new(),
            requests: (0..requests).map(|i| (i, Vec::new())).collect(),
        }],
        requests: (0..requests).map(|i| request(&format!("{name} {i}"), "https://example.test")).collect(),
        warnings: warnings.iter().map(|w| w.to_string()).collect(),
        source_format: format.to_owned(),
    }
}

#[test]
fn merged_sources_keep_their_collections_and_request_positions() {
    let merged = merge_import_bundles(
        vec![
            part("Shop", "Postman", 2, &["no auth"]),
            part("Pets", "Swagger", 1, &["no auth", "no body"]),
            part("More", "Postman", 1, &[]),
        ],
        &names(&["shop", "pets", "more"]),
    )
    .unwrap();
    assert_eq!(merged.collections.len(), 3);
    assert_eq!(merged.requests.len(), 4);
    assert_eq!(merged.collections[0].requests, vec![(0, Vec::new()), (1, Vec::new())]);
    assert_eq!(merged.collections[1].requests, vec![(2, Vec::new())]);
    assert_eq!(merged.collections[2].requests, vec![(3, Vec::new())]);
    assert_eq!(merged.requests[2].name, "Pets 0");
    assert_eq!(merged.warnings, vec!["no auth".to_owned(), "no body".to_owned()]);
    assert_eq!(merged.source_format, "Postman + Swagger");
}

#[test]
fn merged_sources_need_between_one_and_256_requests() {
    assert_eq!(
        merge_import_bundles(vec![part("Empty", "Postman", 0, &[])], &names(&["empty"])).unwrap_err(),
        "the selected files contain no requests"
    );
    assert_eq!(
        merge_import_bundles(vec![part("A", "Postman", 200, &[]), part("B", "Postman", 57, &[])], &names(&["a", "b"])).unwrap_err(),
        "the selected files contain more than 256 requests"
    );
    assert!(merge_import_bundles(vec![part("A", "Postman", 200, &[]), part("B", "Postman", 56, &[])], &names(&["a", "b"])).is_ok());
}

#[test]
fn an_import_without_collections_is_saved_in_one_of_its_own() {
    let loose = bundle(Vec::new());
    let workspace = build_import_workspace(Workspace::default(), &loose).unwrap();
    assert_eq!(workspace.collections.len(), 1);
    let made = &workspace.collections[0];
    assert_eq!(made.name, "Imported requests");
    assert!(made.folders.is_empty());
    assert_eq!(made.requests.len(), 2);
    assert_eq!(made.requests[1].name, "Pets");
    assert_eq!(made.requests[1].folder_id, None);
    assert_eq!(
        request_import_details(&loose, "Local", true),
        "Save to Local: Imported requests (2 requests)"
    );
}

#[test]
fn a_merged_source_without_collections_is_named_after_its_file() {
    let mut loose = part("unused", "cURL", 2, &[]);
    loose.collections.clear();
    let merged = merge_import_bundles(
        vec![part("Shop", "Postman", 1, &[]), loose],
        &names(&["shop", "first"]),
    )
    .unwrap();
    assert_eq!(merged.collections.len(), 2);
    assert_eq!(merged.collections[1].name, "first");
    assert_eq!(merged.collections[1].requests, vec![(1, Vec::new()), (2, Vec::new())]);
    assert_eq!(merged.source_format, "Postman + cURL");
}

#[test]
fn ensuring_a_collection_keeps_existing_ones() {
    let mut kept = part("Shop", "Postman", 1, &[]);
    kept.ensure_collection("other");
    assert_eq!(kept.collections.len(), 1);
    assert_eq!(kept.collections[0].name, "Shop");
    let mut loose = part("unused", "cURL", 1, &[]);
    loose.collections.clear();
    loose.ensure_collection("Imported requests");
    assert_eq!(loose.collections[0].name, "Imported requests");
    assert_eq!(loose.collections[0].requests, vec![(0, Vec::new())]);
}
