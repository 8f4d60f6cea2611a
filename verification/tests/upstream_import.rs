use api_tester::api_tester::ApiTester;
use api_tester::request_import::{ImportBundle, ImportedCollection, ImportedRequest};
use api_tester::request_interchange::UpstreamImportEnd;
use api_tester::request_model::{RequestDraft, RequestTemplate};

fn bundle(names: &[&str]) -> ImportBundle {
    ImportBundle {
        collections: names
            .iter()
            .map(|name| ImportedCollection {
                name: (*name).to_owned(),
                folders: Vec::new(),
                requests: vec![(0, Vec::new())],
            })
            .collect(),
        requests: vec![ImportedRequest {
            name: "Ping".to_owned(),
            template: RequestTemplate::new(RequestDraft::new("GET", "https://example.test/ping")),
        }],
        warnings: Vec::new(),
        source_format: "Postman".to_owned(),
    }
}

#[test]
fn a_server_import_hands_out_the_new_collections_and_closes_the_panel() {
    let mut app = ApiTester::new();
    app.request_interchange.open = true;
    let (generation, made) = app.begin_request_import_on_upstream(&bundle(&["Shop", "Pets"])).unwrap();
    assert_eq!(generation, 1);
    assert_eq!(app.workspace_switch.generation, 1);
    assert!(app.workspace_switch.loading);
    assert!(!app.request_interchange.open);
    assert_eq!(made.collections.len(), 2);
    assert_eq!(made.collections[0].name, "Shop");
    assert_eq!(made.collections[1].requests[0].name, "Ping");
    assert!(app.workspace.collections.is_empty());
}

#[test]
fn an_import_that_cannot_be_made_starts_nothing() {
    let mut app = ApiTester::new();
    app.request_interchange.open = true;
    let error = app.begin_request_import_on_upstream(&bundle(&["  "])).unwrap_err();
    assert_eq!(error, "A collection needs a name.");
    assert_eq!(app.request_interchange.import_error.as_deref(), Some("A collection needs a name."));
    assert!(app.request_interchange.open);
    assert_eq!(app.workspace_switch.generation, 0);
    assert!(!app.workspace_switch.loading);
}

#[test]
fn a_full_server_save_joins_the_workspace_and_reports_the_count() {
    let mut app = ApiTester::new();
    let (generation, made) = app.begin_request_import_on_upstream(&bundle(&["Shop", "Pets"])).unwrap();
    let version = app.workspace_version;
    let end = app.finish_request_import_on_upstream(generation, true, Ok((made.collections, Ok(()))));
    assert_eq!(end, UpstreamImportEnd::Saved);
    assert_eq!(app.workspace.collections.len(), 2);
    assert_eq!(app.workspace_version, version + 1);
    assert!(!app.workspace_switch.loading);
    assert!(!app.request_interchange.open);
    assert_eq!(app.request_notice.as_deref(), Some("Saved 2 imported requests to collections."));
}

#[test]
fn a_partial_server_save_keeps_what_was_made_and_reopens_the_panel() {
    let mut app = ApiTester::new();
    let (generation, mut made) = app.begin_request_import_on_upstream(&bundle(&["Shop", "Pets"])).unwrap();
    made.collections.truncate(1);
    let end = app.finish_request_import_on_upstream(generation, true, Ok((made.collections, Err("offline".to_owned()))));
    let message = "Import stopped after saving 1 requests. Created collections remain saved; retrying creates new collections. offline";
    assert_eq!(end, UpstreamImportEnd::Failed(message.to_owned()));
    assert_eq!(app.workspace.collections.len(), 1);
    assert!(app.request_interchange.open);
    assert_eq!(app.request_interchange.import_error.as_deref(), Some(message));
    assert!(!app.workspace_switch.loading);
}

#[test]
fn a_stale_or_interrupted_server_save_changes_nothing() {
    let mut app = ApiTester::new();
    let (generation, made) = app.begin_request_import_on_upstream(&bundle(&["Shop"])).unwrap();
    let end = app.finish_request_import_on_upstream(generation + 1, true, Ok((made.collections, Ok(()))));
    assert_eq!(end, UpstreamImportEnd::Superseded);
    assert!(app.workspace.collections.is_empty());
    assert!(app.workspace_switch.loading);
    let end = app.finish_request_import_on_upstream(generation, true, Err("task cancelled".to_owned()));
    assert_eq!(
        end,
        UpstreamImportEnd::Failed(
            "Import interrupted. Refresh the workspace before retrying: task cancelled".to_owned()
        )
    );
    assert!(app.workspace.collections.is_empty());
}

#[test]
fn a_server_save_for_a_workspace_no_longer_active_is_dropped() {
    let mut app = ApiTester::new();
    let (generation, made) = app.begin_request_import_on_upstream(&bundle(&["Shop"])).unwrap();
    let end = app.finish_request_import_on_upstream(generation, false, Ok((made.collections, Ok(()))));
    assert_eq!(end, UpstreamImportEnd::Superseded);
    assert!(app.workspace.collections.is_empty());
    assert!(app.workspace_switch.loading);
}
