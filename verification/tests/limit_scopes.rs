use api_tester::limit_scopes::{limit_scope_choices, limit_scope_label};
use api_tester::local_execution_limits::LimitScope;
use api_tester::workspace::{Collection, CollectionFolder, Workspace};

fn folder(id: &str, name: &str, parent: Option<&str>) -> CollectionFolder {
    CollectionFolder { id: id.to_owned(), name: name.to_owned(), parent_id: parent.map(|p| p.to_owned()) }
}

fn scope(workspace: Option<&str>, collection: Option<&str>, folder: Option<&str>) -> LimitScope {
    LimitScope {
        workspace: workspace.map(|s| s.to_owned()),
        collection: collection.map(|s| s.to_owned()),
        folder: folder.map(|s| s.to_owned()),
    }
}

fn locals() -> Vec<(String, String)> {
    vec![("w1".to_owned(), "Home".to_owned()), ("w2".to_owned(), "Work".to_owned())]
}

fn shop() -> Workspace {
    Workspace {
        collections: vec![Collection {
            id: "c1".to_owned(),
            name: "Shop".to_owned(),
            folders: vec![
                folder("f1", "Admin", None),
                folder("f2", "Users", Some("f1")),
                folder("f3", "Lost", Some("gone")),
            ],
            requests: Vec::new(),
        }],
    }
}

#[test]
fn scopes_list_the_application_workspaces_collections_and_folder_paths() {
    let choices = limit_scope_choices(&locals(), Some("w1"), &shop());
    let labels: Vec<&str> = choices.iter().map(|(label, _)| label.as_str()).collect();
    assert_eq!(
        labels,
        vec![
            "Application \u{2014} all local workspaces",
            "Workspace: Home",
            "Workspace: Work",
            "Home / Shop",
            "Home / Shop / Admin",
            "Home / Shop / Admin / Users",
            "Home / Shop / Lost",
        ]
    );
    assert_eq!(choices[0].1, scope(None, None, None));
    assert_eq!(choices[2].1, scope(Some("w2"), None, None));
    assert_eq!(choices[3].1, scope(Some("w1"), Some("c1"), None));
    assert_eq!(choices[5].1, scope(Some("w1"), Some("c1"), Some("f2")));
}

#[test]
fn without_an_open_local_workspace_only_workspaces_are_offered() {
    let choices = limit_scope_choices(&locals(), None, &shop());
    assert_eq!(choices.len(), 3);
    let unknown = limit_scope_choices(&locals(), Some("w9"), &shop());
    assert_eq!(unknown[3].0, "w9 / Shop");
}

#[test]
fn the_selected_scope_is_labelled_or_reported_gone() {
    let choices = limit_scope_choices(&locals(), Some("w1"), &shop());
    assert_eq!(limit_scope_label(&choices, &scope(Some("w1"), Some("c1"), Some("f2"))), "Home / Shop / Admin / Users");
    assert_eq!(limit_scope_label(&choices, &scope(None, None, None)), "Application \u{2014} all local workspaces");
    assert_eq!(
        limit_scope_label(&choices, &scope(Some("w1"), Some("c9"), None)),
        "Scope no longer available \u{2014} select another scope"
    );
}
