use api_tester::api_tester::ApiTester;
use api_tester::request_model::{
    BodyField, BodyFieldKind, BodyMode, HeaderEntry, RequestDraft, RequestTemplate,
};
use api_tester::request_tabs::RequestTabAssociation;

const MARKER: &str = "<redacted>";

fn header(name: &str, value: &str, enabled: bool, shared: bool) -> HeaderEntry {
    HeaderEntry { name: name.to_owned(), value: value.to_owned(), enabled, shared }
}

fn form_template() -> RequestTemplate {
    let mut draft = RequestDraft::new(" post ", "https://example.com/submit");
    draft.headers = vec![
        header("Accept", "application/json", true, true),
        header("Authorization", MARKER, true, true),
    ];
    draft.body_mode = BodyMode::FormUrlEncoded;
    let mut template = RequestTemplate::new(draft);
    template.scripts.pre_request = "pre()".to_owned();
    template
}

#[test]
fn loading_replaces_the_editor_and_drops_the_response() {
    let mut app = ApiTester::new();
    app.has_response = true;
    app.request_error = Some("boom".to_owned());
    let name = app.load_template(form_template(), None, None, "k".to_owned(), MARKER);
    assert_eq!(name, Some(String::new()));
    assert_eq!(app.editor.method, " post ");
    assert_eq!(app.editor.url, "https://example.com/submit");
    assert_eq!(app.editor.pre_request_script, "pre()");
    assert_eq!(app.editor.headers.len(), 2);
    assert_eq!(app.editor.headers[0].value, "application/json");
    assert!(app.editor.headers[0].enabled);
    // The header whose secret was not stored loads empty and disabled.
    assert_eq!(app.editor.headers[1].name, "Authorization");
    assert_eq!(app.editor.headers[1].value, "");
    assert!(!app.editor.headers[1].enabled);
    // Row identities continue from the editor's counter.
    assert_eq!(app.editor.headers[0].id, 1);
    assert_eq!(app.editor.headers[1].id, 2);
    assert_eq!(app.editor.next_header_id, 3);
    // A form body without fields gets one blank row.
    assert_eq!(app.editor.body_fields.len(), 1);
    assert_eq!(app.editor.body_fields[0].name, "");
    assert_eq!(app.editor.body_fields[0].kind, BodyFieldKind::Text);
    assert!(!app.has_response);
    assert_eq!(app.request_error, None);
    assert!(!app.request_is_dirty());
    assert_eq!(app.loaded_request_baseline.request.method, "POST");
    assert_eq!(app.request_notice, None);
}

#[test]
fn unsaved_changes_are_kept_until_the_same_load_is_repeated() {
    let mut app = ApiTester::new();
    app.detached_request_dirty = true;
    let first = app.load_template(form_template(), None, None, "history-1".to_owned(), MARKER);
    assert_eq!(first, None);
    assert_eq!(app.editor.method, "GET");
    assert_eq!(app.pending_request_load_key, Some("history-1".to_owned()));
    assert_eq!(
        app.request_notice.as_deref(),
        Some("Unsaved request changes were kept. Click the same saved request or history entry again to discard them.")
    );
    // Another key asks again.
    let other = app.load_template(form_template(), None, None, "history-2".to_owned(), MARKER);
    assert_eq!(other, None);
    assert_eq!(app.pending_request_load_key, Some("history-2".to_owned()));
    // The same key discards the changes.
    let again = app.load_template(form_template(), None, None, "history-2".to_owned(), MARKER);
    assert_eq!(again, Some(String::new()));
    assert_eq!(app.editor.method, " post ");
    assert!(!app.detached_request_dirty);
    assert_eq!(app.pending_request_load_key, None);
}

#[test]
fn nothing_loads_while_a_request_is_sent() {
    let mut app = ApiTester::new();
    app.sending = true;
    assert_eq!(app.load_template(form_template(), None, None, "k".to_owned(), MARKER), None);
    assert_eq!(app.editor.method, "GET");
}

#[test]
fn loading_a_saved_request_selects_its_collection_and_names_it() {
    let mut app = ApiTester::new();
    let collection = app.workspace.create_collection("Main").unwrap();
    let saved = app.workspace.create_saved_request(&collection, "Submit form", form_template()).unwrap();
    let name = app.load_template(
        form_template(),
        Some(collection.clone()),
        Some(saved.clone()),
        "k".to_owned(),
        MARKER,
    );
    assert_eq!(name, Some("Submit form".to_owned()));
    assert_eq!(app.selected_collection_id, Some(collection));
    assert_eq!(app.active_saved_request_id, Some(saved));
    // A collection the workspace does not hold leaves the selection alone.
    let mut other = ApiTester::new();
    other.load_template(form_template(), Some("gone".to_owned()), None, "k".to_owned(), MARKER);
    assert_eq!(other.selected_collection_id, None);
}

#[test]
fn body_fields_load_in_order() {
    let mut app = ApiTester::new();
    let mut draft = RequestDraft::new("POST", "https://example.com");
    draft.body_mode = BodyMode::MultipartFormData;
    draft.body_fields = vec![
        BodyField { enabled: true, name: "a".to_owned(), value: "1".to_owned(), kind: BodyFieldKind::Text },
        BodyField { enabled: false, name: "b".to_owned(), value: "/tmp/x".to_owned(), kind: BodyFieldKind::File },
    ];
    app.load_template(RequestTemplate::new(draft), None, None, "k".to_owned(), MARKER);
    assert_eq!(app.editor.body_fields.len(), 2);
    assert_eq!(app.editor.body_fields[1].name, "b");
    assert_eq!(app.editor.body_fields[1].kind, BodyFieldKind::File);
    assert!(!app.editor.body_fields[1].enabled);
    assert_eq!(app.editor.body_fields[0].id, 0);
    assert_eq!(app.editor.body_fields[1].id, 1);
    // The headers fall back to one blank row.
    assert_eq!(app.editor.headers.len(), 1);
    assert_eq!(app.editor.headers[0].name, "");
}

#[test]
fn restoring_a_tab_selects_what_still_exists() {
    let mut app = ApiTester::new();
    let collection = app.workspace.create_collection("Main").unwrap();
    app.selected_folder_id = Some("previous".to_owned());
    app.request_tabs.open_unsaved(
        "Draft",
        form_template(),
        RequestTabAssociation::new(Some("missing-folder".to_owned()), Some(collection.clone()), None),
    );
    let name = app.restore_active_request_tab(MARKER);
    assert_eq!(name, "Draft");
    assert_eq!(app.editor.method, " post ");
    assert_eq!(app.selected_collection_id, Some(collection));
    assert_eq!(app.selected_folder_id, None);
    assert_eq!(app.active_saved_request_id, None);
    assert!(!app.detached_request_dirty);
}

#[test]
fn restoring_keeps_the_selection_when_the_collection_is_gone() {
    let mut app = ApiTester::new();
    app.selected_collection_id = Some("kept".to_owned());
    app.selected_folder_id = Some("kept-folder".to_owned());
    app.request_tabs.open_unsaved(
        "Draft",
        form_template(),
        RequestTabAssociation::new(None, Some("gone".to_owned()), Some("saved-1".to_owned())),
    );
    app.restore_active_request_tab(MARKER);
    assert_eq!(app.selected_collection_id, Some("kept".to_owned()));
    assert_eq!(app.selected_folder_id, Some("kept-folder".to_owned()));
    assert_eq!(app.active_saved_request_id, Some("saved-1".to_owned()));
}

#[test]
fn restoring_an_untitled_tab_leaves_the_name_input_empty() {
    let mut app = ApiTester::new();
    assert_eq!(app.restore_active_request_tab(MARKER), "");
    assert_eq!(app.editor.method, "GET");
    // The blank definition matches its baseline except for what the editor
    // adds (a blank header row), which counts as a header change.
    assert_eq!(app.editor.headers.len(), 1);
    assert!(app.request_dirty.headers);
    assert!(!app.request_dirty.method);
}

#[test]
fn restoring_recomputes_which_parts_differ_from_the_saved_state() {
    let mut app = ApiTester::new();
    let mut saved = RequestDraft::new("GET", "https://example.com/a");
    saved.headers = vec![header("Accept", "*/*", true, true)];
    let id = app.request_tabs.open_unsaved("Tab", RequestTemplate::new(saved), RequestTabAssociation::new(None, None, None));
    let mut edited = RequestDraft::new("GET", "https://example.com/b");
    edited.headers = vec![header("Accept", "*/*", true, true)];
    let k = app.request_tabs.find(&id).unwrap();
    app.request_tabs.set_template_at(k, RequestTemplate::new(edited));
    app.restore_active_request_tab(MARKER);
    assert!(app.request_dirty.url);
    assert!(!app.request_dirty.method);
    assert!(!app.request_dirty.headers);
    assert!(app.request_is_dirty());
}
