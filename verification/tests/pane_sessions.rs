use api_tester::api_tester::ApiTester;
use api_tester::pane_editor::{PaneEditorState, ResponseTab};
use api_tester::pane_sessions::{QueryParam, StatusTone, status_color};
use api_tester::request_tab_runtime::RequestTabRuntime;
use api_tester::pane_tree::{PaneId, PaneRoot, Split, SplitDirection};
use api_tester::request_model::{HeaderEntry, RequestDraft, RequestTemplate};
use api_tester::request_pane::RequestPane;
use api_tester::request_tabs::RequestTabAssociation;
use api_tester::workspace_tab::{RequestTabId, WorkspaceTab, WorkspaceToolTab};

const MARKER: &str = "<redacted>";

fn runtime() -> RequestTabRuntime {
    RequestTabRuntime {
        request_pane: RequestPane::Headers,
        response_tab: ResponseTab::Preview,
        pretty_body: false,
        copied: true,
    }
}

fn param(key: &str, value: &str, enabled: bool) -> QueryParam {
    QueryParam { key: key.to_owned(), value: value.to_owned(), enabled }
}

fn template(method: &str, url: &str) -> RequestTemplate {
    let mut draft = RequestDraft::new(method, url);
    draft.headers = vec![HeaderEntry {
        name: "X-Shared".to_owned(),
        value: "1".to_owned(),
        enabled: true,
        shared: true,
    }];
    RequestTemplate::new(draft)
}

#[test]
fn statuses_map_to_their_tones() {
    assert_eq!(status_color(200), StatusTone::Success);
    assert_eq!(status_color(299), StatusTone::Success);
    assert_eq!(status_color(404), StatusTone::Warning);
    assert_eq!(status_color(302), StatusTone::Danger);
    assert_eq!(status_color(500), StatusTone::Danger);
    assert_eq!(status_color(199), StatusTone::Danger);
}

#[test]
fn pretty_printing_toggles_and_clears_the_copy_marker() {
    let mut app = ApiTester::new();
    let pane = PaneId::new();
    app.pane_editors.push(PaneEditorState::new(pane, RequestTabId::new()));
    app.pane_editors[0].copied = true;
    app.pane_toggle_pretty(pane);
    assert!(!app.pane_editors[0].pretty_body);
    assert!(!app.pane_editors[0].copied);
    app.pane_toggle_pretty(pane);
    assert!(app.pane_editors[0].pretty_body);
}

#[test]
fn a_pane_session_loads_a_request_with_its_parameters() {
    let mut session = PaneEditorState::new(PaneId::new(), RequestTabId::new());
    let params = vec![param("q", "1", true), param("page", "2", false)];
    session.load_template(&template("GET", "https://example.com/?q=1"), &params, runtime(), MARKER);
    assert_eq!(session.query_params.len(), 2);
    assert_eq!(session.query_params[0].name, "q");
    assert_eq!(session.query_params[1].id, 2);
    assert!(!session.query_params[1].enabled);
    assert_eq!(session.next_query_param_id, 3);
    assert_eq!(session.editor.url, "https://example.com/?q=1");
    // Pane editors keep whether a header is shared.
    assert!(session.editor.headers[0].shared);
    assert_eq!(session.request_pane, RequestPane::Headers);
    assert_eq!(session.response_tab, ResponseTab::Preview);
    assert!(!session.pretty_body);
    assert!(session.copied);
    assert_eq!(session.runtime_snapshot(), runtime());
    // No parameter leaves one blank row.
    session.load_template(&template("GET", "https://example.com"), &Vec::new(), runtime(), MARKER);
    assert_eq!(session.query_params.len(), 1);
    assert_eq!(session.query_params[0].name, "");
}

#[test]
fn a_snapshot_keeps_the_method_as_typed_and_the_given_url() {
    let mut session = PaneEditorState::new(PaneId::new(), RequestTabId::new());
    session.load_template(&template(" patch ", "https://example.com"), &Vec::new(), runtime(), MARKER);
    let snapshot = session.snapshot_template("https://example.com/?a=b".to_owned());
    assert_eq!(snapshot.request.method, " patch ");
    assert_eq!(snapshot.request.url, "https://example.com/?a=b");
    assert_eq!(snapshot.request.headers.len(), 1);
    assert!(snapshot.request.headers[0].shared);
}

#[test]
fn reconciling_drops_primary_and_dead_sessions_and_lists_the_rest() {
    let a = RequestTabId::new();
    let b = RequestTabId::new();
    let root = PaneRoot::Split(Box::new(Split {
        direction: SplitDirection::Horizontal,
        children: vec![
            PaneRoot::from_tabs(vec![WorkspaceTab::Request(a)], 0),
            PaneRoot::from_tabs(vec![WorkspaceTab::Request(b)], 0),
            PaneRoot::from_tabs(vec![WorkspaceTab::Tool(WorkspaceToolTab::Settings)], 0),
        ],
    }));
    let ids: Vec<PaneId> = root.panes().iter().map(|pane| pane.id()).collect();
    let mut app = ApiTester::new();
    let dead = PaneId::new();
    app.pane_editors.push(PaneEditorState::new(ids[0], a));
    app.pane_editors.push(PaneEditorState::new(dead, a));
    app.pane_editors.push(PaneEditorState::new(ids[1], b));
    let targets = app.reconcile_pane_editors(&root, Some(ids[0]));
    assert_eq!(app.pane_editors.len(), 1);
    assert_eq!(app.pane_editors[0].pane_id, ids[1]);
    assert_eq!(targets, vec![(ids[1], b)]);
    // Without a primary pane every request pane is listed.
    let all = app.reconcile_pane_editors(&root, None);
    assert_eq!(all, vec![(ids[0], a), (ids[1], b)]);
}

#[test]
fn ensuring_a_session_loads_the_request_and_writes_back_the_previous_one() {
    let mut app = ApiTester::new();
    let first = app.request_tabs.open_unsaved(
        "First",
        template("GET", "https://example.com/first"),
        RequestTabAssociation::new(None, None, None),
    );
    let second = app.request_tabs.open_unsaved(
        "Second",
        template("POST", "https://example.com/second"),
        RequestTabAssociation::new(None, None, None),
    );
    let pane = PaneId::new();
    let params = vec![param("x", "1", true)];
    let none = app.ensure_pane_editor_for(pane, first, &params, runtime(), String::new(), MARKER);
    assert_eq!(none, None);
    assert_eq!(app.pane_editors.len(), 1);
    assert_eq!(app.pane_editors[0].active_tab_id, Some(first));
    assert_eq!(app.pane_editors[0].editor.url, "https://example.com/first");
    assert_eq!(app.pane_editors[0].query_params[0].name, "x");

    // Showing the same request again changes nothing.
    app.pane_editors[0].editor.method = "DELETE".to_owned();
    let again = app.ensure_pane_editor_for(pane, first, &Vec::new(), runtime(), String::new(), MARKER);
    assert_eq!(again, None);
    assert_eq!(app.pane_editors[0].editor.method, "DELETE");

    // Switching the pane to another request writes the first one back.
    let outgoing = app.ensure_pane_editor_for(
        pane,
        second,
        &Vec::new(),
        runtime(),
        "https://example.com/first?x=1".to_owned(),
        MARKER,
    );
    assert_eq!(outgoing, Some((first, runtime())));
    assert_eq!(app.pane_editors.len(), 1);
    assert_eq!(app.pane_editors[0].active_tab_id, Some(second));
    assert_eq!(app.pane_editors[0].editor.method, "POST");
    let k = app.request_tabs.find(&first).unwrap();
    let written = app.request_tabs.tabs()[k].template();
    assert_eq!(written.request.method, "DELETE");
    assert_eq!(written.request.url, "https://example.com/first?x=1");

    // A request that is not open leaves everything alone.
    let missing = app.ensure_pane_editor_for(pane, RequestTabId::new(), &Vec::new(), runtime(), String::new(), MARKER);
    assert_eq!(missing, None);
    assert_eq!(app.pane_editors[0].active_tab_id, Some(second));
}

#[test]
fn a_tab_never_shown_starts_on_the_headers_and_the_body() {
    let fresh = RequestTabRuntime::default();
    assert_eq!(fresh.request_pane, RequestPane::Headers);
    assert_eq!(fresh.response_tab, ResponseTab::Body);
    assert!(fresh.pretty_body);
    assert!(!fresh.copied);
}

#[test]
fn blank_query_rows_are_left_out_of_the_parameters() {
    let mut session = PaneEditorState::new(PaneId::new(), RequestTabId::new());
    // The fresh session holds one blank row.
    assert!(session.normalized_query_params().is_empty());
    session.push_query_param_row("q".to_owned(), "".to_owned(), true);
    session.push_query_param_row("  ".to_owned(), " ".to_owned(), true);
    session.push_query_param_row("".to_owned(), "v".to_owned(), false);
    assert_eq!(session.query_params.len(), 4);
    assert_eq!(session.query_params[3].id, 3);
    assert_eq!(session.next_query_param_id, 4);
    let params = session.normalized_query_params();
    assert_eq!(params, vec![param("q", "", true), param("", "v", false)]);
}
