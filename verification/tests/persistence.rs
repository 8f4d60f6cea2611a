use api_tester::api_tester::ApiTester;
use api_tester::execution::CancelSteps;
use api_tester::execution_stage::ExecutionStage;
use api_tester::history_page::PendingDelete;
use api_tester::persistence::CloseCheck;
use api_tester::realtime::{RealtimeConnectionStatus, RealtimeStop};
use api_tester::request_tabs::RequestTabs;
use api_tester::snippets::{Snippet, SnippetCategory, SnippetKind};
use api_tester::workspace::Workspace;

fn snippet(name: &str) -> Snippet {
    Snippet { name: name.to_owned(), category: SnippetCategory::PreRequest, kind: SnippetKind::Plain, body: String::new() }
}

#[test]
fn snippet_saves_do_not_overlap() {
    let mut app = ApiTester::new();
    assert_eq!(app.begin_snippets_save(vec![snippet("a"), snippet("b")]), Ok(vec![snippet("a"), snippet("b")]));
    assert!(app.persistence_io.snippets_pending);
    assert_eq!(
        app.begin_snippets_save(vec![snippet("c")]),
        Err("A snippet save is still pending. Try again when it completes.".to_owned())
    );
    assert_eq!(app.finish_snippets_save(Err("disk full".to_owned())), Err("disk full".to_owned()));
    assert!(!app.persistence_io.snippets_pending);
    assert!(app.snippets.is_empty());
}

#[test]
fn a_saved_snippet_list_becomes_the_live_one() {
    let mut app = ApiTester::new();
    app.begin_snippets_save(vec![snippet("a")]).unwrap();
    assert_eq!(app.finish_snippets_save(Ok(vec![snippet("a")])), Ok(()));
    assert_eq!(app.snippets, vec![snippet("a")]);
    assert!(!app.persistence_io.snippets_pending);
    app.begin_snippets_save(vec![snippet("b")]).unwrap();
    assert!(app.finish_snippets_save(Err("disk full".to_owned())).is_err());
    assert_eq!(app.snippets, vec![snippet("a")]);
}

#[test]
fn closing_waits_for_running_work_and_pending_saves() {
    let mut app = ApiTester::new();
    assert_eq!(app.local_persistence_ready_to_close(true), CloseCheck::Wait);
    assert_eq!(
        app.request_notice.as_deref(),
        Some("Finish or cancel running requests before closing; their history is not finalized.")
    );
    app.persistence_io.history_pending = true;
    assert_eq!(app.local_persistence_ready_to_close(false), CloseCheck::Wait);
    app.persistence_io.history_pending = false;
    app.persistence_io.history_failed = true;
    assert_eq!(app.local_persistence_ready_to_close(false), CloseCheck::RetryHistorySave);
    app.persistence_io.history_failed = false;
    assert_eq!(app.local_persistence_ready_to_close(false), CloseCheck::Ready);
}

#[test]
fn committing_a_workspace_follows_the_save_outcome() {
    let mut app = ApiTester::new();
    let mut candidate = Workspace::default();
    candidate.create_collection("API").unwrap();
    assert_eq!(
        app.commit_workspace(Workspace::default(), Err("locked".to_owned())),
        Err("Workspace could not be saved: locked".to_owned())
    );
    assert_eq!(app.workspace_warning.as_deref(), Some("Workspace could not be saved: locked"));
    let version = app.workspace_version;
    assert_eq!(app.commit_workspace(candidate, Ok(())), Ok(()));
    assert_eq!(app.workspace.collections.len(), 1);
    assert_eq!(app.workspace_version, version + 1);
    assert!(app.workspace_warning.is_none());
    app.workspace_writable = false;
    assert_eq!(
        app.commit_workspace(Workspace::default(), Ok(())),
        Err("This workspace is read-only.".to_owned())
    );
    assert_eq!(app.workspace.collections.len(), 1);
}

#[test]
fn committing_workspace_and_tabs_together() {
    let mut app = ApiTester::new();
    let mut tabs = RequestTabs::new();
    tabs.open_new();
    assert_eq!(
        app.commit_workspace_and_request_tabs(Workspace::default(), tabs.clone(), Ok(())),
        Ok(())
    );
    assert_eq!(app.request_tabs, tabs);
    assert_eq!(app.last_persisted_request_tabs, tabs);
    let result =
        app.commit_workspace_and_request_tabs(Workspace::default(), RequestTabs::new(), Err("io".to_owned()));
    assert_eq!(
        result,
        Err("Workspace and request tabs could not be saved: io".to_owned())
    );
    assert_eq!(app.request_tabs, tabs);
    assert_eq!(app.request_tabs_warning.as_deref(), Some("Workspace and request tabs could not be saved: io"));
}

#[test]
fn cancelling_stops_the_request_unless_only_the_post_script_runs() {
    let mut app = ApiTester::new();
    app.sending = true;
    app.abort_handle_armed = true;
    app.execution_stage = Some(ExecutionStage::Request);
    let steps = app.cancel_request();
    assert_eq!(steps, CancelSteps { cancel_script: false, abort_request: true });
    assert!(!app.sending);
    assert_eq!(app.execution_stage, None);
    assert_eq!(app.request_error.as_deref(), Some("Request cancelled"));
    assert_eq!(app.request_generation, 1);

    let mut app = ApiTester::new();
    app.sending = true;
    app.has_response = true;
    app.script_cancellation_armed = true;
    app.execution_stage = Some(ExecutionStage::PostResponse);
    let steps = app.cancel_request();
    assert_eq!(steps, CancelSteps { cancel_script: true, abort_request: false });
    assert!(app.sending);
    assert_eq!(app.request_generation, 0);
    assert!(app.request_error.is_none());
}

#[test]
fn deletions_need_a_second_click() {
    let mut app = ApiTester::new();
    assert!(!app.confirm_delete(PendingDelete::History));
    assert_eq!(app.pending_delete, Some(PendingDelete::History));
    assert!(app.confirm_delete(PendingDelete::History));
    assert_eq!(app.pending_delete, None);
}

#[test]
fn stopping_realtime_aborts_both_tasks() {
    let mut app = ApiTester::new();
    app.realtime_stream_armed = true;
    app.realtime_status = RealtimeConnectionStatus::Connected;
    let stop = app.stop_realtime();
    assert_eq!(stop, RealtimeStop { abort_stream: true, abort_refresh: false });
    assert_eq!(app.realtime_status, RealtimeConnectionStatus::Inactive);
    assert_eq!(app.realtime_generation, 1);
    assert_eq!(app.realtime_refresh_generation, 1);
    assert!(!app.realtime_stream_armed);
}
