use api_tester::api_tester::ApiTester;
use api_tester::history_page::PendingDelete;
use api_tester::request_interchange::{InterchangeFormat, RequestInterchangeTab};
use api_tester::request_model::RequestTemplate;
use api_tester::request_tabs::RequestTabAssociation;
use api_tester::request_tabs_actions::RequestTabsPersistenceAction;

#[test]
fn a_blank_title_keeps_the_default_title_of_a_new_tab() {
    let mut app = ApiTester::new();
    app.update_active_request_tab_title("   ");
    assert_eq!(app.request_tabs.active().title(), "Untitled request");
    app.update_active_request_tab_title("Users");
    assert_eq!(app.request_tabs.active().title(), "Users");
}

#[test]
fn the_active_identity_follows_the_active_tab() {
    let mut app = ApiTester::new();
    app.request_tabs.open_saved(
        "Saved",
        RequestTemplate::blank(),
        RequestTabAssociation::new(None, Some("c".to_owned()), Some("r".to_owned())),
    );
    app.sync_active_request_tab_identity();
    assert_eq!(app.active_saved_request_id.as_deref(), Some("r"));
    assert!(!app.detached_request_dirty);
    assert!(!app.update_active_unsaved_request_tab_location(Some("other".to_owned()), None));
}

#[test]
fn unsaved_tabs_move_with_the_sidebar_selection() {
    let mut app = ApiTester::new();
    assert!(app.update_active_unsaved_request_tab_location(Some("c1".to_owned()), Some("f1".to_owned())));
    assert_eq!(
        app.request_tabs.active().association(),
        &RequestTabAssociation::new(Some("f1".to_owned()), Some("c1".to_owned()), None)
    );
    assert!(!app.update_active_unsaved_request_tab_location(Some("c1".to_owned()), Some("f1".to_owned())));
}

#[test]
fn tab_saves_follow_the_durable_baseline() {
    let mut app = ApiTester::new();
    assert_eq!(app.request_tabs_persistence_action(), RequestTabsPersistenceAction::SucceedWithoutWrite);
    app.request_tabs.open_new();
    assert_eq!(app.request_tabs_persistence_action(), RequestTabsPersistenceAction::Write);
    assert_eq!(
        app.save_request_tabs_state(Err("disk full".to_owned())),
        Err("Request tabs could not be saved: disk full".to_owned())
    );
    assert_eq!(app.request_tabs_persistence_action(), RequestTabsPersistenceAction::Write);
    assert_eq!(app.save_request_tabs_state(Ok(())), Ok(()));
    assert!(app.request_tabs_warning.is_none());
    assert_eq!(app.request_tabs_persistence_action(), RequestTabsPersistenceAction::SucceedWithoutWrite);
    app.request_tabs.open_new();
    app.request_tabs_writable = false;
    assert!(app.save_request_tabs_state(Ok(())).is_err());
    assert_eq!(app.request_tabs_persistence_action(), RequestTabsPersistenceAction::VetoReadOnly);
}

#[test]
fn clearing_history_needs_confirmation_and_a_writable_store() {
    let mut app = ApiTester::new();
    assert!(!app.clear_history());
    assert_eq!(app.pending_delete, Some(PendingDelete::History));
    assert!(app.clear_history());
    assert!(!app.finish_clear_history(Err("locked".to_owned())));
    assert_eq!(app.history_warning.as_deref(), Some("History could not be cleared: locked"));
    assert!(app.finish_clear_history(Ok(())));
    assert!(app.history_warning.is_none());
    app.history_writable = false;
    assert!(!app.clear_history());
    assert_eq!(
        app.history_warning.as_deref(),
        Some("History was not cleared because the database is read-only for this session.")
    );
}

#[test]
fn history_saves_are_numbered_and_stale_outcomes_ignored() {
    let mut app = ApiTester::new();
    let first = app.persist_history().expect("a save starts");
    let second = app.persist_history().expect("a save starts");
    assert_eq!(second, first + 1);
    app.finish_history_save(first, Err("late".to_owned()));
    assert!(app.persistence_io.history_pending);
    app.finish_history_save(second, Err("disk".to_owned()));
    assert!(!app.persistence_io.history_pending);
    assert!(app.persistence_io.history_failed);
    assert_eq!(app.history_warning.as_deref(), Some("disk"));
    app.persistence_io.history_clear_pending = true;
    assert_eq!(app.persist_history(), None);
    assert!(app.persistence_io.history_save_deferred);
}

#[test]
fn the_import_panel_opens_unless_a_request_runs() {
    let mut app = ApiTester::new();
    app.sending = true;
    app.open_request_import_panel();
    assert!(!app.request_interchange.open);
    assert_eq!(
        app.request_notice.as_deref(),
        Some("Finish or cancel the active request before importing.")
    );
    app.sending = false;
    app.open_request_import_panel();
    assert!(app.request_interchange.open);
    assert_eq!(app.request_interchange.tab, RequestInterchangeTab::Import);
    assert!(!app.select_request_export_format(InterchangeFormat::RustUreq));
    assert_eq!(app.request_interchange.selected_format, InterchangeFormat::RustUreq);
    app.request_interchange.tab = RequestInterchangeTab::Export;
    assert!(app.select_request_export_format(InterchangeFormat::Wget));
    app.finish_request_import_save(12);
    assert!(!app.request_interchange.open);
    assert_eq!(
        app.request_notice.as_deref(),
        Some("Saved 12 imported requests to collections.")
    );
}
