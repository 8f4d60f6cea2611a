use api_tester::request_tabs::RequestTabs;
use api_tester::request_tabs_actions::{
    RequestTabsDurableBaseline, RequestTabsPersistenceAction, close_tabs_confirmation_detail,
};

fn changed_tabs() -> RequestTabs {
    let mut tabs = RequestTabs::new();
    tabs.open_new();
    tabs
}

#[test]
fn unchanged_state_is_a_noop_regardless_of_writability() {
    for writable in [true, false] {
        let current = RequestTabs::new();
        let persisted = current.clone();
        let durable = RequestTabsDurableBaseline::new(persisted, writable);

        assert_eq!(
            durable.action(&current),
            RequestTabsPersistenceAction::SucceedWithoutWrite
        );
    }
}

#[test]
fn changed_read_only_state_vetoes_persistence() {
    let current = changed_tabs();
    let persisted = RequestTabs::new();
    let durable = RequestTabsDurableBaseline::new(persisted, false);

    assert_eq!(
        durable.action(&current),
        RequestTabsPersistenceAction::VetoReadOnly
    );
}

#[test]
fn changed_writable_state_requests_one_write_and_success_advances_baseline() {
    let current = changed_tabs();
    let persisted = RequestTabs::new();
    let mut writes = 0;
    let mut durable = RequestTabsDurableBaseline::new(persisted, true);

    if durable.action(&current) == RequestTabsPersistenceAction::Write {
        writes += 1;
        let result: Result<(), &str> = Ok(());
        durable.record_write_result(&current, &result);
    }

    assert_eq!(writes, 1);
    assert_eq!(
        durable.action(&current),
        RequestTabsPersistenceAction::SucceedWithoutWrite,
        "the shutdown retry must not write the same state again"
    );
}

#[test]
fn failed_write_retains_baseline_for_retry_or_read_only_veto() {
    let current = changed_tabs();
    let persisted = RequestTabs::new();
    let persisted = {
        let mut durable = RequestTabsDurableBaseline::new(persisted, true);
        assert_eq!(
            durable.action(&current),
            RequestTabsPersistenceAction::Write
        );
        let result = Err("disk full");
        durable.record_write_result(&current, &result);
        assert_eq!(
            durable.action(&current),
            RequestTabsPersistenceAction::Write,
            "a failed write must remain pending for the next flush"
        );
        durable.persisted
    };

    let durable = RequestTabsDurableBaseline::new(persisted, false);
    assert_eq!(
        durable.action(&current),
        RequestTabsPersistenceAction::VetoReadOnly
    );
}

#[test]
fn aggregate_close_confirmation_bounds_the_title_preview() {
    let detail = close_tabs_confirmation_detail(
        &[
            "One".to_owned(),
            "Two".to_owned(),
            "Three".to_owned(),
            "Four".to_owned(),
        ],
        5,
    );

    assert!(detail.contains("“One”, “Two”, “Three”, and 1 more"));
    assert!(!detail.contains("“Four”"));
}

#[test]
fn single_dirty_title_confirmations_name_the_draft() {
    assert_eq!(
        close_tabs_confirmation_detail(&["Users".to_owned()], 1),
        "“Users” has unsaved changes. Closing it will discard the draft."
    );
    assert_eq!(
        close_tabs_confirmation_detail(&["Users".to_owned()], 3),
        "“Users” has unsaved changes. Closing these tabs will discard that draft."
    );
    assert_eq!(
        close_tabs_confirmation_detail(&["A".to_owned(), "B".to_owned()], 2),
        "“A”, “B” have unsaved changes. Closing these tabs will discard those drafts."
    );
}
