use api_tester::api_tester::ApiTester;
use api_tester::request_tab_group_actions::normalized_tab_group_title;
use api_tester::request_tabs::RequestTabGroupColor;

const MAX_TAB_GROUP_TITLE_CHARS: usize = 80;

#[test]
fn tab_group_titles_are_trimmed_bounded_and_non_empty() {
    assert_eq!(
        normalized_tab_group_title("  Integration  "),
        Some("Integration".to_owned())
    );
    assert_eq!(normalized_tab_group_title("  "), None);
    let long = "x".repeat(MAX_TAB_GROUP_TITLE_CHARS + 12);
    assert_eq!(
        normalized_tab_group_title(&long)
            .expect("long names are truncated")
            .chars()
            .count(),
        MAX_TAB_GROUP_TITLE_CHARS
    );
}

#[test]
fn new_groups_take_the_next_free_number_and_colour() {
    let mut app = ApiTester::new();
    assert_eq!(app.next_request_tab_group_title(), "Group 1");
    assert_eq!(app.next_request_tab_group_color(), RequestTabGroupColor::Purple);
    let tab = *app.request_tabs.active_tab_id();
    assert!(app.create_request_tab_group(tab, "Group 2".to_owned()));
    assert_eq!(app.request_tabs.groups().len(), 1);
    assert_eq!(app.request_tabs.groups()[0].color(), RequestTabGroupColor::Purple);
    // "Group 2" is taken, so the next free number is 3.
    assert_eq!(app.next_request_tab_group_title(), "Group 3");
    assert_eq!(app.next_request_tab_group_color(), RequestTabGroupColor::Blue);
}

#[test]
fn group_actions_report_changes_and_ungroup_on_removal() {
    let mut app = ApiTester::new();
    let tab = *app.request_tabs.active_tab_id();
    assert!(app.create_request_tab_group(tab, "API".to_owned()));
    let group = *app.request_tabs.groups()[0].id();
    assert_eq!(app.request_tabs.active().group_id(), Some(&group));
    assert!(!app.assign_request_tab_to_group(tab, group));
    assert!(app.toggle_request_tab_group_collapsed(group));
    assert!(app.request_tabs.groups()[0].is_collapsed());
    assert!(app.expand_request_tab_group_for(&tab));
    assert!(!app.request_tabs.groups()[0].is_collapsed());
    assert!(app.rename_request_tab_group(group, "Billing".to_owned()));
    assert!(!app.rename_request_tab_group(group, "Billing".to_owned()));
    assert_eq!(app.request_tabs.groups()[0].display_title(), "Billing");
    assert!(app.set_request_tab_group_color(group, RequestTabGroupColor::Green));
    assert!(!app.set_request_tab_group_color(group, RequestTabGroupColor::Green));
    let opened = app.open_blank_request_tab_in_group(group).expect("the group exists");
    assert_eq!(app.request_tabs.active_tab_id(), &opened);
    assert_eq!(app.request_tabs.active().group_id(), Some(&group));
    assert!(app.remove_request_tab_from_group(opened));
    assert!(!app.remove_request_tab_from_group(opened));
    assert!(app.remove_request_tab_group(group));
    assert!(app.request_tabs.groups().is_empty());
    assert!(app.request_tabs.tabs().iter().all(|tab| tab.group_id().is_none()));
    assert!(!app.remove_request_tab_group(group));
    assert_eq!(app.open_blank_request_tab_in_group(group), None);
}
