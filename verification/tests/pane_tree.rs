use api_tester::pane_tree::{Pane, PaneId, PaneRoot, Split, SplitDirection};
use api_tester::workspace_tab::{RequestTabId, WorkspaceTab, WorkspaceToolTab};

fn tab(request: &RequestTabId) -> WorkspaceTab {
    WorkspaceTab::Request(request.clone())
}

fn single(request: &RequestTabId) -> PaneRoot {
    PaneRoot::from_tabs(vec![tab(request)], 0)
}

#[test]
fn root_starts_as_a_single_pane() {
    let a = RequestTabId::new();
    let root = single(&a);
    assert!(root.is_single_leaf());
    assert_eq!(root.len(), 1);
    assert_eq!(root.active_tabs(), vec![tab(&a)]);
    assert!(root.validate_tab_uniqueness());
}

#[test]
fn reorder_within_pane_moves_tabs_and_keeps_active_tab() {
    let a = RequestTabId::new();
    let b = RequestTabId::new();
    let c = RequestTabId::new();
    let mut root = PaneRoot::from_tabs(vec![tab(&a), tab(&b), tab(&c)], 0);
    let pane_id = root.panes()[0].id();
    assert!(root.reorder_within_pane(pane_id, &tab(&c), &tab(&a), false));
    assert_eq!(root.active_tabs(), vec![tab(&c), tab(&a), tab(&b)]);
    assert_eq!(
        root.pane(pane_id).and_then(|pane| pane.active_tab()),
        Some(tab(&a))
    );
    assert!(!root.reorder_within_pane(pane_id, &tab(&a), &tab(&a), false));
    let missing = RequestTabId::new();
    assert!(!root.reorder_within_pane(pane_id, &tab(&missing), &tab(&a), false));
}

#[test]
fn split_off_creates_a_two_child_split_with_a_fresh_pane() {
    let a = RequestTabId::new();
    let mut root = single(&a);
    let anchor = root.panes()[0].id();
    let new_id = root
        .split_off_pane(anchor, SplitDirection::Vertical, true)
        .expect("the anchor pane must split");
    assert!(!root.is_single_leaf());
    assert_eq!(root.len(), 2);
    assert_ne!(new_id, anchor);
    assert!(root.pane(new_id).is_some());
    assert_eq!(
        root.pane(anchor).and_then(|pane| pane.active_tab()),
        Some(tab(&a))
    );
    assert_eq!(root.pane(new_id).and_then(|pane| pane.active_tab()), None);
    assert!(root.validate_tab_uniqueness());

    let _ = root.split_off_pane(PaneId::new(), SplitDirection::Horizontal, false);
}

#[test]
fn move_tab_between_panes_removes_from_source_and_inserts_into_target() {
    let a = RequestTabId::new();
    let b = RequestTabId::new();
    let mut root = PaneRoot::from_tabs(vec![tab(&a), tab(&b)], 0);
    let first = root.panes()[0].id();
    let second = root
        .split_off_pane(first, SplitDirection::Vertical, true)
        .expect("split");
    let tab_b = tab(&b);
    assert!(root.move_tab_between_panes(&tab_b, first, second, 0));
    assert_eq!(
        root.pane(first).and_then(|pane| pane.active_tab()),
        Some(tab(&a))
    );
    assert_eq!(
        root.pane(second).and_then(|pane| pane.active_tab()),
        Some(tab(&b))
    );
    assert_eq!(root.active_tabs(), vec![tab(&a), tab(&b)]);
    assert!(root.validate_tab_uniqueness());
    assert!(!root.move_tab_between_panes(&tab_b, first, second, 0));
}

#[test]
fn closing_the_last_tab_in_a_pane_collapses_the_split() {
    let a = RequestTabId::new();
    let b = RequestTabId::new();
    let mut root = PaneRoot::from_tabs(vec![tab(&a), tab(&b)], 0);
    let first = root.panes()[0].id();
    let second = root
        .split_off_pane(first, SplitDirection::Vertical, true)
        .expect("split");
    let tab_b = tab(&b);
    assert!(root.move_tab_between_panes(&tab_b, first, second, 0));
    assert_eq!(root.len(), 2);

    assert!(root.close_tab(&tab(&a)));
    assert!(root.is_single_leaf());
    assert_eq!(root.active_tabs(), vec![tab(&b)]);
    assert!(root.validate_tab_uniqueness());
}

#[test]
fn tool_singletons_and_request_ids_stay_unique_across_panes() {
    let a = RequestTabId::new();
    let b = RequestTabId::new();
    let settings = WorkspaceTab::Tool(WorkspaceToolTab::Settings);
    let mut root = PaneRoot::Split(Box::new(Split {
        direction: SplitDirection::Vertical,
        children: vec![
            PaneRoot::from_tabs(vec![tab(&a), settings.clone()], 0),
            PaneRoot::from_tabs(vec![tab(&b)], 0),
        ],
    }));
    assert!(root.validate_tab_uniqueness());
    let first = root.panes()[0].id();
    let second = root.panes()[1].id();

    assert!(root.move_tab_between_panes(&tab(&a), first, second, 0));
    assert!(root.validate_tab_uniqueness());
    assert!(!root.move_tab_between_panes(&tab(&a), first, second, 0));

    assert!(root.move_tab_between_panes(&settings, first, second, 0));
    assert!(root.validate_tab_uniqueness());
}

#[test]
fn validation_catches_a_duplicated_singleton_across_panes() {
    let a = RequestTabId::new();
    let settings = WorkspaceTab::Tool(WorkspaceToolTab::Settings);
    let root = PaneRoot::Split(Box::new(Split {
        direction: SplitDirection::Vertical,
        children: vec![
            PaneRoot::from_tabs(vec![tab(&a), settings.clone()], 0),
            PaneRoot::from_tabs(vec![settings.clone()], 0),
        ],
    }));
    assert!(!root.validate_tab_uniqueness());
}

#[test]
fn close_is_idempotent_and_preserves_welcome() {
    let a = RequestTabId::new();
    let mut root = PaneRoot::from_tabs(vec![tab(&a), WorkspaceTab::Welcome], 0);
    assert!(root.close_tab(&tab(&a)));
    assert_eq!(root.active_tabs(), vec![WorkspaceTab::Welcome]);
    assert!(!root.close_tab(&tab(&a)));
}

#[test]
fn splitting_out_the_only_tab_keeps_an_empty_source_pane() {
    let a = RequestTabId::new();
    let mut root = single(&a);
    let anchor = root.panes()[0].id();
    let new_id = root
        .split_off_pane(anchor, SplitDirection::Vertical, true)
        .expect("split");
    assert!(root.remove_tab_from_pane(&tab(&a), anchor));
    assert!(root.pane(new_id).is_some());
    // An empty source pane survives: the user explicitly split, so the tree
    // must not collapse back to a single pane.
    assert!(!root.is_single_leaf());
    assert_eq!(root.len(), 2);
    assert_eq!(
        root.pane(anchor)
            .and_then(|pane| pane.tabs().first().cloned()),
        None
    );
    assert!(!root.remove_tab_from_pane(&tab(&a), anchor));
}

#[test]
fn moving_a_split_tab_back_to_its_original_pane_collapses_the_split() {
    let a = RequestTabId::new();
    let b = RequestTabId::new();
    let mut root = PaneRoot::from_tabs(vec![tab(&a), tab(&b)], 0);
    let initial = root.panes()[0].id();
    let split = root
        .split_off_pane(initial, SplitDirection::Vertical, true)
        .expect("split");
    assert!(root.move_tab_between_panes(&tab(&b), initial, split, 0));
    assert_eq!(root.len(), 2);

    assert!(root.move_tab_between_panes(&tab(&b), split, initial, 1));
    assert!(root.is_single_leaf());
    assert_eq!(root.active_tabs(), vec![tab(&a), tab(&b)]);
}

#[test]
fn reconciling_closed_tabs_collapses_empty_panes_and_keeps_new_tabs_reachable() {
    let a = RequestTabId::new();
    let b = RequestTabId::new();
    let replacement = RequestTabId::new();
    let mut root = PaneRoot::from_tabs(vec![tab(&a), tab(&b)], 0);
    let initial = root.panes()[0].id();
    let split = root
        .split_off_pane(initial, SplitDirection::Vertical, true)
        .expect("split");
    assert!(root.move_tab_between_panes(&tab(&b), initial, split, 0));

    assert!(root.reconcile_open_tabs(&vec![tab(&a)], &tab(&a)));
    assert!(root.is_single_leaf());
    assert_eq!(root.active_tabs(), vec![tab(&a)]);

    assert!(root.reconcile_open_tabs(&vec![tab(&a), tab(&replacement)], &tab(&replacement),));
    assert_eq!(root.active_tabs(), vec![tab(&a), tab(&replacement)]);
    assert_eq!(
        root.panes()[0].active_tab(),
        Some(tab(&replacement)),
        "a newly opened active tab must be assigned to a live pane",
    );
}

#[test]
fn a_split_takes_the_direction_and_side_asked_for() {
    let a = RequestTabId::new();
    let mut root = single(&a);
    let anchor = root.panes()[0].id();
    let new_id = root
        .split_off_pane(anchor, SplitDirection::Vertical, false)
        .expect("the anchor pane must split");
    match &root {
        PaneRoot::Split(split) => {
            assert_eq!(split.direction, SplitDirection::Vertical);
            assert_eq!(split.children.len(), 2);
            match (&split.children[0], &split.children[1]) {
                (PaneRoot::Leaf(first), PaneRoot::Leaf(second)) => {
                    assert_eq!(first.id(), new_id);
                    assert_eq!(second.id(), anchor);
                }
                _ => panic!("both children must be panes"),
            }
        }
        PaneRoot::Leaf(_) => panic!("the root must have split"),
    }
    let before = root.panes().len();
    assert!(root.split_off_pane(PaneId::new(), SplitDirection::Horizontal, true).is_err());
    assert_eq!(root.panes().len(), before);
    match &root {
        PaneRoot::Split(split) => assert_eq!(split.direction, SplitDirection::Vertical),
        PaneRoot::Leaf(_) => panic!("a failed split changes nothing"),
    }
}

#[test]
fn activating_a_tab_twice_is_the_same_as_once() {
    let a = RequestTabId::new();
    let b = RequestTabId::new();
    let mut pane = Pane::new();
    pane.insert_or_activate(tab(&a));
    pane.insert_or_activate(tab(&b));
    assert_eq!(pane.tabs(), vec![tab(&a), tab(&b)]);
    assert_eq!(pane.active_tab(), Some(tab(&b)));
    pane.insert_or_activate(tab(&a));
    let once = (pane.tabs(), pane.active_tab(), pane.id());
    pane.insert_or_activate(tab(&a));
    assert_eq!((pane.tabs(), pane.active_tab(), pane.id()), once);
    assert_eq!(pane.active_tab(), Some(tab(&a)));
}

#[test]
fn reconciling_a_split_with_what_it_already_shows_changes_nothing() {
    let a = RequestTabId::new();
    let b = RequestTabId::new();
    let mut root = PaneRoot::from_tabs(vec![tab(&a), tab(&b)], 0);
    let first = root.panes()[0].id();
    let second = root
        .split_off_pane(first, SplitDirection::Horizontal, true)
        .expect("split");
    assert!(root.move_tab_between_panes(&tab(&b), first, second, 0));
    let before: Vec<(PaneId, Vec<WorkspaceTab>, Option<WorkspaceTab>)> = root
        .panes()
        .iter()
        .map(|pane| (pane.id(), pane.tabs(), pane.active_tab()))
        .collect();
    assert!(!root.reconcile_open_tabs(&vec![tab(&a), tab(&b)], &tab(&b)));
    let after: Vec<(PaneId, Vec<WorkspaceTab>, Option<WorkspaceTab>)> = root
        .panes()
        .iter()
        .map(|pane| (pane.id(), pane.tabs(), pane.active_tab()))
        .collect();
    assert_eq!(after, before);
    assert!(!root.is_single_leaf());
}

#[test]
fn removing_empty_panes_from_a_tidy_layout_keeps_its_shape() {
    let a = RequestTabId::new();
    let b = RequestTabId::new();
    let mut root = PaneRoot::from_tabs(vec![tab(&a), tab(&b)], 0);
    let first = root.panes()[0].id();
    let second = root
        .split_off_pane(first, SplitDirection::Vertical, true)
        .expect("split");
    assert!(root.move_tab_between_panes(&tab(&b), first, second, 0));
    let ids: Vec<PaneId> = root.panes().iter().map(|pane| pane.id()).collect();
    root.remove_empty_panes();
    let after: Vec<PaneId> = root.panes().iter().map(|pane| pane.id()).collect();
    assert_eq!(after, ids);
    match &root {
        PaneRoot::Split(split) => assert_eq!(split.direction, SplitDirection::Vertical),
        PaneRoot::Leaf(_) => panic!("a tidy split stays a split"),
    }
}

#[test]
fn a_refused_move_leaves_the_layout_and_a_move_keeps_the_split_direction() {
    let a = RequestTabId::new();
    let b = RequestTabId::new();
    let c = RequestTabId::new();
    let mut root = PaneRoot::from_tabs(vec![tab(&a), tab(&b), tab(&c)], 0);
    let first = root.panes()[0].id();
    let second = root
        .split_off_pane(first, SplitDirection::Vertical, true)
        .expect("split");
    let missing = RequestTabId::new();
    assert!(!root.move_tab_between_panes(&tab(&missing), first, second, 0));
    assert!(!root.move_tab_between_panes(&tab(&a), first, first, 0));
    match &root {
        PaneRoot::Split(split) => assert_eq!(split.direction, SplitDirection::Vertical),
        PaneRoot::Leaf(_) => panic!("a refused move changes nothing"),
    }
    assert_eq!(root.active_tabs(), vec![tab(&a), tab(&b), tab(&c)]);
    assert!(root.move_tab_between_panes(&tab(&b), first, second, 0));
    match &root {
        PaneRoot::Split(split) => {
            assert_eq!(split.direction, SplitDirection::Vertical);
            assert_eq!(split.children.len(), 2);
        }
        PaneRoot::Leaf(_) => panic!("both panes still hold tabs"),
    }
    assert_eq!(root.pane_for_tab(&tab(&b)), Some(second));
}

#[test]
fn a_pane_clone_is_the_same_pane() {
    let a = RequestTabId::new();
    let mut pane = Pane::new();
    pane.insert_or_activate(tab(&a));
    let copy = pane.clone();
    assert_eq!(copy.id(), pane.id());
    assert_eq!(copy.tabs(), pane.tabs());
}
