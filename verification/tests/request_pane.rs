use api_tester::execution_stage::ExecutionStage;
use api_tester::request_pane::RequestPane;
use api_tester::request_tab::RequestTab;

#[test]
fn request_pane_indices_round_trip() {
    for pane in [
        RequestPane::Params,
        RequestPane::PathVariables,
        RequestPane::Headers,
        RequestPane::Body,
        RequestPane::PreRequest,
        RequestPane::PostResponse,
        RequestPane::Cookies,
        RequestPane::Documentation,
    ] {
        assert_eq!(RequestPane::from_index(pane.index()), pane);
    }
    assert_eq!(RequestPane::from_index(usize::MAX), RequestPane::Params);
}

#[test]
fn request_tab_indices_round_trip() {
    for tab in [
        RequestTab::Headers,
        RequestTab::Body,
        RequestTab::PreRequest,
        RequestTab::PostResponse,
    ] {
        assert_eq!(RequestTab::from_index(tab.index()), tab);
    }
    assert_eq!(RequestTab::PostResponse.index(), 3);
    assert_eq!(RequestTab::from_index(4), RequestTab::Headers);
}

#[test]
fn execution_stage_labels() {
    assert_eq!(ExecutionStage::PreRequest.label(), "Pre-script…");
    assert_eq!(ExecutionStage::Request.label(), "Sending…");
    assert_eq!(ExecutionStage::PostResponse.label(), "Post-script…");
}
