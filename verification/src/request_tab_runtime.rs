use vstd::prelude::*;

use crate::pane_editor::ResponseTab;
use crate::request_pane::RequestPane;

verus! {

/// What a request tab shows besides its definition: the request section,
/// the response tab, whether the body is pretty-printed, and whether the
/// response was just copied.
#[derive(Clone, Copy, Debug, PartialEq, Eq, Structural)]
pub struct RequestTabRuntime {
    pub request_pane: RequestPane,
    pub response_tab: ResponseTab,
    pub pretty_body: bool,
    pub copied: bool,
}

impl Default for RequestTabRuntime {
    /// A tab that was never shown: the headers section, the response body,
    /// pretty-printed, nothing copied.
    fn default() -> (r: RequestTabRuntime)
        ensures
            r == (RequestTabRuntime {
                request_pane: RequestPane::Headers,
                response_tab: ResponseTab::Body,
                pretty_body: true,
                copied: false,
            }),
    {
        RequestTabRuntime {
            request_pane: RequestPane::Headers,
            response_tab: ResponseTab::Body,
            pretty_body: true,
            copied: false,
        }
    }
}

} // verus!
