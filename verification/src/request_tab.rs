use vstd::prelude::*;

verus! {

/// The tabs of the compact request editor, in display order.
#[derive(Clone, Copy, Debug, PartialEq, Eq, Structural)]
pub enum RequestTab {
    Headers,
    Body,
    PreRequest,
    PostResponse,
}

impl RequestTab {
    /// Position of the tab in the tab bar.
    pub open spec fn position(self) -> nat {
        match self {
            RequestTab::Headers => 0,
            RequestTab::Body => 1,
            RequestTab::PreRequest => 2,
            RequestTab::PostResponse => 3,
        }
    }

    /// The tab at a position; any position past the last one falls back to
    /// the headers.
    pub open spec fn at_position(index: int) -> RequestTab {
        if index == 1 {
            RequestTab::Body
        } else if index == 2 {
            RequestTab::PreRequest
        } else if index == 3 {
            RequestTab::PostResponse
        } else {
            RequestTab::Headers
        }
    }

    pub fn index(self) -> (r: usize)
        ensures
            r == self.position(),
    {
        match self {
            RequestTab::Headers => 0,
            RequestTab::Body => 1,
            RequestTab::PreRequest => 2,
            RequestTab::PostResponse => 3,
        }
    }

    pub fn from_index(index: usize) -> (r: RequestTab)
        ensures
            r == RequestTab::at_position(index as int),
    {
        match index {
            1 => RequestTab::Body,
            2 => RequestTab::PreRequest,
            3 => RequestTab::PostResponse,
            _ => RequestTab::Headers,
        }
    }
}

/// Reading a tab back from its position gives the same tab.
pub proof fn lemma_request_tab_round_trip(tab: RequestTab)
    ensures
        RequestTab::at_position(tab.position() as int) == tab,
{
}

} // verus!
