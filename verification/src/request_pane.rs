use vstd::prelude::*;

verus! {

/// The editor sections of a request, in the order the section bar shows them.
#[derive(Clone, Copy, Debug, PartialEq, Eq, Structural)]
pub enum RequestPane {
    Params,
    PathVariables,
    Headers,
    Body,
    PreRequest,
    PostResponse,
    Cookies,
    Documentation,
}

impl RequestPane {
    /// Position of the section in the section bar.
    pub open spec fn position(self) -> nat {
        match self {
            RequestPane::Params => 0,
            RequestPane::PathVariables => 1,
            RequestPane::Headers => 2,
            RequestPane::Body => 3,
            RequestPane::PreRequest => 4,
            RequestPane::PostResponse => 5,
            RequestPane::Cookies => 6,
            RequestPane::Documentation => 7,
        }
    }

    /// The section at a position; any position past the last one falls back
    /// to the query parameters.
    pub open spec fn at_position(index: int) -> RequestPane {
        if index == 1 {
            RequestPane::PathVariables
        } else if index == 2 {
            RequestPane::Headers
        } else if index == 3 {
            RequestPane::Body
        } else if index == 4 {
            RequestPane::PreRequest
        } else if index == 5 {
            RequestPane::PostResponse
        } else if index == 6 {
            RequestPane::Cookies
        } else if index == 7 {
            RequestPane::Documentation
        } else {
            RequestPane::Params
        }
    }

    pub fn index(self) -> (r: usize)
        ensures
            r == self.position(),
    {
        match self {
            RequestPane::Params => 0,
            RequestPane::PathVariables => 1,
            RequestPane::Headers => 2,
            RequestPane::Body => 3,
            RequestPane::PreRequest => 4,
            RequestPane::PostResponse => 5,
            RequestPane::Cookies => 6,
            RequestPane::Documentation => 7,
        }
    }

    pub fn from_index(index: usize) -> (r: RequestPane)
        ensures
            r == RequestPane::at_position(index as int),
    {
        match index {
            1 => RequestPane::PathVariables,
            2 => RequestPane::Headers,
            3 => RequestPane::Body,
            4 => RequestPane::PreRequest,
            5 => RequestPane::PostResponse,
            6 => RequestPane::Cookies,
            7 => RequestPane::Documentation,
            _ => RequestPane::Params,
        }
    }
}

/// Reading a section back from its position gives the same section.
pub proof fn lemma_request_pane_round_trip(pane: RequestPane)
    ensures
        RequestPane::at_position(pane.position() as int) == pane,
{
}

/// Every position names a section, and the section names that position when it
/// is one of the eight; any other position reads as the query parameters.
pub proof fn lemma_request_pane_positions(index: int)
    ensures
        0 <= index < 8 ==> RequestPane::at_position(index).position() == index,
        !(0 <= index < 8) ==> RequestPane::at_position(index) == RequestPane::Params,
{
}

} // verus!
