use vstd::prelude::*;

verus! {

/// The phase a running request is in, shown on its send button.
#[derive(Clone, Copy, Debug, PartialEq, Eq, Structural)]
pub enum ExecutionStage {
    PreRequest,
    Request,
    PostResponse,
}

impl ExecutionStage {
    /// The text shown while the request is in this phase.
    pub open spec fn caption(self) -> Seq<char> {
        match self {
            ExecutionStage::PreRequest => "Pre-script…"@,
            ExecutionStage::Request => "Sending…"@,
            ExecutionStage::PostResponse => "Post-script…"@,
        }
    }

    pub fn label(self) -> (r: &'static str)
        ensures
            r@ == self.caption(),
    {
        match self {
            ExecutionStage::PreRequest => "Pre-script…",
            ExecutionStage::Request => "Sending…",
            ExecutionStage::PostResponse => "Post-script…",
        }
    }
}

} // verus!
