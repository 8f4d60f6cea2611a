use vstd::prelude::*;

use crate::ids::random_u64;

verus! {

/// Identity of one open request tab.
#[derive(Clone, Copy, Debug, PartialEq, Eq, Structural, Hash)]
pub struct RequestTabId(pub u64);

impl RequestTabId {
    /// A new identity drawn from the process's random source.
    pub fn new() -> RequestTabId {
        RequestTabId(random_u64())
    }
}

/// The tool surfaces that open as workspace tabs. Each is a singleton.
#[derive(Clone, Copy, Debug, PartialEq, Eq, Structural, Hash)]
pub enum WorkspaceToolTab {
    Snippets,
    Settings,
    ThemeCss(u64),
    RequestProxy,
    ServerTools,
}

/// A tab in the workspace strip: the Welcome page, a request, or a tool.
#[derive(Clone, Copy, Debug, PartialEq, Eq, Structural, Hash)]
pub enum WorkspaceTab {
    Welcome,
    Request(RequestTabId),
    Tool(WorkspaceToolTab),
}

} // verus!
