use vstd::prelude::*;

use crate::execution_stage::ExecutionStage;
use crate::gateway::GatewayState;
use crate::history_page::PendingDelete;
use crate::local_execution_limits::{ExecutionLimitSettings, LocalExecutionLimitEditor};
use crate::persistence::PersistenceIoState;
use crate::realtime::RealtimeConnectionStatus;
use crate::request_interchange::RequestInterchangeState;
use crate::pane_editor::PaneEditorState;
use crate::path_variables_editor::PathVariableRow;
use crate::request_editor::{RequestDirty, RequestEditor};
use crate::request_model::RequestTemplate;
use crate::request_tabs::RequestTabs;
use crate::snippets::Snippet;
use crate::workspace::Workspace;

verus! {

/// The state of the request editor window that its actions read and change.
pub struct ApiTester {
    pub request_tabs: RequestTabs,
    pub workspace: Workspace,
    pub sending: bool,
    pub selected_collection_id: Option<String>,
    pub selected_folder_id: Option<String>,
    pub editor: RequestEditor,
    pub request_dirty: RequestDirty,
    pub loaded_request_baseline: RequestTemplate,
    pub detached_request_dirty: bool,
    pub request_notice: Option<String>,
    pub request_error: Option<String>,
    pub pane_editors: Vec<PaneEditorState>,
    pub gateway: GatewayState,
    pub workspace_version: u64,
    pub workspace_writable: bool,
    pub workspace_warning: Option<String>,
    pub request_tabs_writable: bool,
    pub request_tabs_warning: Option<String>,
    pub last_persisted_request_tabs: RequestTabs,
    pub persistence_io: PersistenceIoState,
    pub execution_stage: Option<ExecutionStage>,
    pub request_generation: u64,
    pub script_cancellation_armed: bool,
    pub abort_handle_armed: bool,
    pub has_response: bool,
    pub preview_error: Option<String>,
    pub request_history_target: Option<String>,
    pub pending_delete: Option<PendingDelete>,
    pub realtime_stream_armed: bool,
    pub realtime_refresh_armed: bool,
    pub realtime_generation: u64,
    pub realtime_refresh_generation: u64,
    pub realtime_status: RealtimeConnectionStatus,
    pub path_variables: Vec<PathVariableRow>,
    pub execution_limits: ExecutionLimitSettings,
    pub local_execution_limit_editor: Option<LocalExecutionLimitEditor>,
    pub request_interchange: RequestInterchangeState,
    pub active_saved_request_id: Option<String>,
    pub history_writable: bool,
    pub history_warning: Option<String>,
    pub pending_request_load_key: Option<String>,
    pub snippets: Vec<Snippet>,
    pub workspace_switch: WorkspaceSwitch,
}

/// The switch of the active workspace: its generation, which a newer
/// switch bumps, and whether one is under way.
#[derive(Clone, Copy, Debug, PartialEq, Eq, Structural)]
pub struct WorkspaceSwitch {
    pub generation: u64,
    pub loading: bool,
}

impl ApiTester {
    /// A window with one blank tab over an empty workspace.
    pub fn new() -> (t: ApiTester)
        ensures
            t.request_tabs.wf(),
            t.request_tabs.tabs@.len() == 1,
            t.request_tabs.groups@.len() == 0,
            t.workspace.collections@.len() == 0,
            !t.sending,
            t.selected_collection_id is None,
            t.selected_folder_id is None,
            t.last_persisted_request_tabs@ == t.request_tabs@,
    {
        let request_tabs = RequestTabs::new();
        let last_persisted_request_tabs = request_tabs.clone();
        ApiTester {
            request_tabs,
            workspace: Workspace::new(),
            sending: false,
            selected_collection_id: None,
            selected_folder_id: None,
            editor: RequestEditor::new(),
            request_dirty: RequestDirty::clean(),
            loaded_request_baseline: RequestTemplate::blank(),
            detached_request_dirty: false,
            request_notice: None,
            request_error: None,
            pane_editors: Vec::new(),
            gateway: GatewayState::default(),
            workspace_version: 0,
            workspace_writable: true,
            workspace_warning: None,
            request_tabs_writable: true,
            request_tabs_warning: None,
            last_persisted_request_tabs,
            persistence_io: PersistenceIoState::new(),
            execution_stage: None,
            request_generation: 0,
            script_cancellation_armed: false,
            abort_handle_armed: false,
            has_response: false,
            preview_error: None,
            request_history_target: None,
            pending_delete: None,
            realtime_stream_armed: false,
            realtime_refresh_armed: false,
            realtime_generation: 0,
            realtime_refresh_generation: 0,
            realtime_status: RealtimeConnectionStatus::Inactive,
            path_variables: Vec::new(),
            execution_limits: ExecutionLimitSettings {
                application: Vec::new(),
                workspaces: Vec::new(),
                collections: Vec::new(),
            },
            local_execution_limit_editor: None,
            request_interchange: RequestInterchangeState::new(),
            active_saved_request_id: None,
            history_writable: true,
            history_warning: None,
            pending_request_load_key: None,
            snippets: Vec::new(),
            workspace_switch: WorkspaceSwitch { generation: 0, loading: false },
        }
    }
}

} // verus!
