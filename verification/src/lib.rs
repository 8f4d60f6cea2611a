use vstd::prelude::*;

pub mod api_tester;
pub mod execution;
pub mod execution_stage;
pub mod gateway;
pub mod history_page;
mod ids;
pub mod limit_lookup;
pub mod limit_scopes;
pub mod local_execution_limits;
pub mod pane_editor;
pub mod pane_laws;
pub mod pane_sessions;
pub mod pane_tree;
pub mod path_variables_editor;
pub mod persistence;
pub mod realtime;
pub mod realtime_refresh;
pub mod request_actions;
pub mod request_editor;
pub mod request_import;
pub mod request_interchange;
pub mod request_loading;
pub mod request_model;
pub mod request_pane;
pub mod request_tab;
pub mod request_tab_group_actions;
pub mod request_tab_reconciliation;
pub mod request_tab_runtime;
pub mod request_tabs;
pub mod request_tabs_actions;
pub mod snippets;
pub mod upstream_import;
pub mod text;
pub mod workspace;
pub mod workspace_tab;

verus! {
}
