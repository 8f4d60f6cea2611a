use vstd::prelude::*;

use crate::api_tester::ApiTester;
use crate::realtime::{refresh_conflict, refresh_open_request_tabs, refreshed_tab};
use crate::request_tab_reconciliation::reconciled_tab;
use crate::request_tabs::TabView;
use crate::text::{owned, str_eq};
use crate::workspace::{Workspace, opt_view};
use crate::workspace_tab::RequestTabId;

verus! {

/// The notice for an active request that changed on the server.
pub open spec fn server_change_notice() -> Seq<char> {
    "This request changed on the server. Your edits are still here."@
}

/// The collection selected after the workspace was replaced: the selected
/// one if the workspace still holds it, otherwise the first collection.
pub open spec fn repaired_collection(w: Workspace, selected: Option<Seq<char>>) -> Option<Seq<char>> {
    if selected is Some && w.collection_position(selected->0) is Some {
        selected
    } else if w.collections@.len() > 0 {
        Some(w.collections@[0].id@)
    } else {
        None
    }
}

/// The folder selected after the workspace was replaced: the selected one if
/// the selected collection still holds it, otherwise none.
pub open spec fn repaired_folder(w: Workspace, collection: Option<Seq<char>>, folder: Option<Seq<char>>) -> Option<Seq<char>> {
    if collection is Some && folder is Some && w.collection_position(collection->0) is Some
        && w.collections@[w.collection_position(collection->0)->0].has_folder(folder->0) {
        folder
    } else {
        None
    }
}

/// Repairing the sidebar selection after a refresh keeps a selected
/// collection that the workspace still holds; only when the selection is
/// gone, or there is none, does the first collection take its place. The
/// selection that comes out is always a collection of the workspace.
pub proof fn lemma_repaired_collection_keeps_held_selection(w: Workspace, selected: Option<Seq<char>>)
    ensures
        (selected is Some && exists|i: int| 0 <= i < w.collections@.len() && (#[trigger] w.collections@[i]).id@
            == selected->0) ==> repaired_collection(w, selected) == selected,
        !(selected is Some && exists|i: int| 0 <= i < w.collections@.len() && (#[trigger] w.collections@[i]).id@
            == selected->0) && w.collections@.len() > 0 ==> repaired_collection(w, selected) == Some(
            w.collections@[0].id@,
        ),
        w.collections@.len() == 0 ==> repaired_collection(w, selected) is None,
        repaired_collection(w, selected) is Some ==> exists|i: int|
            0 <= i < w.collections@.len() && (#[trigger] w.collections@[i]).id@ == repaired_collection(w, selected)->0,
{
    if selected is Some && exists|i: int| 0 <= i < w.collections@.len() && (#[trigger] w.collections@[i]).id@
        == selected->0 {
        assert(w.collection_position(selected->0) is Some);
    } else if selected is Some {
        assert(w.collection_position(selected->0) is None);
    }
    if w.collections@.len() > 0 {
        assert(w.collections@[0].id@ == w.collections@[0].id@);
    }
}

/// Repairing the selected folder keeps it when the first collection with the
/// selected collection's identifier still holds it, and otherwise clears it;
/// it never selects another folder.
pub proof fn lemma_repaired_folder_keeps_held_folder(
    w: Workspace,
    collection: Option<Seq<char>>,
    folder: Option<Seq<char>>,
    i: int,
)
    ensures
        (collection is Some && folder is Some && 0 <= i < w.collections@.len() && w.collections@[i].id@
            == collection->0 && (forall|k: int| 0 <= k < i ==> (#[trigger] w.collections@[k]).id@ != collection->0)
            && w.collections@[i].has_folder(folder->0)) ==> repaired_folder(w, collection, folder) == folder,
        (collection is Some && folder is Some && 0 <= i < w.collections@.len() && w.collections@[i].id@
            == collection->0 && (forall|k: int| 0 <= k < i ==> (#[trigger] w.collections@[k]).id@ != collection->0)
            && !w.collections@[i].has_folder(folder->0)) ==> repaired_folder(w, collection, folder) is None,
        repaired_folder(w, collection, folder) is Some ==> repaired_folder(w, collection, folder) == folder,
        collection is None || folder is None ==> repaired_folder(w, collection, folder) is None,
{
    if collection is Some && 0 <= i < w.collections@.len() && w.collections@[i].id@ == collection->0 && (forall|
        k: int,
    | 0 <= k < i ==> (#[trigger] w.collections@[k]).id@ != collection->0) {
        assert(w.collection_position(collection->0) is Some);
        let p = w.collection_position(collection->0)->0;
        assert(0 <= p < w.collections@.len() && w.collections@[p].id@ == collection->0 && forall|k: int|
            0 <= k < p ==> (#[trigger] w.collections@[k]).id@ != collection->0);
        if p < i {
            assert(w.collections@[p].id@ != collection->0);
        }
        if i < p {
            assert(w.collections@[i].id@ != collection->0);
        }
        assert(p == i);
    }
}

fn contains_id(ids: &Vec<RequestTabId>, id: RequestTabId) -> (r: bool)
    ensures
        r == ids@.contains(id),
{
    let mut k: usize = 0;
    while k < ids.len()
        invariant
            0 <= k <= ids@.len(),
            forall|m: int| 0 <= m < k ==> ids@[m] != id,
        decreases ids@.len() - k,
    {
        if ids[k] == id {
            assert(ids@[k as int] == id);
            return true;
        }
        k = k + 1;
    }
    false
}

fn repaired_collection_id(workspace: &Workspace, selected: &Option<String>) -> (r: Option<String>)
    ensures
        opt_view(r) == repaired_collection(*workspace, opt_view(*selected)),
        (selected is Some && exists|i: int| 0 <= i < workspace.collections@.len()
            && (#[trigger] workspace.collections@[i]).id@ == selected->0@) ==> opt_view(r) == opt_view(*selected),
{
    proof {
        lemma_repaired_collection_keeps_held_selection(*workspace, opt_view(*selected));
    }
    if let Some(c) = selected {
        if workspace.collection(c.as_str()).is_some() {
            return Some(owned(c.as_str()));
        }
    }
    if workspace.collections.len() > 0 {
        Some(owned(workspace.collections[0].id.as_str()))
    } else {
        None
    }
}

fn repaired_folder_id(workspace: &Workspace, collection: &Option<String>, folder: &Option<String>) -> (r: Option<String>)
    ensures
        opt_view(r) == repaired_folder(*workspace, opt_view(*collection), opt_view(*folder)),
{
    if let (Some(c), Some(f)) = (collection, folder) {
        if let Some(found) = workspace.collection(c.as_str()) {
            if found.folder(f.as_str()).is_some() {
                return Some(owned(f.as_str()));
            }
        }
    }
    None
}

/// `after` is `before` once its active tab was settled after a refresh: a
/// tab with unsaved changes keeps the editor, takes the tab's saved state
/// as baseline and recomputes every part's flag; any other tab is put back
/// into the editor. `prior_collection` and `prior_folder` are the selection
/// that stands where the tab names nothing the workspace holds. When
/// `notice_owed`, a notice says that the edits are kept.
#[verifier::opaque]
pub open spec fn settled(
    after: ApiTester,
    before: ApiTester,
    was_dirty: bool,
    notice_owed: bool,
    prior_collection: Option<Seq<char>>,
    prior_folder: Option<Seq<char>>,
    redacted: Seq<char>,
) -> bool {
    &&& notice_owed ==> (after.request_notice matches Some(n) && n@ == server_change_notice())
    &&& !notice_owed ==> after.request_notice == if was_dirty {
        before.request_notice
    } else {
        None
    }
    &&& if was_dirty {
        &&& opt_view(after.selected_collection_id) == prior_collection
        &&& opt_view(after.selected_folder_id) == prior_folder
        &&& after.loaded_request_baseline@ == before.request_tabs@.tabs[before.request_tabs.active as int].baseline_template
        &&& after.request_dirty == if before.request_dirty.hydrating {
            before.request_dirty
        } else {
            before.editor.dirty_against(after.loaded_request_baseline@)
        }
        &&& after == (ApiTester {
            selected_collection_id: after.selected_collection_id,
            selected_folder_id: after.selected_folder_id,
            loaded_request_baseline: after.loaded_request_baseline,
            request_dirty: after.request_dirty,
            request_notice: after.request_notice,
            ..before
        })
    } else {
        (ApiTester { request_notice: None, ..after }).restored_from(before, prior_collection, prior_folder, redacted)
    }
}

/// Settling does not depend on the selection it started from beyond the
/// prior selection it is given.
proof fn lemma_settled_ignores_selection(
    after: ApiTester,
    b1: ApiTester,
    b2: ApiTester,
    was_dirty: bool,
    notice_owed: bool,
    prior_collection: Option<Seq<char>>,
    prior_folder: Option<Seq<char>>,
    redacted: Seq<char>,
)
    requires
        settled(after, b1, was_dirty, notice_owed, prior_collection, prior_folder, redacted),
        b2 == (ApiTester {
            selected_collection_id: b2.selected_collection_id,
            selected_folder_id: b2.selected_folder_id,
            ..b1
        }),
    ensures
        settled(after, b2, was_dirty, notice_owed, prior_collection, prior_folder, redacted),
{
    reveal(settled);
}

impl ApiTester {
    #[verifier::spinoff_prover]
    #[verifier::rlimit(60)]
    fn settle_active_tab(&mut self, was_dirty: bool, notice_owed: bool, redacted: &str)
        requires
            old(self).request_tabs.wf(),
        ensures
            final(self).workspace == old(self).workspace,
            final(self).request_tabs == old(self).request_tabs,
            final(self).workspace_warning == old(self).workspace_warning,
            settled(
                *final(self),
                *old(self),
                was_dirty,
                notice_owed,
                opt_view(old(self).selected_collection_id),
                opt_view(old(self).selected_folder_id),
                redacted@,
            ),
    {
        if was_dirty {
            self.loaded_request_baseline = self.request_tabs.active().baseline_template().clone();
            self.refresh_all_request_dirty_parts();
        } else {
            let _ = self.restore_active_request_tab(redacted);
        }
        if notice_owed {
            self.request_notice = Some(owned("This request changed on the server. Your edits are still here."));
            proof {
                reveal_strlit("This request changed on the server. Your edits are still here.");
            }
        }
        proof {
            reveal(settled);
        }
    }

    /// Takes in the workspace the server sent after a change: open tabs of
    /// saved requests are reloaded where they hold no draft, every tab's
    /// location is repaired, the workspace is replaced and the selection
    /// repaired. An active tab with unsaved changes keeps the editor and
    /// compares it with its new saved state; otherwise the active tab is
    /// put back into the editor. When the active request itself conflicts,
    /// a notice says that the edits are kept. Gives back the conflicting
    /// tabs.
    #[verifier::spinoff_prover]
    #[verifier::rlimit(100)]
    pub fn apply_refreshed_workspace(&mut self, workspace: Workspace, redacted: &str) -> (conflicts: Vec<RequestTabId>)
        requires
            old(self).request_tabs.wf(),
        ensures
            final(self).workspace == workspace,
            final(self).request_tabs.active == old(self).request_tabs.active,
            final(self).request_tabs.groups == old(self).request_tabs.groups,
            final(self).request_tabs@.tabs == old(self).request_tabs@.tabs.map_values(
                |t: TabView| reconciled_tab(workspace, refreshed_tab(workspace, t)),
            ),
            conflicts@.no_duplicates(),
            forall|id: RequestTabId|
                conflicts@.contains(id) == exists|k: int|
                    0 <= k < old(self).request_tabs@.tabs.len() && old(self).request_tabs@.tabs[k].id == id
                        && refresh_conflict(workspace, #[trigger] old(self).request_tabs@.tabs[k]),
            ({
                let active = old(self).request_tabs@.tabs[old(self).request_tabs.active as int];
                let collection = repaired_collection(workspace, opt_view(old(self).selected_collection_id));
                settled(
                    *final(self),
                    ApiTester {
                        request_tabs: final(self).request_tabs,
                        workspace: final(self).workspace,
                        workspace_warning: None,
                        ..*old(self)
                    },
                    active.dirty(),
                    conflicts@.contains(active.id),
                    collection,
                    repaired_folder(workspace, collection, opt_view(old(self).selected_folder_id)),
                    redacted@,
                )
            }),
    {
        let active_id = *self.request_tabs.active_tab_id();
        let was_dirty = self.request_tabs.active().is_dirty();
        let conflicts = refresh_open_request_tabs(&mut self.request_tabs, &workspace);
        self.workspace = workspace;
        self.workspace_warning = None;
        let ghost mid = *self;
        let collection = repaired_collection_id(&self.workspace, &self.selected_collection_id);
        let folder = repaired_folder_id(&self.workspace, &collection, &self.selected_folder_id);
        self.selected_collection_id = collection;
        self.selected_folder_id = folder;
        let ghost selected = *self;
        let notice_owed = contains_id(&conflicts, active_id);
        self.settle_active_tab(was_dirty, notice_owed, redacted);
        proof {
            lemma_settled_ignores_selection(
                *self,
                selected,
                mid,
                was_dirty,
                notice_owed,
                opt_view(selected.selected_collection_id),
                opt_view(selected.selected_folder_id),
                redacted@,
            );
        }
        conflicts
    }
}

/// What a workspace pushed by the server leads to, before it is applied.
#[derive(Debug, PartialEq, Eq)]
pub enum RealtimeRefreshStep {
    /// The server workspace is no longer the active one: the push is dropped.
    Ignore,
    /// The workspace is still the one selected on the server: apply it.
    Refresh,
    /// The server selected another workspace and nothing holds the window
    /// here: switch to that one.
    SwitchToSelected,
    /// This workspace is gone; `may_leave` says whether the window may move
    /// to a local workspace once the server profile was updated.
    Unavailable { may_leave: bool },
}

/// The warning shown when the workspace can no longer be reached.
pub open spec fn unavailable_warning() -> Seq<char> {
    "This workspace is no longer available. Your open edits are still here."@
}

impl ApiTester {
    /// Decides what a pushed server workspace leads to: nothing when another
    /// provider is active; a refresh when the server still selects this
    /// workspace; otherwise a switch to the workspace the server selected
    /// when no request is being sent and neither the request nor the
    /// environment holds unsaved edits, and else the workspace is reported
    /// unavailable. Changes nothing.
    pub fn realtime_refresh_step(
        &self,
        provider_is_active: bool,
        workspace_id: &str,
        selected_workspace_id: Option<&str>,
        environment_editor_dirty: bool,
    ) -> (step: RealtimeRefreshStep)
        ensures
            ({
                let can_leave = !self.sending && !(self.detached_request_dirty || self.request_dirty.any_part())
                    && !environment_editor_dirty;
                let still_selected = selected_workspace_id is Some && selected_workspace_id->0@ == workspace_id@;
                if !provider_is_active {
                    step == RealtimeRefreshStep::Ignore
                } else if still_selected {
                    step == RealtimeRefreshStep::Refresh
                } else if selected_workspace_id is Some && can_leave {
                    step == RealtimeRefreshStep::SwitchToSelected
                } else {
                    step == (RealtimeRefreshStep::Unavailable { may_leave: selected_workspace_id is None && can_leave })
                }
            }),
    {
        if !provider_is_active {
            return RealtimeRefreshStep::Ignore;
        }
        let still_selected = match selected_workspace_id {
            Some(id) => str_eq(id, workspace_id),
            None => false,
        };
        if still_selected {
            return RealtimeRefreshStep::Refresh;
        }
        let can_leave = !self.sending && !self.request_is_dirty() && !environment_editor_dirty;
        if selected_workspace_id.is_some() && can_leave {
            return RealtimeRefreshStep::SwitchToSelected;
        }
        RealtimeRefreshStep::Unavailable { may_leave: selected_workspace_id.is_none() && can_leave }
    }

    /// Keeps the window on a workspace the server no longer offers, with a
    /// warning that the edits are still here.
    pub fn mark_workspace_unavailable(&mut self)
        ensures
            final(self).workspace_warning is Some,
            final(self).workspace_warning->0@ == unavailable_warning(),
            *final(self) == (ApiTester { workspace_warning: final(self).workspace_warning, ..*old(self) }),
    {
        self.workspace_warning = Some(owned("This workspace is no longer available. Your open edits are still here."));
        proof {
            reveal_strlit("This workspace is no longer available. Your open edits are still here.");
        }
    }
}

} // verus!
