use vstd::prelude::*;

use crate::api_tester::ApiTester;
use crate::request_model::same_template;
use crate::request_tab_reconciliation::{reconcile_restored_request_tabs, reconciled_tab, repaired_association, saved_request_repair};
use crate::request_tabs::{RequestTabAssociation, RequestTabs, TabView};
use crate::workspace::{Workspace, opt_view};
use crate::workspace_tab::RequestTabId;

verus! {

/// A tab that names a saved request, after the saved request was reloaded:
/// its saved title, definition and location follow the workspace and it is
/// no longer detached; a clean tab also takes the new definition, and a title
/// that was not renamed takes the new name. Other tabs are unchanged.
#[verifier::opaque]
pub open spec fn refreshed_tab(w: Workspace, t: TabView) -> TabView {
    match t.association.2 {
        None => t,
        Some(rid) => match w.locate(rid) {
            None => t,
            Some(loc) => {
                let c = w.collections@[loc.collection];
                let q = c.requests@[loc.request];
                TabView {
                    title: if t.title == t.baseline_title {
                        q.name@
                    } else {
                        t.title
                    },
                    template: if t.dirty() {
                        t.template
                    } else {
                        q.definition@
                    },
                    baseline_title: q.name@,
                    baseline_template: q.definition@,
                    association: (opt_view(q.folder_id), Some(c.id@), Some(q.id@)),
                    detached: false,
                    ..t
                }
            },
        },
    }
}

/// The reload conflicts with a tab: its saved request is gone, or the tab
/// holds unsaved changes while the saved request changed underneath it.
#[verifier::opaque]
pub open spec fn refresh_conflict(w: Workspace, t: TabView) -> bool {
    match t.association.2 {
        None => false,
        Some(rid) => match w.locate(rid) {
            None => true,
            Some(loc) => {
                let q = w.collections@[loc.collection].requests@[loc.request];
                t.dirty() && (t.baseline_title != q.name@ || t.baseline_template
                    != q.definition@)
            },
        },
    }
}

/// The identities of the conflicting tabs among the first `n`.
pub open spec fn conflict_ids(w: Workspace, tabs: Seq<TabView>, n: int) -> Set<RequestTabId>
    decreases n,
{
    if n <= 0 {
        Set::empty()
    } else if refresh_conflict(w, tabs[n - 1]) {
        conflict_ids(w, tabs, n - 1).insert(tabs[n - 1].id)
    } else {
        conflict_ids(w, tabs, n - 1)
    }
}

proof fn lemma_conflict_ids(w: Workspace, tabs: Seq<TabView>, n: int, id: RequestTabId)
    requires
        0 <= n <= tabs.len(),
    ensures
        conflict_ids(w, tabs, n).contains(id) == exists|k: int|
            0 <= k < n && tabs[k].id == id && refresh_conflict(w, #[trigger] tabs[k]),
    decreases n,
{
    if n > 0 {
        lemma_conflict_ids(w, tabs, n - 1, id);
        if conflict_ids(w, tabs, n - 1).contains(id) {
            let k = choose|k: int|
                0 <= k < n - 1 && tabs[k].id == id && refresh_conflict(w, #[trigger] tabs[k]);
            assert(0 <= k < n && tabs[k].id == id && refresh_conflict(w, tabs[k]));
        }
        if refresh_conflict(w, tabs[n - 1]) && tabs[n - 1].id == id {
            assert(0 <= n - 1 < n && tabs[n - 1].id == id && refresh_conflict(w, tabs[n - 1]));
        }
    }
}

fn contains_id(v: &Vec<RequestTabId>, id: RequestTabId) -> (r: bool)
    ensures
        r == v@.contains(id),
{
    let mut k: usize = 0;
    while k < v.len()
        invariant
            0 <= k <= v@.len(),
            forall|m: int| 0 <= m < k ==> v@[m] != id,
        decreases v@.len() - k,
    {
        if v[k] == id {
            assert(v@[k as int] == id);
            return true;
        }
        k = k + 1;
    }
    false
}

fn clone_opt(o: &Option<String>) -> (r: Option<String>)
    ensures
        opt_view(r) == opt_view(*o),
{
    match o {
        Some(s) => Some(s.clone()),
        None => None,
    }
}

fn refresh_tab_at(request_tabs: &mut RequestTabs, k: usize, workspace: &Workspace) -> (conflict: bool)
    requires
        k < old(request_tabs).tabs@.len(),
    ensures
        final(request_tabs).tabs@.len() == old(request_tabs).tabs@.len(),
        final(request_tabs).active == old(request_tabs).active,
        final(request_tabs).groups == old(request_tabs).groups,
        final(request_tabs)@.tabs == old(request_tabs)@.tabs.update(
            k as int,
            refreshed_tab(*workspace, old(request_tabs)@.tabs[k as int]),
        ),
        conflict == refresh_conflict(*workspace, old(request_tabs)@.tabs[k as int]),
{
    reveal(refreshed_tab);
    reveal(refresh_conflict);
    assert(request_tabs@.tabs[k as int] == request_tabs.tabs@[k as int]@);
    let request_id = match &request_tabs.tabs[k].association.saved_request_id {
        Some(id) => id.clone(),
        None => {
            assert(request_tabs@.tabs =~= old(request_tabs)@.tabs.update(
                k as int,
                refreshed_tab(*workspace, old(request_tabs)@.tabs[k as int]),
            ));
            return false;
        },
    };
    let dirty = request_tabs.tabs[k].is_dirty();
    let previous_title = request_tabs.tabs[k].baseline_title.clone();
    let previous_template = request_tabs.tabs[k].baseline_template.clone();
    match workspace.saved_request(request_id.as_str()) {
        None => {
            assert(request_tabs@.tabs =~= old(request_tabs)@.tabs.update(
                k as int,
                refreshed_tab(*workspace, old(request_tabs)@.tabs[k as int]),
            ));
            true
        },
        Some((collection, saved_request)) => {
            let conflict = dirty && (!(previous_title == saved_request.name) || !same_template(
                &previous_template,
                &saved_request.definition,
            ));
            if !dirty {
                request_tabs.set_template_at(k, saved_request.definition.clone());
            }
            request_tabs.mark_tab_saved_at(
                k,
                previous_title.as_str(),
                saved_request.name.as_str(),
                RequestTabAssociation::new(
                    clone_opt(&saved_request.folder_id),
                    Some(collection.id.clone()),
                    Some(saved_request.id.clone()),
                ),
                saved_request.definition.clone(),
            );
            assert(request_tabs@.tabs =~= old(request_tabs)@.tabs.update(
                k as int,
                refreshed_tab(*workspace, old(request_tabs)@.tabs[k as int]),
            ));
            conflict
        },
    }
}

/// Reloads the open tabs that name saved requests after the workspace
/// changed elsewhere, repairs every tab's location, and gives back the tabs
/// whose local state conflicts with the reload (each once).
pub fn refresh_open_request_tabs(request_tabs: &mut RequestTabs, workspace: &Workspace) -> (conflicts: Vec<RequestTabId>)
    ensures
        final(request_tabs).active == old(request_tabs).active,
        final(request_tabs).groups == old(request_tabs).groups,
        final(request_tabs).tabs@.len() == old(request_tabs).tabs@.len(),
        final(request_tabs)@.tabs == old(request_tabs)@.tabs.map_values(
            |t: TabView| reconciled_tab(*workspace, refreshed_tab(*workspace, t)),
        ),
        conflicts@.no_duplicates(),
        forall|id: RequestTabId|
            conflicts@.contains(id) == exists|k: int|
                0 <= k < old(request_tabs)@.tabs.len() && old(request_tabs)@.tabs[k].id == id
                    && refresh_conflict(*workspace, #[trigger] old(request_tabs)@.tabs[k]),
{
    let ghost before = request_tabs@.tabs;
    let mut conflicts: Vec<RequestTabId> = Vec::new();
    let mut k: usize = 0;
    while k < request_tabs.tabs.len()
        invariant
            before == old(request_tabs)@.tabs,
            request_tabs@.tabs.len() == before.len(),
            request_tabs.tabs@.len() == before.len(),
            0 <= k <= before.len(),
            request_tabs.active == old(request_tabs).active,
            request_tabs.groups == old(request_tabs).groups,
            forall|m: int| 0 <= m < k ==> request_tabs@.tabs[m] == refreshed_tab(*workspace, before[m]),
            forall|m: int| k <= m < before.len() ==> request_tabs@.tabs[m] == before[m],
            conflicts@.no_duplicates(),
            conflicts@.to_set() == conflict_ids(*workspace, before, k as int),
        decreases before.len() - k,
    {
        let id = request_tabs.tabs[k].id;
        assert(before[k as int].id == id);
        let conflict = refresh_tab_at(request_tabs, k, workspace);
        if conflict && !contains_id(&conflicts, id) {
            let ghost prior = conflicts@;
            conflicts.push(id);
            proof {
                prior.lemma_push_to_set_commute(id);
            }
            assert(conflicts@.to_set() =~= conflict_ids(*workspace, before, k as int).insert(id));
        } else if conflict {
            assert(conflicts@.to_set() =~= conflict_ids(*workspace, before, k as int).insert(id));
        }
        k = k + 1;
    }
    let ghost refreshed = request_tabs@.tabs;
    assert(refreshed =~= before.map_values(|t: TabView| refreshed_tab(*workspace, t)));
    reconcile_restored_request_tabs(request_tabs, workspace, true);
    assert(request_tabs@.tabs =~= before.map_values(
        |t: TabView| reconciled_tab(*workspace, refreshed_tab(*workspace, t)),
    ));
    proof {
        assert forall|id: RequestTabId|
            conflicts@.contains(id) == exists|k: int|
                0 <= k < before.len() && before[k].id == id && refresh_conflict(
                    *workspace,
                    #[trigger] before[k],
                ) by {
            lemma_conflict_ids(*workspace, before, before.len() as int, id);
            assert(conflicts@.to_set().contains(id) == conflicts@.contains(id));
        }
    }
    conflicts
}

/// The state of the live connection to a server workspace.
#[derive(Clone, Copy, Debug, PartialEq, Eq, Structural)]
pub enum RealtimeConnectionStatus {
    Inactive,
    Connecting,
    Connected,
    Reconnecting,
    Unavailable,
}

/// The background tasks that stopping the live connection has to abort.
#[derive(Clone, Copy, Debug, PartialEq, Eq, Structural)]
pub struct RealtimeStop {
    pub abort_stream: bool,
    pub abort_refresh: bool,
}

impl ApiTester {
    /// Stops the live connection: its running tasks are to be aborted, later
    /// callbacks of both are ignored, and the connection reads inactive.
    pub fn stop_realtime(&mut self) -> (r: RealtimeStop)
        ensures
            r.abort_stream == old(self).realtime_stream_armed,
            r.abort_refresh == old(self).realtime_refresh_armed,
            *final(self) == (ApiTester {
                realtime_stream_armed: false,
                realtime_refresh_armed: false,
                realtime_generation: old(self).realtime_generation.wrapping_add(1),
                realtime_refresh_generation: old(self).realtime_refresh_generation.wrapping_add(1),
                realtime_status: RealtimeConnectionStatus::Inactive,
                ..*old(self)
            }),
    {
        let r = RealtimeStop {
            abort_stream: self.realtime_stream_armed,
            abort_refresh: self.realtime_refresh_armed,
        };
        self.realtime_stream_armed = false;
        self.realtime_refresh_armed = false;
        self.realtime_generation = self.realtime_generation.wrapping_add(1);
        self.realtime_refresh_generation = self.realtime_refresh_generation.wrapping_add(1);
        self.realtime_status = RealtimeConnectionStatus::Inactive;
        r
    }
}

/// After a reload, a tab with unsaved changes keeps its draft: its
/// definition is the one it had.
pub proof fn lemma_refresh_keeps_drafts(w: Workspace, t: TabView)
    requires
        t.dirty(),
    ensures
        reconciled_tab(w, refreshed_tab(w, t)).template == t.template,
{
    reveal(refreshed_tab);
}

/// After a reload, a clean tab of a saved request shows the saved definition
/// and name and is clean, provided the request sits in no folder, or in one
/// that the collection named by its collection's identity holds.
#[verifier::rlimit(60)]
#[verifier::spinoff_prover]
pub proof fn lemma_refresh_updates_clean_tabs(w: Workspace, t: TabView)
    requires
        !t.dirty(),
        t.association.2 is Some,
        w.locate(t.association.2->0) is Some,
        ({
            let loc = w.locate(t.association.2->0)->0;
            let c = w.collections@[loc.collection];
            let q = c.requests@[loc.request];
            q.folder_id is None || w.collections@[w.collection_position(c.id@)->0].has_folder(q.folder_id->0@)
        }),
    ensures
        ({
            let loc = w.locate(t.association.2->0)->0;
            let q = w.collections@[loc.collection].requests@[loc.request];
            let after = reconciled_tab(w, refreshed_tab(w, t));
            &&& after.template == q.definition@
            &&& after.baseline_template == q.definition@
            &&& after.baseline_title == q.name@
            &&& !after.dirty()
        }),
{
    let rid = t.association.2->0;
    let loc = w.locate(rid)->0;
    let c = w.collections@[loc.collection];
    let q = c.requests@[loc.request];
    lemma_locate_facts(w, rid);
    lemma_collection_position_of_holder(w, loc.collection);
    let r = refreshed_tab(w, t);
    assert(r == TabView {
        title: if t.title == t.baseline_title { q.name@ } else { t.title },
        template: q.definition@,
        baseline_title: q.name@,
        baseline_template: q.definition@,
        association: (opt_view(q.folder_id), Some(c.id@), Some(q.id@)),
        detached: false,
        ..t
    }) by {
        reveal(refreshed_tab);
    }
    let a = r.association;
    assert(saved_request_repair(w, a) == (a, false));
    assert(repaired_association(w, a) == (a, false)) by {
        reveal(repaired_association);
    }
}

/// After a reload, a tab whose saved request was deleted is detached and
/// reported as a conflict; its definition is kept.
pub proof fn lemma_refresh_detaches_deleted(w: Workspace, t: TabView)
    requires
        t.association.2 is Some,
        w.locate(t.association.2->0) is None,
    ensures
        refresh_conflict(w, t),
        reconciled_tab(w, refreshed_tab(w, t)).detached,
        reconciled_tab(w, refreshed_tab(w, t)).template == t.template,
{
    reveal(refreshed_tab);
    reveal(refresh_conflict);
    reveal(repaired_association);
}

proof fn lemma_locate_facts(w: Workspace, rid: Seq<char>)
    requires
        w.locate(rid) is Some,
    ensures
        ({
            let loc = w.locate(rid)->0;
            &&& 0 <= loc.collection < w.collections@.len()
            &&& 0 <= loc.request < w.collections@[loc.collection].requests@.len()
            &&& w.collections@[loc.collection].requests@[loc.request].id@ == rid
        }),
{
    let i = choose|i: int|
        0 <= i < w.collections@.len() && (#[trigger] w.collections@[i]).request_position(rid) is Some
            && forall|k: int| 0 <= k < i ==> (#[trigger] w.collections@[k]).request_position(rid) is None;
    let witness = choose|i: int|
        0 <= i < w.collections@.len() && (#[trigger] w.collections@[i]).request_position(rid) is Some;
    crate::workspace::lemma_first_collection_holding(w, rid, witness);
    let c = w.collections@[i];
    crate::workspace::lemma_request_position_facts(c, rid);
}

proof fn lemma_collection_position_of_holder(w: Workspace, i: int)
    requires
        0 <= i < w.collections@.len(),
    ensures
        w.collection_position(w.collections@[i].id@) is Some,
        w.collections@[w.collection_position(w.collections@[i].id@)->0].id@ == w.collections@[i].id@,
{
    crate::workspace::lemma_collection_position_facts(w, w.collections@[i].id@, i);
}

} // verus!
