use vstd::prelude::*;

use crate::request_model::same_template;
use crate::request_tabs::{
    AssociationView, RequestTabAssociation, RequestTabs, TabView,
};
use crate::text::owned;
use crate::workspace::{Workspace, opt_view};
use crate::workspace_tab::RequestTabId;

verus! {

/// The first step of a repair: a tab that names a saved request follows it to
/// the collection and folder that now hold it; when the request is gone, the
/// tab keeps its place, forgets the request, and is detached.
pub open spec fn saved_request_repair(w: Workspace, a: AssociationView) -> (AssociationView, bool) {
    match a.2 {
        Some(rid) => match w.locate(rid) {
            Some(loc) => (
                (
                    opt_view(w.collections@[loc.collection].requests@[loc.request].folder_id),
                    Some(w.collections@[loc.collection].id@),
                    Some(rid),
                ),
                false,
            ),
            None => ((a.0, a.1, None), true),
        },
        None => (a, false),
    }
}

/// Where a restored tab belongs once it is checked against the workspace,
/// and whether it has to be detached: a folder without a collection, or a
/// collection that is gone, leaves the tab nowhere; a folder that its
/// collection no longer holds leaves the tab at the collection's root.
#[verifier::opaque]
pub open spec fn repaired_association(w: Workspace, a: AssociationView) -> (AssociationView, bool) {
    let (b, d) = saved_request_repair(w, a);
    match b.1 {
        None => if b.0 is Some {
            ((None, None, None), true)
        } else {
            (b, d)
        },
        Some(cid) => match w.collection_position(cid) {
            None => ((None, None, None), true),
            Some(ci) => if b.0 is Some && !w.collections@[ci].has_folder(b.0->0) {
                ((None, Some(cid), None), true)
            } else {
                (b, d)
            },
        },
    }
}

/// A tab after its association is repaired.
pub open spec fn reconciled_tab(w: Workspace, t: TabView) -> TabView {
    let (a, d) = repaired_association(w, t.association);
    TabView { association: a, detached: t.detached || d, ..t }
}

/// The repair changes the tab.
pub open spec fn repair_changes(w: Workspace, t: TabView) -> bool {
    let (a, d) = repaired_association(w, t.association);
    a != t.association || (d && !t.detached)
}

/// Some tab among the first `n` is changed by the repair.
pub open spec fn some_repair(w: Workspace, tabs: Seq<TabView>, n: int) -> bool
    decreases n,
{
    if n <= 0 {
        false
    } else {
        some_repair(w, tabs, n - 1) || repair_changes(w, tabs[n - 1])
    }
}

proof fn lemma_some_repair(w: Workspace, tabs: Seq<TabView>, n: int)
    requires
        0 <= n <= tabs.len(),
    ensures
        some_repair(w, tabs, n) == exists|k: int| 0 <= k < n && repair_changes(w, #[trigger] tabs[k]),
    decreases n,
{
    if n > 0 {
        lemma_some_repair(w, tabs, n - 1);
        if some_repair(w, tabs, n - 1) {
            let k = choose|k: int| 0 <= k < n - 1 && repair_changes(w, #[trigger] tabs[k]);
            assert(0 <= k < n && repair_changes(w, tabs[k]));
        }
        if repair_changes(w, tabs[n - 1]) {
            assert(0 <= n - 1 < n && repair_changes(w, tabs[n - 1]));
        }
    }
}

fn clone_opt(o: &Option<String>) -> (r: Option<String>)
    ensures
        opt_view(r) == opt_view(*o),
{
    match o {
        Some(s) => Some(s.clone()),
        None => None,
    }
}

fn repair(a: &RequestTabAssociation, w: &Workspace) -> (r: (RequestTabAssociation, bool))
    ensures
        (r.0@, r.1) == repaired_association(*w, a@),
{
    reveal(repaired_association);
    let mut repaired = a.clone();
    let mut mark = false;
    if let Some(rid) = a.saved_request_id() {
        match w.saved_request(rid) {
            Some((collection, request)) => {
                repaired = RequestTabAssociation::new(
                    clone_opt(&request.folder_id),
                    Some(collection.id.clone()),
                    Some(owned(rid)),
                );
            },
            None => {
                repaired = RequestTabAssociation::new(
                    clone_opt(&a.folder_id),
                    clone_opt(&a.collection_id),
                    None,
                );
                mark = true;
            },
        }
    }
    assert((repaired@, mark) == saved_request_repair(*w, a@));
    let collection_id = clone_opt(&repaired.collection_id);
    let has_folder = repaired.folder_id.is_some();
    match collection_id {
        None => {
            if has_folder {
                repaired = RequestTabAssociation::default();
                mark = true;
            }
        },
        Some(cid) => match w.collection(cid.as_str()) {
            None => {
                repaired = RequestTabAssociation::default();
                mark = true;
            },
            Some(collection) => {
                let missing = match &repaired.folder_id {
                    Some(folder) => collection.folder(folder.as_str()).is_none(),
                    None => false,
                };
                if missing {
                    repaired = RequestTabAssociation::new(None, Some(cid), None);
                    mark = true;
                }
            },
        },
    }
    (repaired, mark)
}

/// Repairs the locations of restored tabs against a workspace that was
/// loaded safely, and reports whether any tab changed. Against a workspace
/// that is not trusted nothing is touched.
#[verifier::rlimit(40)]
pub fn reconcile_restored_request_tabs(request_tabs: &mut RequestTabs, workspace: &Workspace, workspace_trusted: bool) -> (changed: bool)
    ensures
        !workspace_trusted ==> !changed && *final(request_tabs) == *old(request_tabs),
        workspace_trusted ==> {
            &&& final(request_tabs).active == old(request_tabs).active
            &&& final(request_tabs).groups == old(request_tabs).groups
            &&& final(request_tabs)@.tabs == old(request_tabs)@.tabs.map_values(
                |t: TabView| reconciled_tab(*workspace, t),
            )
            &&& changed == exists|k: int|
                0 <= k < old(request_tabs)@.tabs.len() && repair_changes(
                    *workspace,
                    #[trigger] old(request_tabs)@.tabs[k],
                )
        },
{
    if !workspace_trusted {
        return false;
    }
    let ghost before = request_tabs@.tabs;
    let mut changed = false;
    let mut k: usize = 0;
    while k < request_tabs.tabs.len()
        invariant
            before == old(request_tabs)@.tabs,
            request_tabs@.tabs.len() == before.len(),
            request_tabs.tabs@.len() == before.len(),
            0 <= k <= before.len(),
            request_tabs.active == old(request_tabs).active,
            request_tabs.groups == old(request_tabs).groups,
            forall|m: int| 0 <= m < k ==> request_tabs@.tabs[m] == reconciled_tab(*workspace, before[m]),
            forall|m: int| k <= m < before.len() ==> request_tabs@.tabs[m] == before[m],
            changed == some_repair(*workspace, before, k as int),
        decreases before.len() - k,
    {
        assert(request_tabs@.tabs[k as int] == request_tabs.tabs@[k as int]@);
        let (repaired, mark) = repair(&request_tabs.tabs[k].association, workspace);
        let here = request_tabs.repair_association_at(k, repaired, mark);
        proof {
            assert(repair_changes(*workspace, before[k as int]) == here);
            assert(request_tabs@.tabs[k as int] == reconciled_tab(*workspace, before[k as int]));
        }
        changed = changed || here;
        k = k + 1;
    }
    assert(request_tabs@.tabs =~= before.map_values(|t: TabView| reconciled_tab(*workspace, t)));
    proof {
        lemma_some_repair(*workspace, before, before.len() as int);
    }
    changed
}

/// A restored tab whose saved request is in the workspace moves to where
/// that request lives: the request's collection, the request's folder (none
/// when it sits at the collection's root), and the same saved request; it
/// is not detached. The request and its collection are taken to be the only
/// ones with their identifiers, and the request's folder to be held by its
/// collection.
pub proof fn lemma_repair_follows_saved_request(w: Workspace, a: AssociationView, ci: int, j: int)
    requires
        0 <= ci < w.collections@.len(),
        0 <= j < w.collections@[ci].requests@.len(),
        a.2 == Some(w.collections@[ci].requests@[j].id@),
        forall|c: int, r: int|
            0 <= c < w.collections@.len() && 0 <= r < w.collections@[c].requests@.len()
                && (#[trigger] w.collections@[c].requests@[r]).id@ == a.2->0 ==> c == ci && r == j,
        forall|c: int|
            0 <= c < w.collections@.len() && (#[trigger] w.collections@[c]).id@ == w.collections@[ci].id@ ==> c == ci,
        w.collections@[ci].requests@[j].folder_id is Some ==> w.collections@[ci].has_folder(
            w.collections@[ci].requests@[j].folder_id->0@,
        ),
    ensures
        repaired_association(w, a) == (
            (
                opt_view(w.collections@[ci].requests@[j].folder_id),
                Some(w.collections@[ci].id@),
                a.2,
            ),
            false,
        ),
{
    reveal(repaired_association);
    let rid = a.2->0;
    let c = w.collections@[ci];
    assert(c.requests@[j].id@ == rid);
    assert(c.request_position(rid) is Some);
    let p = c.request_position(rid)->0;
    assert(0 <= p < c.requests@.len() && c.requests@[p].id@ == rid);
    assert(p == j);
    assert(w.collections@[ci].request_position(rid) is Some);
    let loc = w.locate(rid);
    assert(loc is Some);
    let li = loc->0.collection;
    assert(0 <= li < w.collections@.len() && w.collections@[li].request_position(rid) is Some);
    let q = w.collections@[li].request_position(rid)->0;
    assert(0 <= q < w.collections@[li].requests@.len() && w.collections@[li].requests@[q].id@ == rid);
    assert(li == ci && q == j);
    assert(w.collection_position(c.id@) is Some);
    let cp = w.collection_position(c.id@)->0;
    assert(0 <= cp < w.collections@.len() && w.collections@[cp].id@ == c.id@);
    assert(cp == ci);
}

/// Some collection of the workspace holds a saved request with this identifier.
pub open spec fn holds_request(w: Workspace, rid: Seq<char>) -> bool {
    exists|c: int, q: int|
        0 <= c < w.collections@.len() && 0 <= q < w.collections@[c].requests@.len()
            && (#[trigger] w.collections@[c].requests@[q]).id@ == rid
}

proof fn lemma_locate_iff_held(w: Workspace, rid: Seq<char>)
    ensures
        w.locate(rid) is Some <==> holds_request(w, rid),
{
    if exists|i: int| 0 <= i < w.collections@.len() && (#[trigger] w.collections@[i]).request_position(rid) is Some {
        let i = choose|i: int| 0 <= i < w.collections@.len() && (#[trigger] w.collections@[i]).request_position(rid) is Some;
        let c = w.collections@[i];
        assert(exists|j: int| 0 <= j < c.requests@.len() && (#[trigger] c.requests@[j]).id@ == rid);
        let j = choose|j: int| 0 <= j < c.requests@.len() && (#[trigger] c.requests@[j]).id@ == rid;
        assert(w.collections@[i].requests@[j].id@ == rid);
        assert(holds_request(w, rid));
        assert(w.locate(rid) is Some);
    } else {
        assert(w.locate(rid) is None);
        if holds_request(w, rid) {
            let (c, q) = choose|c: int, q: int|
                0 <= c < w.collections@.len() && 0 <= q < w.collections@[c].requests@.len()
                    && (#[trigger] w.collections@[c].requests@[q]).id@ == rid;
            let col = w.collections@[c];
            assert(col.requests@[q].id@ == rid);
            assert(col.request_position(rid) is Some);
            assert(false);
        }
    }
}

/// A repaired association only points at what the workspace holds: its
/// collection is one of the workspace's, its folder is held by that
/// collection (and comes with a collection), and its saved request is one of
/// the workspace's. A tab whose saved request is nowhere in the workspace
/// forgets it and is detached.
#[verifier::spinoff_prover]
pub proof fn lemma_repaired_association_is_held(w: Workspace, a: AssociationView)
    ensures
        ({
            let (r, d) = repaired_association(w, a);
            &&& r.1 is Some ==> w.collection_position(r.1->0) is Some
            &&& r.0 is Some ==> r.1 is Some && w.collections@[w.collection_position(r.1->0)->0].has_folder(r.0->0)
            &&& r.2 is Some ==> holds_request(w, r.2->0)
            &&& (a.2 is Some && !holds_request(w, a.2->0)) ==> r.2 is None && d
        }),
{
    reveal(repaired_association);
    let (b, e) = saved_request_repair(w, a);
    lemma_saved_request_repair_held(w, a);
    let (r, d) = repaired_association(w, a);
    match b.1 {
        None => {},
        Some(cid) => {
            if w.collection_position(cid) is Some {
                let ci = w.collection_position(cid)->0;
                if b.0 is Some && !w.collections@[ci].has_folder(b.0->0) {
                    assert(r == (None::<Seq<char>>, Some(cid), None::<Seq<char>>));
                } else {
                    assert(r == b && d == e);
                }
            }
        },
    }
}

proof fn lemma_saved_request_repair_held(w: Workspace, a: AssociationView)
    ensures
        ({
            let (b, e) = saved_request_repair(w, a);
            &&& b.2 is Some ==> holds_request(w, b.2->0)
            &&& (a.2 is Some && !holds_request(w, a.2->0)) ==> b.2 is None && e
        }),
{
    if a.2 is Some {
        lemma_locate_iff_held(w, a.2->0);
    }
}

/// Repairing a tab that was already repaired changes nothing: one pass
/// settles every association.
pub proof fn lemma_repair_settles(w: Workspace, t: TabView)
    ensures
        reconciled_tab(w, reconciled_tab(w, t)) == reconciled_tab(w, t),
        !repair_changes(w, reconciled_tab(w, t)),
{
    reveal(repaired_association);
    let a = t.association;
    let (b, d) = saved_request_repair(w, a);
    let (r, e) = repaired_association(w, a);
    assert(saved_request_repair(w, r) == (r, false));
    assert(repaired_association(w, r) == (r, false));
}

/// Reconciling the same tabs against the same workspace a second time
/// changes nothing and reports no change.
pub proof fn lemma_reconcile_twice(w: Workspace, tabs: Seq<TabView>)
    ensures
        tabs.map_values(|t: TabView| reconciled_tab(w, t)).map_values(|t: TabView| reconciled_tab(w, t))
            == tabs.map_values(|t: TabView| reconciled_tab(w, t)),
        !some_repair(w, tabs.map_values(|t: TabView| reconciled_tab(w, t)), tabs.len() as int),
{
    let once = tabs.map_values(|t: TabView| reconciled_tab(w, t));
    assert forall|k: int| 0 <= k < tabs.len() implies #[trigger] reconciled_tab(w, once[k]) == once[k]
        && !repair_changes(w, once[k]) by {
        lemma_repair_settles(w, tabs[k]);
    }
    assert(once.map_values(|t: TabView| reconciled_tab(w, t)) =~= once);
    lemma_some_repair(w, once, tabs.len() as int);
    if some_repair(w, once, tabs.len() as int) {
        let k = choose|k: int| 0 <= k < tabs.len() && repair_changes(w, #[trigger] once[k]);
        assert(!repair_changes(w, once[k]));
    }
}

} // verus!
