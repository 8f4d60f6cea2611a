use vstd::multiset::Multiset;
use vstd::prelude::*;

use crate::pane_tree::{
    absent_from, active_selection, all_wf, appended, clamped, closed_at, equals, first_index,
    first_pos, first_with_id, first_with_tab, has_id, holds_tab, inserted_at, is_first,
    lemma_first_index_facts, lemma_first_index_unique, lemma_nonempty_has, lemma_nonempty_members,
    lemma_tabs_of_append, lemma_tabs_of_contains, lemma_tabs_of_nonempty, lemma_tabs_of_single,
    nonempty, normalizes_to, receiving_pane, reconciled_split_panes, retain_open, retained_pane,
    reconciled_leaf_pane, retained_panes, tabs_of, vacated, with_active_selected, with_missing, without_tab_at,
    PaneRoot, PaneView, lost_tabs, reconcile_split_changes,
};
use crate::workspace_tab::WorkspaceTab;

verus! {

broadcast use vstd::seq_lib::group_to_multiset_ensures, vstd::seq_lib::lemma_multiset_commutative,
    vstd::multiset::group_multiset_axioms;

/// Replacing one pane swaps that pane's tabs in the multiset of all tabs.
pub proof fn lemma_tabs_of_update(panes: Seq<PaneView>, k: int, q: PaneView)
    requires
        0 <= k < panes.len(),
    ensures
        tabs_of(panes.update(k, q)).to_multiset().add(panes[k].tabs.to_multiset()) == tabs_of(
            panes,
        ).to_multiset().add(q.tabs.to_multiset()),
        tabs_of(panes.update(k, q)) == tabs_of(panes.take(k)) + q.tabs + tabs_of(panes.skip(k + 1)),
        tabs_of(panes) == tabs_of(panes.take(k)) + panes[k].tabs + tabs_of(panes.skip(k + 1)),
{
    let a = panes.take(k);
    let b = panes.skip(k + 1);
    assert(panes =~= a + seq![panes[k]] + b);
    assert(panes.update(k, q) =~= a + seq![q] + b);
    lemma_tabs_of_append(a + seq![panes[k]], b);
    lemma_tabs_of_append(a, seq![panes[k]]);
    lemma_tabs_of_append(a + seq![q], b);
    lemma_tabs_of_append(a, seq![q]);
    lemma_tabs_of_single(panes[k]);
    lemma_tabs_of_single(q);
    let ta = tabs_of(a).to_multiset();
    let tb = tabs_of(b).to_multiset();
    assert(tabs_of(panes.update(k, q)).to_multiset() =~= ta.add(q.tabs.to_multiset()).add(tb));
    assert(tabs_of(panes).to_multiset() =~= ta.add(panes[k].tabs.to_multiset()).add(tb));
    assert(tabs_of(panes.update(k, q)).to_multiset().add(panes[k].tabs.to_multiset())
        =~= tabs_of(panes).to_multiset().add(q.tabs.to_multiset()));
}

/// A sequence is duplicate-free exactly when no count exceeds one.
pub proof fn lemma_no_duplicates_counts(s: Seq<WorkspaceTab>)
    ensures
        s.no_duplicates() <==> forall|x: WorkspaceTab| s.to_multiset().count(x) <= 1,
{
    if s.no_duplicates() {
        s.lemma_multiset_has_no_duplicates();
        assert forall|x: WorkspaceTab| s.to_multiset().count(x) <= 1 by {
            if s.to_multiset().contains(x) {
            }
        }
    }
    if forall|x: WorkspaceTab| s.to_multiset().count(x) <= 1 {
        assert forall|x: WorkspaceTab| s.to_multiset().contains(x) implies s.to_multiset().count(x)
            == 1 by {}
        s.lemma_multiset_has_no_duplicates_conv();
    }
}

/// A sequence whose multiset grows into that of a duplicate-free sequence is
/// duplicate-free too.
pub proof fn lemma_no_duplicates_sub(
    small: Seq<WorkspaceTab>,
    extra: Multiset<WorkspaceTab>,
    whole: Seq<WorkspaceTab>,
)
    requires
        small.to_multiset().add(extra) == whole.to_multiset(),
        whole.no_duplicates(),
    ensures
        small.no_duplicates(),
{
    lemma_no_duplicates_counts(whole);
    assert forall|x: WorkspaceTab| small.to_multiset().count(x) <= 1 by {
        assert(small.to_multiset().add(extra).count(x) == small.to_multiset().count(x) + extra.count(
            x,
        ));
    }
    lemma_no_duplicates_counts(small);
}

/// Empty panes hold no tabs, so collapsing the layout keeps every tab.
pub proof fn lemma_normalizes_keeps_tabs(was_leaf: bool, before: Seq<PaneView>, after: PaneRoot)
    requires
        normalizes_to(was_leaf, before, after),
    ensures
        tabs_of(after.panes_of()) == tabs_of(before),
        all_wf(before) ==> all_wf(after.panes_of()),
{
    lemma_tabs_of_nonempty(before);
    lemma_nonempty_members(before);
    if !was_leaf && nonempty(before).len() == 0 {
        lemma_tabs_of_single(after.panes_of()[0]);
        assert(after.panes_of() =~= seq![after.panes_of()[0]]);
        assert(tabs_of(nonempty(before)) =~= Seq::<WorkspaceTab>::empty());
        assert(after.panes_of()[0].tabs =~= Seq::<WorkspaceTab>::empty());
    }
    if all_wf(before) && !was_leaf && nonempty(before).len() > 0 {
        assert forall|i: int| 0 <= i < after.panes_of().len() implies #[trigger] after.panes_of()[i].wf() by {
            let p = nonempty(before)[i];
            assert(nonempty(before)[i].tabs.len() > 0);
            assert(before.contains(p));
            let j = choose|j: int| 0 <= j < before.len() && before[j] == p;
            assert(before[j].wf());
        }
    }
}

/// Adding an empty pane adds no tabs.
pub proof fn lemma_tabs_of_insert_empty(panes: Seq<PaneView>, i: int, p: PaneView)
    requires
        0 <= i <= panes.len(),
        p.tabs.len() == 0,
    ensures
        tabs_of(panes.insert(i, p)) == tabs_of(panes),
{
    let a = panes.take(i);
    let b = panes.skip(i);
    assert(panes =~= a + b);
    assert(panes.insert(i, p) =~= a + seq![p] + b);
    lemma_tabs_of_append(a + seq![p], b);
    lemma_tabs_of_append(a, seq![p]);
    lemma_tabs_of_append(a, b);
    lemma_tabs_of_single(p);
    assert(tabs_of(a) + p.tabs =~= tabs_of(a));
}

/// Moving a tab within a pane, or removing, closing or inserting one, leaves
/// the pane's active index in range.
pub proof fn lemma_pane_steps_wf(p: PaneView, pos: int, index: int, tab: WorkspaceTab)
    ensures
        0 <= pos < p.tabs.len() ==> without_tab_at(p, pos).wf() && closed_at(p, pos).wf(),
        p.wf() && 0 <= index <= p.tabs.len() ==> inserted_at(p, index, tab).wf(),
{
}


/// Removing the tab at `pos` takes exactly that tab out of the multiset.
pub proof fn lemma_remove_at_multiset(s: Seq<WorkspaceTab>, pos: int)
    requires
        0 <= pos < s.len(),
    ensures
        s.remove(pos).to_multiset().insert(s[pos]) == s.to_multiset(),
{
    assert(s.to_multiset().count(s[pos]) > 0) by {
        assert(s.contains(s[pos]));
    }
    assert(s.remove(pos).to_multiset().insert(s[pos]) =~= s.to_multiset());
}

/// Inserting `tab` adds exactly that tab to the multiset.
pub proof fn lemma_insert_at_multiset(s: Seq<WorkspaceTab>, pos: int, tab: WorkspaceTab)
    requires
        0 <= pos <= s.len(),
    ensures
        s.insert(pos, tab).to_multiset() == s.to_multiset().insert(tab),
{
    assert(s.insert(pos, tab).remove(pos) =~= s);
    lemma_remove_at_multiset(s.insert(pos, tab), pos);
}

/// Replacing a pane by one holding one tab fewer removes that tab overall.
pub proof fn lemma_update_removes(panes: Seq<PaneView>, k: int, q: PaneView, tab: WorkspaceTab)
    requires
        0 <= k < panes.len(),
        panes[k].tabs.to_multiset() == q.tabs.to_multiset().insert(tab),
    ensures
        tabs_of(panes.update(k, q)).to_multiset().insert(tab) == tabs_of(panes).to_multiset(),
{
    lemma_tabs_of_update(panes, k, q);
    let a = tabs_of(panes.update(k, q)).to_multiset();
    let b = tabs_of(panes).to_multiset();
    let m = q.tabs.to_multiset();
    assert forall|x: WorkspaceTab| a.insert(tab).count(x) == b.count(x) by {
        assert(a.add(m.insert(tab)).count(x) == b.add(m).count(x));
    }
    assert(a.insert(tab) =~= b);
}

/// Replacing a pane by one holding the same multiset of tabs keeps the
/// multiset of all tabs.
pub proof fn lemma_update_same(panes: Seq<PaneView>, k: int, q: PaneView)
    requires
        0 <= k < panes.len(),
        panes[k].tabs.to_multiset() == q.tabs.to_multiset(),
    ensures
        tabs_of(panes.update(k, q)).to_multiset() == tabs_of(panes).to_multiset(),
{
    lemma_tabs_of_update(panes, k, q);
    let a = tabs_of(panes.update(k, q)).to_multiset();
    let b = tabs_of(panes).to_multiset();
    let m = q.tabs.to_multiset();
    assert forall|x: WorkspaceTab| a.count(x) == b.count(x) by {
        assert(a.add(m).count(x) == b.add(m).count(x));
    }
    assert(a =~= b);
}

/// Replacing a pane by one holding one more tab adds that tab overall.
pub proof fn lemma_update_adds(panes: Seq<PaneView>, k: int, q: PaneView, tab: WorkspaceTab)
    requires
        0 <= k < panes.len(),
        q.tabs.to_multiset() == panes[k].tabs.to_multiset().insert(tab),
    ensures
        tabs_of(panes.update(k, q)).to_multiset() == tabs_of(panes).to_multiset().insert(tab),
{
    lemma_tabs_of_update(panes, k, q);
    let a = tabs_of(panes.update(k, q)).to_multiset();
    let b = tabs_of(panes).to_multiset();
    let m = panes[k].tabs.to_multiset();
    assert forall|x: WorkspaceTab| a.count(x) == b.insert(tab).count(x) by {
        assert(a.add(m).count(x) == b.add(m.insert(tab)).count(x));
    }
    assert(a =~= b.insert(tab));
}

/// In a layout without duplicate tabs, at most one pane holds a given tab.
pub proof fn lemma_unique_holder(panes: Seq<PaneView>, tab: WorkspaceTab, i: int, j: int)
    requires
        tabs_of(panes).no_duplicates(),
        0 <= i < j < panes.len(),
        panes[i].tabs.contains(tab),
    ensures
        !panes[j].tabs.contains(tab),
{
    if panes[j].tabs.contains(tab) {
        lemma_tabs_of_update(panes, j, panes[j]);
        assert(panes.update(j, panes[j]) =~= panes);
        let before = tabs_of(panes.take(j));
        lemma_tabs_of_contains(panes.take(j), tab);
        assert(panes.take(j)[i] == panes[i]);
        let a = choose|a: int| 0 <= a < before.len() && before[a] == tab;
        let b = choose|b: int| 0 <= b < panes[j].tabs.len() && panes[j].tabs[b] == tab;
        let whole = tabs_of(panes);
        assert(whole[a] == tab);
        assert(whole[before.len() + b] == tab);
        assert(false);
    }
}

/// A multiset that is equal after adding one element is the whole minus it.
pub proof fn lemma_no_duplicates_same(a: Seq<WorkspaceTab>, b: Seq<WorkspaceTab>)
    requires
        a.to_multiset() == b.to_multiset(),
        b.no_duplicates(),
    ensures
        a.no_duplicates(),
{
    assert(a.to_multiset().add(Multiset::empty()) =~= a.to_multiset());
    lemma_no_duplicates_sub(a, Multiset::empty(), b);
}


/// Keeping the open tabs of a concatenation keeps them piece by piece.
pub proof fn lemma_retain_open_append(a: Seq<WorkspaceTab>, b: Seq<WorkspaceTab>, open: Seq<WorkspaceTab>)
    ensures
        retain_open(a + b, open) == retain_open(a, open) + retain_open(b, open),
    decreases b.len(),
{
    if b.len() == 0 {
        assert(a + b =~= a);
        assert(retain_open(a, open) + retain_open(b, open) =~= retain_open(a, open));
    } else {
        lemma_retain_open_append(a, b.drop_last(), open);
        assert((a + b).drop_last() =~= a + b.drop_last());
        assert((a + b).last() == b.last());
        if open.contains(b.last()) {
            assert(retain_open(a, open) + retain_open(b, open) =~= (retain_open(a, open)
                + retain_open(b.drop_last(), open)).push(b.last()));
        }
    }
}

/// How often a tab survives: as often as before when open, never otherwise.
pub proof fn lemma_retain_open_counts(s: Seq<WorkspaceTab>, open: Seq<WorkspaceTab>)
    ensures
        forall|x: WorkspaceTab| #[trigger]
            retain_open(s, open).to_multiset().count(x) == if open.contains(x) {
                s.to_multiset().count(x)
            } else {
                0
            },
    decreases s.len(),
{
    if s.len() == 0 {
        assert(retain_open(s, open) =~= Seq::<WorkspaceTab>::empty());
        assert(s =~= Seq::<WorkspaceTab>::empty());
    } else {
        lemma_retain_open_counts(s.drop_last(), open);
        assert(s =~= s.drop_last().push(s.last()));
        assert forall|x: WorkspaceTab| #[trigger]
            retain_open(s, open).to_multiset().count(x) == if open.contains(x) {
                s.to_multiset().count(x)
            } else {
                0
            } by {
            assert(s.to_multiset() == s.drop_last().to_multiset().insert(s.last()));
            assert(retain_open(s.drop_last(), open).to_multiset().count(x) == if open.contains(x) {
                s.drop_last().to_multiset().count(x)
            } else {
                0
            });
            if open.contains(s.last()) {
                assert(retain_open(s, open).to_multiset() == retain_open(s.drop_last(), open).to_multiset().insert(s.last()));
            }
        }
    }
}

/// How often a tab is missing: as often as it is open, unless it exists.
pub proof fn lemma_absent_counts(open: Seq<WorkspaceTab>, existing: Seq<WorkspaceTab>)
    ensures
        forall|x: WorkspaceTab| #[trigger]
            absent_from(open, existing).to_multiset().count(x) == if existing.contains(x) {
                0
            } else {
                open.to_multiset().count(x)
            },
    decreases open.len(),
{
    if open.len() == 0 {
        assert(absent_from(open, existing) =~= Seq::<WorkspaceTab>::empty());
        assert(open =~= Seq::<WorkspaceTab>::empty());
    } else {
        lemma_absent_counts(open.drop_last(), existing);
        assert(open =~= open.drop_last().push(open.last()));
        assert forall|x: WorkspaceTab| #[trigger]
            absent_from(open, existing).to_multiset().count(x) == if existing.contains(x) {
                0
            } else {
                open.to_multiset().count(x)
            } by {
            assert(open.to_multiset() == open.drop_last().to_multiset().insert(open.last()));
            assert(absent_from(open.drop_last(), existing).to_multiset().count(x) == if existing.contains(x) {
                0
            } else {
                open.drop_last().to_multiset().count(x)
            });
            if !existing.contains(open.last()) {
                assert(absent_from(open, existing).to_multiset() == absent_from(open.drop_last(), existing).to_multiset().insert(open.last()));
            }
        }
    }
}

/// The tabs of the reconciled panes are the open tabs of the initial ones.
pub proof fn lemma_tabs_of_retained(panes: Seq<PaneView>, open: Seq<WorkspaceTab>)
    ensures
        tabs_of(retained_panes(panes, open)) == retain_open(tabs_of(panes), open),
        retained_panes(panes, open).len() == panes.len(),
        all_wf(retained_panes(panes, open)),
    decreases panes.len(),
{
    let r = retained_panes(panes, open);
    if panes.len() == 0 {
        assert(tabs_of(r) =~= Seq::<WorkspaceTab>::empty());
        assert(retain_open(tabs_of(panes), open) =~= Seq::<WorkspaceTab>::empty());
    } else {
        let init = panes.drop_last();
        lemma_tabs_of_retained(init, open);
        assert(r.drop_last() =~= retained_panes(init, open));
        lemma_retain_open_append(tabs_of(init), panes.last().tabs, open);
    }
    assert forall|i: int| 0 <= i < r.len() implies #[trigger] r[i].wf() by {
        assert(r[i] == retained_pane(panes[i], open));
    }
}

/// Duplicate-free exactly when every count is at most one; membership is a
/// positive count.
proof fn lemma_counts_membership(s: Seq<WorkspaceTab>)
    ensures
        forall|x: WorkspaceTab| #[trigger] s.contains(x) <==> s.to_multiset().count(x) > 0,
{
    s.to_multiset_ensures();
}

/// Reconciling a split layout leaves every open tab in exactly one pane, and
/// nothing else.
pub proof fn lemma_reconcile_split_tabs(
    initial: Seq<PaneView>,
    open: Seq<WorkspaceTab>,
    active: WorkspaceTab,
)
    requires
        tabs_of(initial).no_duplicates(),
        open.no_duplicates(),
        initial.len() > 0,
    ensures
        tabs_of(reconciled_split_panes(initial, open, active)).no_duplicates(),
        tabs_of(reconciled_split_panes(initial, open, active)).to_set() == open.to_set(),
{
    let retained = retained_panes(initial, open);
    lemma_tabs_of_retained(initial, open);
    let existing = tabs_of(retained);
    let missing = absent_from(open, existing);
    let target = receiving_pane(initial, retained, open, active);
    let placed = with_missing(initial, retained, open, active);
    lemma_retain_open_counts(tabs_of(initial), open);
    lemma_absent_counts(open, existing);
    lemma_no_duplicates_counts(tabs_of(initial));
    lemma_no_duplicates_counts(open);
    lemma_counts_membership(existing);
    lemma_counts_membership(open);
    // Newly opened tabs always find a receiving pane.
    if missing.len() > 0 {
        let v = first_index(initial, vacated(open));
        lemma_first_index_facts(initial, vacated(open));
        if v >= 0 {
            lemma_first_index_facts(retained, has_id(retained[v].id));
            assert(has_id(retained[v].id)(retained[v]));
        } else if first_with_tab(retained, active) >= 0 {
            let f = first_with_tab(retained, active);
            lemma_first_index_facts(retained, holds_tab(active));
            lemma_first_index_facts(retained, has_id(retained[f].id));
            assert(has_id(retained[f].id)(retained[f]));
        }
        assert(target >= 0);
        lemma_first_index_facts(retained, has_id(retained[v].id));
    }
    // The multiset of placed tabs is the existing ones plus the missing ones.
    assert(tabs_of(placed).to_multiset() == existing.to_multiset().add(missing.to_multiset())) by {
        if missing.len() > 0 {
            let q = appended(retained[target], missing);
            lemma_tabs_of_update(retained, target, q);
            let a = tabs_of(placed).to_multiset();
            let m = retained[target].tabs.to_multiset();
            assert(q.tabs.to_multiset() == m.add(missing.to_multiset()));
            assert forall|x: WorkspaceTab| a.count(x) == existing.to_multiset().add(missing.to_multiset()).count(x) by {
                assert(a.add(m).count(x) == existing.to_multiset().add(q.tabs.to_multiset()).count(x));
            }
            assert(a =~= existing.to_multiset().add(missing.to_multiset()));
        } else {
            assert(missing.to_multiset() =~= Multiset::empty());
            assert(existing.to_multiset().add(missing.to_multiset()) =~= existing.to_multiset());
        }
    }
    // Selecting the active tab moves no tab.
    let result = reconciled_split_panes(initial, open, active);
    assert(tabs_of(result).to_multiset() == tabs_of(placed).to_multiset()) by {
        let (k, q) = active_selection(placed, active);
        if k >= 0 && q >= 0 {
            lemma_update_same(placed, k, PaneView { active: q as nat, ..placed[k] });
        }
    }
    let t = tabs_of(result);
    lemma_counts_membership(t);
    assert forall|x: WorkspaceTab| t.to_multiset().count(x) <= 1 && (t.to_multiset().count(x) > 0 <==> open.to_multiset().count(x) > 0) by {
        assert(t.to_multiset().count(x) == existing.to_multiset().count(x) + missing.to_multiset().count(x));
        assert(existing.to_multiset().count(x) == retain_open(tabs_of(initial), open).to_multiset().count(x));
    }
    lemma_no_duplicates_counts(t);
    assert(t.to_set() =~= open.to_set()) by {
        assert forall|x: WorkspaceTab| t.to_set().contains(x) <==> open.to_set().contains(x) by {
            assert(t.contains(x) <==> t.to_multiset().count(x) > 0);
            assert(open.contains(x) <==> open.to_multiset().count(x) > 0);
        }
    }
}

/// Reconciling a split layout leaves every pane's active index in range.
pub proof fn lemma_reconcile_split_wf(initial: Seq<PaneView>, open: Seq<WorkspaceTab>, active: WorkspaceTab)
    ensures
        all_wf(reconciled_split_panes(initial, open, active)),
{
    let retained = retained_panes(initial, open);
    lemma_tabs_of_retained(initial, open);
    let placed = with_missing(initial, retained, open, active);
    let target = receiving_pane(initial, retained, open, active);
    let missing = absent_from(open, tabs_of(retained));
    assert(all_wf(placed)) by {
        assert forall|i: int| 0 <= i < placed.len() implies #[trigger] placed[i].wf() by {
            if missing.len() > 0 && target >= 0 && i == target {
                assert(retained[i].wf());
            } else {
                assert(placed[i] == retained[i]);
            }
        }
    }
    let (k, q) = active_selection(placed, active);
    if k >= 0 && q >= 0 {
        lemma_first_index_facts(placed[k].tabs, equals(active));
        let result = reconciled_split_panes(initial, open, active);
        assert forall|i: int| 0 <= i < result.len() implies #[trigger] result[i].wf() by {
            if i != k {
                assert(result[i] == placed[i]);
            }
        }
    }
}

/// Pane identities are pairwise distinct.
pub open spec fn ids_unique(panes: Seq<PaneView>) -> bool {
    forall|i: int, j: int| 0 <= i < panes.len() && 0 <= j < panes.len() && i != j ==> panes[i].id != panes[j].id
}

/// With distinct pane identities, reconciling selects the active tab in the
/// pane that holds it.
pub proof fn lemma_reconcile_split_selects_active(
    initial: Seq<PaneView>,
    open: Seq<WorkspaceTab>,
    active: WorkspaceTab,
)
    requires
        tabs_of(initial).no_duplicates(),
        open.no_duplicates(),
        initial.len() > 0,
        ids_unique(initial),
        open.contains(active),
    ensures
        exists|i: int| 0 <= i < reconciled_split_panes(initial, open, active).len()
            && #[trigger] reconciled_split_panes(initial, open, active)[i].active_tab() == Some(active),
{
    lemma_reconcile_split_tabs(initial, open, active);
    let retained = retained_panes(initial, open);
    lemma_tabs_of_retained(initial, open);
    let placed = with_missing(initial, retained, open, active);
    let result = reconciled_split_panes(initial, open, active);
    assert(tabs_of(result).to_set().contains(active));
    assert(placed.len() == initial.len());
    assert forall|i: int| 0 <= i < placed.len() implies #[trigger] placed[i].id == initial[i].id by {
        assert(retained[i].id == initial[i].id);
    }
    // The selection does not move tabs, so the placed tabs hold the active one.
    let (k, q) = active_selection(placed, active);
    assert(tabs_of(placed).contains(active)) by {
        if k >= 0 && q >= 0 {
            lemma_update_same(placed, k, PaneView { active: q as nat, ..placed[k] });
        }
        tabs_of(result).to_multiset_ensures();
        tabs_of(placed).to_multiset_ensures();
        assert(tabs_of(result).contains(active));
        assert(tabs_of(result).to_multiset().count(active) > 0);
    }
    lemma_tabs_of_contains(placed, active);
    let f = first_with_tab(placed, active);
    lemma_first_index_facts(placed, holds_tab(active));
    assert(holds_tab(active)(placed[f]));
    assert(is_first(placed, has_id(placed[f].id), f)) by {
        assert forall|j: int| 0 <= j < f implies !has_id(placed[f].id)(placed[j]) by {
            assert(placed[j].id == initial[j].id);
        }
    }
    lemma_first_index_unique(placed, has_id(placed[f].id), f);
    lemma_first_index_facts(placed[f].tabs, equals(active));
    let c = choose|c: int| 0 <= c < placed[f].tabs.len() && placed[f].tabs[c] == active;
    assert(equals(active)(placed[f].tabs[c]));
    assert(k == f && q >= 0);
    assert(equals(active)(placed[f].tabs[q]));
    assert(result[f].active_tab() == Some(active));
}


/// The laws of reconciling a split layout, carried through the removal of
/// empty panes.
pub proof fn lemma_reconcile_split_result(
    initial: Seq<PaneView>,
    open: Seq<WorkspaceTab>,
    active: WorkspaceTab,
    collapsed: bool,
    result: PaneRoot,
)
    requires
        collapsed ==> normalizes_to(false, reconciled_split_panes(initial, open, active), result),
        !collapsed ==> result.panes_of() == reconciled_split_panes(initial, open, active),
    ensures
        all_wf(result.panes_of()),
        open.no_duplicates() && tabs_of(initial).no_duplicates() && initial.len() > 0 ==> {
            &&& tabs_of(result.panes_of()).no_duplicates()
            &&& tabs_of(result.panes_of()).to_set() == open.to_set()
        },
        open.no_duplicates() && tabs_of(initial).no_duplicates() && initial.len() > 0
            && ids_unique(initial) && open.contains(active) ==> exists|i: int|
            0 <= i < result.panes_of().len() && #[trigger] result.panes_of()[i].active_tab() == Some(
                active,
            ),
{
    let next = reconciled_split_panes(initial, open, active);
    lemma_reconcile_split_wf(initial, open, active);
    if collapsed {
        lemma_normalizes_keeps_tabs(false, next, result);
    }
    if open.no_duplicates() && tabs_of(initial).no_duplicates() && initial.len() > 0 {
        lemma_reconcile_split_tabs(initial, open, active);
        if ids_unique(initial) && open.contains(active) {
            lemma_reconcile_split_selects_active(initial, open, active);
            let i = choose|i: int| 0 <= i < next.len() && #[trigger] next[i].active_tab() == Some(active);
            if collapsed {
                assert(next[i].tabs.len() > 0);
                lemma_nonempty_has(next, i);
                let j = choose|j: int| 0 <= j < nonempty(next).len() && nonempty(next)[j] == next[i];
                assert(result.panes_of()[j].active_tab() == Some(active));
            } else {
                assert(result.panes_of()[i].active_tab() == Some(active));
            }
        }
    }
}


/// The laws of reconciling a single pane: it holds exactly the open tabs.
pub proof fn lemma_reconcile_leaf_result(
    pane: PaneView,
    open: Seq<WorkspaceTab>,
    active: WorkspaceTab,
    changed: bool,
    result: PaneRoot,
)
    requires
        changed == (reconciled_leaf_pane(pane, open, active) != pane),
        result.panes_of() == if changed {
            seq![reconciled_leaf_pane(pane, open, active)]
        } else {
            seq![pane]
        },
    ensures
        all_wf(result.panes_of()),
        open.no_duplicates() ==> {
            &&& tabs_of(result.panes_of()).no_duplicates()
            &&& tabs_of(result.panes_of()).to_set() == open.to_set()
        },
        open.contains(active) ==> exists|i: int|
            0 <= i < result.panes_of().len() && #[trigger] result.panes_of()[i].active_tab() == Some(
                active,
            ),
{
    let next = reconciled_leaf_pane(pane, open, active);
    lemma_first_index_facts(open, equals(active));
    assert(result.panes_of() == seq![next]);
    lemma_tabs_of_single(next);
    assert(next.wf());
    if open.contains(active) {
        let c = choose|c: int| 0 <= c < open.len() && open[c] == active;
        assert(equals(active)(open[c]));
        assert(result.panes_of()[0].active_tab() == Some(active));
    }
}

proof fn lemma_retain_open_len(tabs: Seq<WorkspaceTab>, open: Seq<WorkspaceTab>)
    ensures
        retain_open(tabs, open).len() <= tabs.len(),
    decreases tabs.len(),
{
    if tabs.len() > 0 {
        lemma_retain_open_len(tabs.drop_last(), open);
    }
}

proof fn lemma_retain_open_all(tabs: Seq<WorkspaceTab>, open: Seq<WorkspaceTab>)
    requires
        retain_open(tabs, open).len() == tabs.len(),
    ensures
        retain_open(tabs, open) == tabs,
    decreases tabs.len(),
{
    if tabs.len() > 0 {
        lemma_retain_open_len(tabs.drop_last(), open);
        lemma_retain_open_all(tabs.drop_last(), open);
        assert(tabs.drop_last().push(tabs.last()) =~= tabs);
    }
}

/// A pane that keeps all its tabs, holds none twice and is well formed is
/// its own retained pane.
proof fn lemma_retained_pane_same(p: PaneView, open: Seq<WorkspaceTab>)
    requires
        p.wf(),
        p.tabs.no_duplicates(),
        retain_open(p.tabs, open).len() == p.tabs.len(),
    ensures
        retained_pane(p, open) == p,
{
    lemma_retain_open_all(p.tabs, open);
    if p.active < p.tabs.len() {
        let t = p.tabs[p.active as int];
        assert(is_first(p.tabs, equals(t), p.active as int));
        lemma_first_index_unique(p.tabs, equals(t), p.active as int);
    }
}

/// Each pane's tabs are part of the tabs of all panes, so a duplicate-free
/// whole has duplicate-free panes.
proof fn lemma_pane_no_duplicates(panes: Seq<PaneView>, k: int)
    requires
        0 <= k < panes.len(),
        tabs_of(panes).no_duplicates(),
    ensures
        panes[k].tabs.no_duplicates(),
{
    lemma_tabs_of_update(panes, k, panes[k]);
    let a = tabs_of(panes.take(k));
    let whole = tabs_of(panes);
    let b = panes[k].tabs;
    assert forall|i: int, j: int| 0 <= i < b.len() && 0 <= j < b.len() && i != j implies b[i] != b[j] by {
        assert(whole[a.len() + i] == b[i]);
        assert(whole[a.len() + j] == b[j]);
    }
}

/// Reconciling a split layout that reports no change leaves every pane as
/// it was: no pane lost a tab, and the panes, their tabs and their active
/// tabs come out unchanged.
pub proof fn lemma_reconcile_unchanged_when_false(
    initial: Seq<PaneView>,
    open: Seq<WorkspaceTab>,
    active: WorkspaceTab,
)
    requires
        all_wf(initial),
        tabs_of(initial).no_duplicates(),
        !reconcile_split_changes(initial, open, active),
    ensures
        first_index(initial, lost_tabs(open)) < 0,
        reconciled_split_panes(initial, open, active) == initial,
{
    lemma_first_index_facts(initial, lost_tabs(open));
    assert forall|i: int| 0 <= i < initial.len() implies #[trigger] retained_panes(initial, open)[i] == initial[i] by {
        assert(!lost_tabs(open)(initial[i]));
        assert(initial[i].wf());
        lemma_pane_no_duplicates(initial, i);
        lemma_retained_pane_same(initial[i], open);
    }
    assert(retained_panes(initial, open) =~= initial);
    let placed = with_missing(initial, retained_panes(initial, open), open, active);
    assert(placed == initial);
    let (k, q) = active_selection(placed, active);
    if k >= 0 && q >= 0 {
        assert(placed.update(k, PaneView { active: q as nat, ..placed[k] }) =~= placed);
    }
}

/// Two duplicate-free sequences with the same elements are permutations of
/// each other.
pub proof fn lemma_same_set_same_multiset(a: Seq<WorkspaceTab>, b: Seq<WorkspaceTab>)
    requires
        a.no_duplicates(),
        b.no_duplicates(),
        a.to_set() == b.to_set(),
    ensures
        a.to_multiset() == b.to_multiset(),
{
    lemma_no_duplicates_counts(a);
    lemma_no_duplicates_counts(b);
    assert forall|x: WorkspaceTab| a.to_multiset().count(x) == b.to_multiset().count(x) by {
        assert(a.to_set().contains(x) == a.contains(x));
        assert(b.to_set().contains(x) == b.contains(x));
        if a.contains(x) {
            assert(a.to_multiset().count(x) > 0);
            assert(b.to_multiset().count(x) > 0);
        } else {
            assert(a.to_multiset().count(x) == 0);
            assert(b.to_multiset().count(x) == 0);
        }
    }
    assert(a.to_multiset() =~= b.to_multiset());
}

/// Reconciling a split layout keeps every pane, in place and with its
/// identity, and keeps the tabs each pane still has open in their old
/// relative order, ahead of any tab newly placed there.
pub proof fn lemma_reconciled_split_keeps_order(initial: Seq<PaneView>, open: Seq<WorkspaceTab>, active: WorkspaceTab)
    ensures
        reconciled_split_panes(initial, open, active).len() == initial.len(),
        forall|i: int|
            0 <= i < initial.len() ==> {
                let kept = retain_open(initial[i].tabs, open);
                &&& (#[trigger] reconciled_split_panes(initial, open, active)[i]).id == initial[i].id
                &&& reconciled_split_panes(initial, open, active)[i].tabs.len() >= kept.len()
                &&& reconciled_split_panes(initial, open, active)[i].tabs.take(kept.len() as int) == kept
            },
{
    let retained = retained_panes(initial, open);
    let placed = with_missing(initial, retained, open, active);
    let missing = absent_from(open, tabs_of(retained));
    let target = receiving_pane(initial, retained, open, active);
    assert forall|i: int| 0 <= i < initial.len() implies {
        let kept = retain_open(initial[i].tabs, open);
        &&& (#[trigger] reconciled_split_panes(initial, open, active)[i]).id == initial[i].id
        &&& reconciled_split_panes(initial, open, active)[i].tabs.len() >= kept.len()
        &&& reconciled_split_panes(initial, open, active)[i].tabs.take(kept.len() as int) == kept
    } by {
        let kept = retain_open(initial[i].tabs, open);
        assert(retained[i].tabs == kept);
        if missing.len() > 0 && target >= 0 && i == target {
            assert(placed[i].tabs == kept + missing);
            assert((kept + missing).take(kept.len() as int) =~= kept);
        } else {
            assert(placed[i] == retained[i]);
            assert(kept.take(kept.len() as int) =~= kept);
        }
        let (k, q) = active_selection(placed, active);
        assert(reconciled_split_panes(initial, open, active)[i].tabs == placed[i].tabs);
        assert(reconciled_split_panes(initial, open, active)[i].id == placed[i].id);
    }
}

} // verus!
