use vstd::multiset::Multiset;
use vstd::prelude::*;

use crate::ids::random_u64;
use crate::pane_laws::{
    lemma_insert_at_multiset, lemma_no_duplicates_same, lemma_no_duplicates_sub,
    lemma_normalizes_keeps_tabs, lemma_pane_steps_wf, lemma_remove_at_multiset, lemma_tabs_of_insert_empty,
    lemma_tabs_of_update, lemma_unique_holder, lemma_update_adds, lemma_update_removes,
    lemma_update_same, ids_unique,
};
use crate::workspace_tab::WorkspaceTab;

verus! {

/// Identity for one pane in the split layout.
#[derive(Clone, Copy, Debug, PartialEq, Eq, Structural, PartialOrd, Ord, Hash)]
pub struct PaneId(pub u64);

impl PaneId {
    /// A new pane identity drawn from the process's random source.
    pub fn new() -> PaneId {
        PaneId(random_u64())
    }
}

/// Orientation of a split container.
#[derive(Clone, Copy, Debug, PartialEq, Eq, Structural)]
pub enum SplitDirection {
    Horizontal,
    Vertical,
}

/// A workspace tab identity held by a pane.
#[derive(Clone, Copy, Debug, PartialEq, Eq, Structural)]
pub struct PaneTab {
    tab: WorkspaceTab,
}

/// A leaf pane that owns an ordered list of tabs plus its own active tab.
#[derive(Clone, Debug)]
pub struct Pane {
    id: PaneId,
    tabs: Vec<PaneTab>,
    active_index: usize,
}

/// A split container holding two or more child pane roots.
#[derive(Debug)]
pub struct Split {
    pub direction: SplitDirection,
    pub children: Vec<PaneRoot>,
}

/// The hierarchical pane layout used for the workspace.
///
/// `Leaf` is the common single-pane case; `Split` holds the children of a
/// horizontal or vertical split. Every tab lives in exactly one pane.
#[derive(Debug)]
pub enum PaneRoot {
    Leaf(Pane),
    Split(Box<Split>),
}

/// Errors reported by pane-tree mutations.
#[derive(Clone, Copy, Debug, PartialEq, Eq, Structural)]
pub enum PaneError {
    PaneNotFound,
}

/// What a pane holds: its identity, its tabs in order, and its active index.
pub struct PaneView {
    pub id: PaneId,
    pub tabs: Seq<WorkspaceTab>,
    pub active: nat,
}

impl PaneView {
    /// The active index names one of the tabs, or is zero when there are none.
    pub open spec fn wf(self) -> bool {
        if self.tabs.len() == 0 {
            self.active == 0
        } else {
            self.active < self.tabs.len()
        }
    }

    pub open spec fn active_tab(self) -> Option<WorkspaceTab> {
        if self.active < self.tabs.len() {
            Some(self.tabs[self.active as int])
        } else {
            None
        }
    }
}

impl View for Pane {
    type V = PaneView;

    closed spec fn view(&self) -> PaneView {
        PaneView {
            id: self.id,
            tabs: self.tabs@.map_values(|entry: PaneTab| entry.tab),
            active: self.active_index as nat,
        }
    }
}

/// Inserting or activating a tab: a pane holding it keeps its tabs and
/// selects the first occurrence; any other pane gets it appended and
/// selected. The identity stays and the result is well formed.
pub open spec fn activates(before: PaneView, tab: WorkspaceTab, after: PaneView) -> bool {
    &&& after.id == before.id
    &&& if before.tabs.contains(tab) {
        &&& after.tabs == before.tabs
        &&& after.tabs[after.active as int] == tab
        &&& forall|j: int| 0 <= j < after.active ==> before.tabs[j] != tab
    } else {
        &&& after.tabs == before.tabs.push(tab)
        &&& after.active == before.tabs.len()
    }
    &&& after.wf()
}

/// Inserting or activating the same tab a second time changes nothing, and
/// either way the tab ends up active.
pub proof fn lemma_insert_or_activate_twice(p: PaneView, tab: WorkspaceTab, q: PaneView, r: PaneView)
    requires
        activates(p, tab, q),
        activates(q, tab, r),
    ensures
        r == q,
        q.active_tab() == Some(tab),
{
    if !p.tabs.contains(tab) {
        assert(q.tabs[p.tabs.len() as int] == tab);
        assert forall|j: int| 0 <= j < q.active implies q.tabs[j] != tab by {
            assert(q.tabs[j] == p.tabs[j]);
        }
    }
    assert(q.tabs.contains(tab)) by {
        assert(q.tabs[q.active as int] == tab);
    }
    if r.active < q.active {
        assert(q.tabs[r.active as int] != tab);
    }
    if q.active < r.active {
        assert(q.tabs[q.active as int] != tab);
    }
    assert(r.active == q.active);
}

/// The tabs of a sequence of panes, pane after pane.
pub open spec fn tabs_of(panes: Seq<PaneView>) -> Seq<WorkspaceTab>
    decreases panes.len(),
{
    if panes.len() == 0 {
        Seq::empty()
    } else {
        tabs_of(panes.drop_last()) + panes.last().tabs
    }
}

/// Index of the first pane satisfying `pred`, or -1 when there is none.
pub open spec fn first_index<A>(panes: Seq<A>, pred: spec_fn(A) -> bool) -> int {
    if exists|k: int| is_first(panes, pred, k) {
        choose|k: int| is_first(panes, pred, k)
    } else {
        -1
    }
}

pub open spec fn is_first<A>(panes: Seq<A>, pred: spec_fn(A) -> bool, k: int) -> bool {
    &&& 0 <= k < panes.len()
    &&& pred(panes[k])
    &&& forall|j: int| 0 <= j < k ==> !pred(panes[j])
}

pub open spec fn has_id(id: PaneId) -> spec_fn(PaneView) -> bool {
    |pane: PaneView| pane.id == id
}

pub open spec fn holds_tab(tab: WorkspaceTab) -> spec_fn(PaneView) -> bool {
    |pane: PaneView| pane.tabs.contains(tab)
}

pub open spec fn equals(tab: WorkspaceTab) -> spec_fn(WorkspaceTab) -> bool {
    |other: WorkspaceTab| other == tab
}

/// Position of the first occurrence of `tab`, or -1 when there is none.
pub open spec fn first_pos(tabs: Seq<WorkspaceTab>, tab: WorkspaceTab) -> int {
    first_index(tabs, equals(tab))
}

/// Index of the first pane with identity `id`, or -1 when there is none.
pub open spec fn first_with_id(panes: Seq<PaneView>, id: PaneId) -> int {
    first_index(panes, has_id(id))
}

/// Index of the first pane holding `tab`, or -1 when there is none.
pub open spec fn first_with_tab(panes: Seq<PaneView>, tab: WorkspaceTab) -> int {
    first_index(panes, holds_tab(tab))
}

/// Every pane of the sequence keeps its active index in range.
pub open spec fn all_wf(panes: Seq<PaneView>) -> bool {
    forall|i: int| 0 <= i < panes.len() ==> #[trigger] panes[i].wf()
}

impl PaneRoot {
    /// The panes of the layout in depth-first order.
    pub open spec fn panes_of(self) -> Seq<PaneView>
        decreases self,
    {
        match self {
            PaneRoot::Leaf(pane) => seq![pane@],
            PaneRoot::Split(split) => panes_of_children(split.children@),
        }
    }

    pub open spec fn is_leaf(self) -> bool {
        self is Leaf
    }
}

/// The panes of a list of sibling roots, sibling after sibling.
pub open spec fn panes_of_children(children: Seq<PaneRoot>) -> Seq<PaneView>
    decreases children,
{
    if children.len() == 0 {
        Seq::empty()
    } else {
        panes_of_children(children.drop_last()) + children.last().panes_of()
    }
}


/// The shape of a layout: its panes, and its splits with their directions and
/// children in order.
pub enum Layout {
    Pane(PaneView),
    Split(SplitDirection, Seq<Layout>),
}

impl PaneRoot {
    /// The shape of this layout.
    pub open spec fn layout(self) -> Layout
        decreases self,
    {
        match self {
            PaneRoot::Leaf(pane) => Layout::Pane(pane@),
            PaneRoot::Split(split) => Layout::Split(split.direction, layouts_of(split.children@)),
        }
    }
}

/// The shapes of a list of sibling roots.
pub open spec fn layouts_of(children: Seq<PaneRoot>) -> Seq<Layout>
    decreases children,
{
    if children.len() == 0 {
        Seq::empty()
    } else {
        layouts_of(children.drop_last()).push(children.last().layout())
    }
}

/// The shape after the first pane with identity `anchor` was replaced by a
/// split in `direction` holding that pane and `new_pane` (after it, or before
/// it); every other pane and split keeps its place and direction.
pub open spec fn split_layout(
    root: PaneRoot,
    anchor: PaneId,
    direction: SplitDirection,
    after: bool,
    new_pane: PaneView,
) -> Layout
    decreases root,
{
    match root {
        PaneRoot::Leaf(pane) => if pane@.id == anchor {
            Layout::Split(
                direction,
                if after {
                    seq![Layout::Pane(pane@), Layout::Pane(new_pane)]
                } else {
                    seq![Layout::Pane(new_pane), Layout::Pane(pane@)]
                },
            )
        } else {
            Layout::Pane(pane@)
        },
        PaneRoot::Split(split) => Layout::Split(
            split.direction,
            split_layouts(split.children@, anchor, direction, after, new_pane),
        ),
    }
}

/// `split_layout` over a list of siblings: only the first sibling holding
/// the anchor changes.
pub open spec fn split_layouts(
    children: Seq<PaneRoot>,
    anchor: PaneId,
    direction: SplitDirection,
    after: bool,
    new_pane: PaneView,
) -> Seq<Layout>
    decreases children,
{
    if children.len() == 0 {
        Seq::empty()
    } else if first_with_id(panes_of_children(children.drop_last()), anchor) >= 0 {
        split_layouts(children.drop_last(), anchor, direction, after, new_pane).push(
            children.last().layout(),
        )
    } else {
        split_layouts(children.drop_last(), anchor, direction, after, new_pane).push(
            split_layout(children.last(), anchor, direction, after, new_pane),
        )
    }
}

/// What a layout collapses to once empty panes are removed: `None` when no
/// pane of a split holds tabs (an empty leaf); a split left with one child
/// becomes that child, and every other split keeps its direction.
pub open spec fn collapsed(root: PaneRoot) -> Option<Layout>
    decreases root,
{
    match root {
        PaneRoot::Leaf(pane) => if pane@.tabs.len() > 0 {
            Some(Layout::Pane(pane@))
        } else {
            None
        },
        PaneRoot::Split(split) => {
            let kept = kept_layouts(split.children@);
            if kept.len() == 0 {
                None
            } else if kept.len() == 1 {
                Some(kept[0])
            } else {
                Some(Layout::Split(split.direction, kept))
            }
        },
    }
}

/// The collapsed shapes of the siblings that keep something, in order.
pub open spec fn kept_layouts(children: Seq<PaneRoot>) -> Seq<Layout>
    decreases children,
{
    if children.len() == 0 {
        Seq::empty()
    } else {
        match collapsed(children.last()) {
            Some(l) => kept_layouts(children.drop_last()).push(l),
            None => kept_layouts(children.drop_last()),
        }
    }
}

/// The shape of `root` with its panes, in depth-first order, taken from
/// `panes`: every split keeps its place, children and direction.
pub open spec fn relabeled(root: PaneRoot, panes: Seq<PaneView>) -> Layout
    decreases root,
{
    match root {
        PaneRoot::Leaf(_) => Layout::Pane(panes[0]),
        PaneRoot::Split(split) => Layout::Split(split.direction, relabeled_children(split.children@, panes)),
    }
}

/// `relabeled` over a list of siblings, each taking the panes that follow
/// those of the siblings before it.
pub open spec fn relabeled_children(children: Seq<PaneRoot>, panes: Seq<PaneView>) -> Seq<Layout>
    decreases children,
{
    if children.len() == 0 {
        Seq::empty()
    } else {
        let before = panes_of_children(children.drop_last()).len() as int;
        relabeled_children(children.drop_last(), panes.take(before)).push(
            relabeled(children.last(), panes.skip(before)),
        )
    }
}

/// What a shape collapses to once empty panes are removed: `None` when no
/// pane holds tabs; a split left with one child becomes that child, and
/// every other split keeps its direction.
pub open spec fn layout_collapsed(l: Layout) -> Option<Layout>
    decreases l,
{
    match l {
        Layout::Pane(p) => if p.tabs.len() > 0 {
            Some(l)
        } else {
            None
        },
        Layout::Split(direction, children) => {
            let kept = kept_of_layouts(children);
            if kept.len() == 0 {
                None
            } else if kept.len() == 1 {
                Some(kept[0])
            } else {
                Some(Layout::Split(direction, kept))
            }
        },
    }
}

/// The collapsed shapes of the siblings that keep something, in order.
pub open spec fn kept_of_layouts(children: Seq<Layout>) -> Seq<Layout>
    decreases children,
{
    if children.len() == 0 {
        Seq::empty()
    } else {
        match layout_collapsed(children.last()) {
            Some(l) => kept_of_layouts(children.drop_last()).push(l),
            None => kept_of_layouts(children.drop_last()),
        }
    }
}

/// Collapsing a layout is collapsing its shape.
pub proof fn lemma_collapsed_is_layout_collapsed(root: PaneRoot)
    ensures
        collapsed(root) == layout_collapsed(root.layout()),
    decreases root,
{
    match root {
        PaneRoot::Leaf(_) => {},
        PaneRoot::Split(split) => {
            lemma_kept_layouts_match(split.children@);
        },
    }
}

proof fn lemma_kept_layouts_match(children: Seq<PaneRoot>)
    ensures
        kept_layouts(children) == kept_of_layouts(layouts_of(children)),
    decreases children,
{
    if children.len() > 0 {
        lemma_kept_layouts_match(children.drop_last());
        lemma_collapsed_is_layout_collapsed(children.last());
        let ls = layouts_of(children);
        assert(ls.drop_last() =~= layouts_of(children.drop_last()));
    }
}

/// A normalized layout collapses to itself: a pane with tabs stays that
/// pane, and a normalized split keeps every child, its nesting and its
/// direction.
pub proof fn lemma_normalized_collapses_to_itself(root: PaneRoot)
    requires
        child_ok(root),
    ensures
        collapsed(root) == Some(root.layout()),
    decreases root,
{
    match root {
        PaneRoot::Leaf(_) => {},
        PaneRoot::Split(split) => {
            lemma_normalized_kept_layouts(split.children@);
            lemma_layouts_of_len(split.children@);
        },
    }
}

proof fn lemma_normalized_kept_layouts(children: Seq<PaneRoot>)
    requires
        normalized_children(children),
    ensures
        kept_layouts(children) == layouts_of(children),
    decreases children,
{
    if children.len() > 0 {
        lemma_normalized_kept_layouts(children.drop_last());
        lemma_normalized_collapses_to_itself(children.last());
    }
}

/// A list of siblings has one shape per sibling.
pub proof fn lemma_layouts_of_len(children: Seq<PaneRoot>)
    ensures
        layouts_of(children).len() == children.len(),
    decreases children.len(),
{
    if children.len() > 0 {
        lemma_layouts_of_len(children.drop_last());
    }
}

/// Splitting at an anchor that no pane has leaves the shape as it is.
pub proof fn lemma_split_layout_absent(
    root: PaneRoot,
    anchor: PaneId,
    direction: SplitDirection,
    after: bool,
    new_pane: PaneView,
)
    requires
        first_with_id(root.panes_of(), anchor) < 0,
    ensures
        split_layout(root, anchor, direction, after, new_pane) == root.layout(),
    decreases root,
{
    match root {
        PaneRoot::Leaf(pane) => {
            assert(is_first(seq![pane@], has_id(anchor), 0) ==> first_with_id(root.panes_of(), anchor) == 0) by {
                if is_first(seq![pane@], has_id(anchor), 0) {
                    lemma_first_index_unique(seq![pane@], has_id(anchor), 0);
                }
            }
        },
        PaneRoot::Split(split) => {
            assert(decreases_to!(root => split.children@));
            lemma_split_layouts_absent(split.children@, anchor, direction, after, new_pane);
        },
    }
}

/// `lemma_split_layout_absent` over siblings.
pub proof fn lemma_split_layouts_absent(
    children: Seq<PaneRoot>,
    anchor: PaneId,
    direction: SplitDirection,
    after: bool,
    new_pane: PaneView,
)
    requires
        first_with_id(panes_of_children(children), anchor) < 0,
    ensures
        split_layouts(children, anchor, direction, after, new_pane) == layouts_of(children),
    decreases children,
{
    if children.len() > 0 {
        let init = children.drop_last();
        let last = children.last();
        lemma_first_index_append(panes_of_children(init), last.panes_of(), has_id(anchor));
        lemma_first_index_facts(panes_of_children(init), has_id(anchor));
        lemma_first_index_facts(last.panes_of(), has_id(anchor));
        assert(decreases_to!(children => init));
        lemma_split_layouts_absent(init, anchor, direction, after, new_pane);
        assert(decreases_to!(children => children[children.len() - 1]));
        lemma_split_layout_absent(last, anchor, direction, after, new_pane);
    }
}

/// The panes of concatenated sibling lists are the concatenation of their panes.
pub proof fn lemma_panes_of_children_append(a: Seq<PaneRoot>, b: Seq<PaneRoot>)
    ensures
        panes_of_children(a + b) == panes_of_children(a) + panes_of_children(b),
    decreases b.len(),
{
    if b.len() == 0 {
        assert(a + b =~= a);
        assert(panes_of_children(b) =~= Seq::<PaneView>::empty());
        assert(panes_of_children(a) + panes_of_children(b) =~= panes_of_children(a));
    } else {
        lemma_panes_of_children_append(a, b.drop_last());
        assert((a + b).drop_last() =~= a + b.drop_last());
        assert((a + b).last() == b.last());
        assert(panes_of_children(a) + panes_of_children(b) =~= panes_of_children(a)
            + panes_of_children(b.drop_last()) + b.last().panes_of());
    }
}

/// The panes of one sibling.
pub proof fn lemma_panes_of_single(c: PaneRoot)
    ensures
        panes_of_children(seq![c]) == c.panes_of(),
{
    assert(seq![c].drop_last() =~= Seq::<PaneRoot>::empty());
    assert(panes_of_children(Seq::<PaneRoot>::empty()) =~= Seq::<PaneView>::empty());
    assert(Seq::<PaneView>::empty() + c.panes_of() =~= c.panes_of());
}

/// The tabs of concatenated pane lists are the concatenation of their tabs.
pub proof fn lemma_tabs_of_append(a: Seq<PaneView>, b: Seq<PaneView>)
    ensures
        tabs_of(a + b) == tabs_of(a) + tabs_of(b),
    decreases b.len(),
{
    if b.len() == 0 {
        assert(a + b =~= a);
        assert(tabs_of(a) + tabs_of(b) =~= tabs_of(a));
    } else {
        lemma_tabs_of_append(a, b.drop_last());
        assert((a + b).drop_last() =~= a + b.drop_last());
        assert(tabs_of(a) + tabs_of(b) =~= tabs_of(a) + tabs_of(b.drop_last()) + b.last().tabs);
    }
}

/// The tabs of a single pane.
pub proof fn lemma_tabs_of_single(p: PaneView)
    ensures
        tabs_of(seq![p]) == p.tabs,
{
    assert(seq![p].drop_last() =~= Seq::<PaneView>::empty());
    assert(tabs_of(Seq::<PaneView>::empty()) =~= Seq::<WorkspaceTab>::empty());
    assert(Seq::<WorkspaceTab>::empty() + p.tabs =~= p.tabs);
}

/// A tab occurs in the flattened tabs exactly when some pane holds it.
pub proof fn lemma_tabs_of_contains(panes: Seq<PaneView>, tab: WorkspaceTab)
    ensures
        tabs_of(panes).contains(tab) <==> exists|i: int|
            0 <= i < panes.len() && #[trigger] panes[i].tabs.contains(tab),
    decreases panes.len(),
{
    if panes.len() > 0 {
        let init = panes.drop_last();
        lemma_tabs_of_contains(init, tab);
        let whole = tabs_of(init) + panes.last().tabs;
        if whole.contains(tab) {
            let k = choose|k: int| 0 <= k < whole.len() && whole[k] == tab;
            if k < tabs_of(init).len() {
                assert(tabs_of(init).contains(tab)) by {
                    assert(tabs_of(init)[k] == tab);
                }
                let i = choose|i: int| 0 <= i < init.len() && #[trigger] init[i].tabs.contains(tab);
                assert(panes[i] == init[i]);
            } else {
                assert(panes.last().tabs[k - tabs_of(init).len()] == tab);
                assert(panes[panes.len() - 1].tabs.contains(tab));
            }
        }
        if exists|i: int| 0 <= i < panes.len() && #[trigger] panes[i].tabs.contains(tab) {
            let i = choose|i: int| 0 <= i < panes.len() && #[trigger] panes[i].tabs.contains(tab);
            if i < panes.len() - 1 {
                assert(init[i] == panes[i]);
                let k = choose|k: int| 0 <= k < tabs_of(init).len() && tabs_of(init)[k] == tab;
                assert(whole[k] == tab);
            } else {
                let k = choose|k: int| 0 <= k < panes.last().tabs.len() && panes.last().tabs[k] == tab;
                assert(whole[tabs_of(init).len() + k] == tab);
            }
        }
    }
}

impl Pane {
    /// A new empty pane with a fresh identity.
    pub fn new() -> (pane: Pane)
        ensures
            pane@.tabs.len() == 0,
            pane@.active == 0,
    {
        Pane { id: PaneId::new(), tabs: Vec::new(), active_index: 0 }
    }

    pub fn id(&self) -> (id: PaneId)
        ensures
            id == self@.id,
    {
        self.id
    }

    /// The tabs of this pane in strip order.
    pub fn tabs(&self) -> (tabs: Vec<WorkspaceTab>)
        ensures
            tabs@ == self@.tabs,
    {
        let mut tabs: Vec<WorkspaceTab> = Vec::new();
        let mut i: usize = 0;
        while i < self.tabs.len()
            invariant
                i <= self.tabs@.len(),
                tabs@ == self@.tabs.take(i as int),
            decreases self.tabs@.len() - i,
        {
            tabs.push(self.tabs[i].tab);
            i += 1;
            assert(tabs@ =~= self@.tabs.take(i as int));
        }
        assert(self@.tabs.take(i as int) =~= self@.tabs);
        tabs
    }

    /// Position of `tab` in this pane, if the pane holds it.
    fn position_of(&self, tab: &WorkspaceTab) -> (position: Option<usize>)
        ensures
            match position {
                Some(p) => p < self@.tabs.len() && self@.tabs[p as int] == *tab && forall|j: int|
                    0 <= j < p ==> self@.tabs[j] != *tab,
                None => !self@.tabs.contains(*tab),
            },
            match position {
                Some(p) => first_pos(self@.tabs, *tab) == p,
                None => first_pos(self@.tabs, *tab) == -1,
            },
    {
        let ghost tabs = self@.tabs;
        let mut i: usize = 0;
        while i < self.tabs.len()
            invariant
                i <= self.tabs@.len(),
                tabs == self@.tabs,
                forall|j: int| 0 <= j < i ==> self@.tabs[j] != *tab,
            decreases self.tabs@.len() - i,
        {
            if self.tabs[i].tab == *tab {
                proof {
                    assert forall|j: int| 0 <= j < i implies !equals(*tab)(tabs[j]) by {}
                    assert(is_first(tabs, equals(*tab), i as int));
                    lemma_first_index_unique(tabs, equals(*tab), i as int);
                }
                return Some(i);
            }
            i += 1;
        }
        proof {
            lemma_first_index_facts(tabs, equals(*tab));
            assert forall|j: int| 0 <= j < tabs.len() implies !equals(*tab)(tabs[j]) by {}
        }
        None
    }

    pub fn contains(&self, tab: &WorkspaceTab) -> (found: bool)
        ensures
            found == self@.tabs.contains(*tab),
    {
        self.position_of(tab).is_some()
    }

    /// The active tab, if the active index names one.
    pub fn active_tab(&self) -> (tab: Option<WorkspaceTab>)
        ensures
            tab == self@.active_tab(),
    {
        if self.active_index < self.tabs.len() {
            Some(self.tabs[self.active_index].tab)
        } else {
            None
        }
    }

    /// Append `tab`; an empty pane activates its first tab.
    pub fn push_tab(&mut self, tab: WorkspaceTab)
        ensures
            final(self)@.id == old(self)@.id,
            final(self)@.tabs == old(self)@.tabs.push(tab),
            final(self)@.active == if old(self)@.tabs.len() == 0 {
                0
            } else {
                old(self)@.active
            },
    {
        if self.tabs.len() == 0 {
            self.active_index = 0;
        }
        self.tabs.push(PaneTab { tab });
        assert(self@.tabs =~= old(self)@.tabs.push(tab));
    }

    /// Insert `tab`, activating it; activating an existing tab selects it.
    pub fn insert_or_activate(&mut self, tab: WorkspaceTab)
        requires
            !old(self)@.tabs.contains(tab) ==> old(self)@.tabs.len() < usize::MAX,
        ensures
            activates(old(self)@, tab, final(self)@),
    {
        match self.position_of(&tab) {
            Some(position) => {
                self.active_index = position;
                assert(self@.tabs =~= old(self)@.tabs);
            },
            None => {
                self.push_tab(tab);
                assert(self.tabs@.len() == self@.tabs.len());
                self.active_index = self.tabs.len() - 1;
                assert(self@.tabs =~= old(self)@.tabs.push(tab));
            },
        }
    }

    /// Pull the active index back into range.
    pub fn clamp_active(&mut self)
        ensures
            final(self)@.id == old(self)@.id,
            final(self)@.tabs == old(self)@.tabs,
            final(self)@.active == if old(self)@.tabs.len() == 0 {
                0
            } else if old(self)@.active >= old(self)@.tabs.len() {
                (old(self)@.tabs.len() - 1) as nat
            } else {
                old(self)@.active
            },
            final(self)@.wf(),
    {
        if self.tabs.len() == 0 {
            self.active_index = 0;
        } else if self.active_index >= self.tabs.len() {
            self.active_index = self.tabs.len() - 1;
        }
        assert(self@.tabs =~= old(self)@.tabs);
    }
}


/// The views of a list of pane references.
pub open spec fn views_of(panes: Seq<&Pane>) -> Seq<PaneView> {
    panes.map_values(|pane: &Pane| pane@)
}

impl PaneRoot {
    /// A fresh root containing a single empty pane.
    pub fn new_leaf() -> (root: PaneRoot)
        ensures
            root.is_leaf(),
            root.panes_of().len() == 1,
            root.panes_of()[0].tabs.len() == 0,
            root.panes_of()[0].active == 0,
    {
        PaneRoot::Leaf(Pane::new())
    }

    /// Build a single-pane root from a list of tabs, activating the given index
    /// (clamped to the last tab).
    pub fn from_tabs(tabs: Vec<WorkspaceTab>, active_index: usize) -> (root: PaneRoot)
        ensures
            root.is_leaf(),
            root.panes_of().len() == 1,
            root.panes_of()[0].tabs == tabs@,
            root.panes_of()[0].active == if tabs@.len() == 0 {
                0
            } else if active_index >= tabs@.len() {
                (tabs@.len() - 1) as nat
            } else {
                active_index as nat
            },
            root.panes_of()[0].wf(),
    {
        let mut pane = Pane::new();
        let mut i: usize = 0;
        while i < tabs.len()
            invariant
                i <= tabs@.len(),
                pane@.tabs == tabs@.take(i as int),
                pane.tabs@.len() == i,
            decreases tabs@.len() - i,
        {
            pane.push_tab(tabs[i]);
            i += 1;
            assert(pane@.tabs =~= tabs@.take(i as int));
        }
        assert(tabs@.take(i as int) =~= tabs@);
        let last = if pane.tabs.len() == 0 { 0 } else { pane.tabs.len() - 1 };
        pane.active_index = if active_index < last { active_index } else { last };
        assert(pane@.tabs =~= tabs@);
        PaneRoot::Leaf(pane)
    }

    /// Append references to every pane, in depth-first order.
    #[verifier::loop_isolation(false)]
    pub fn collect_panes<'a>(&'a self, out: &mut Vec<&'a Pane>)
        ensures
            views_of(final(out)@) == views_of(old(out)@) + self.panes_of(),
        decreases self,
    {
        match self {
            PaneRoot::Leaf(pane) => {
                out.push(pane);
                assert(views_of(out@) =~= views_of(old(out)@) + self.panes_of());
            },
            PaneRoot::Split(split) => {
                let mut i: usize = 0;
                while i < split.children.len()
                    invariant
                        i <= split.children@.len(),
                        views_of(out@) == views_of(old(out)@) + panes_of_children(
                            split.children@.take(i as int),
                        ),
                        self.panes_of() == panes_of_children(split.children@),
                    decreases split.children@.len() - i,
                {
                    let ghost before = views_of(out@);
                    proof {
                        let ghost inner: Split = **split;
                        assert(decreases_to!(*self => inner));
                        assert(decreases_to!(inner => inner.children));
                        assert(decreases_to!(split.children => split.children@));
                        assert(decreases_to!(split.children@ => split.children@[i as int]));
                        assert(decreases_to!(*self => split.children@[i as int]));
                    }
                    split.children[i].collect_panes(out);
                    proof {
                        let cs = split.children@;
                        assert(cs.take(i + 1) =~= cs.take(i as int) + seq![cs[i as int]]);
                        lemma_panes_of_children_append(cs.take(i as int), seq![cs[i as int]]);
                        lemma_panes_of_single(cs[i as int]);
                    }
                    i += 1;
                }
                assert(split.children@.take(i as int) =~= split.children@);
            },
        }
    }

    /// All panes in depth-first order.
    pub fn panes(&self) -> (panes: Vec<&Pane>)
        ensures
            views_of(panes@) == self.panes_of(),
    {
        let mut panes: Vec<&Pane> = Vec::new();
        self.collect_panes(&mut panes);
        assert(views_of(Seq::<&Pane>::empty()) =~= Seq::<PaneView>::empty());
        assert(Seq::<PaneView>::empty() + self.panes_of() =~= self.panes_of());
        panes
    }
}


/// The panes that hold at least one tab, in order.
pub open spec fn nonempty(panes: Seq<PaneView>) -> Seq<PaneView>
    decreases panes.len(),
{
    if panes.len() == 0 {
        Seq::empty()
    } else if panes.last().tabs.len() > 0 {
        nonempty(panes.drop_last()).push(panes.last())
    } else {
        nonempty(panes.drop_last())
    }
}

pub proof fn lemma_nonempty_append(a: Seq<PaneView>, b: Seq<PaneView>)
    ensures
        nonempty(a + b) == nonempty(a) + nonempty(b),
    decreases b.len(),
{
    if b.len() == 0 {
        assert(a + b =~= a);
        assert(nonempty(a) + nonempty(b) =~= nonempty(a));
    } else {
        lemma_nonempty_append(a, b.drop_last());
        assert((a + b).drop_last() =~= a + b.drop_last());
        if b.last().tabs.len() > 0 {
            assert(nonempty(a) + nonempty(b) =~= (nonempty(a) + nonempty(b.drop_last())).push(
                b.last(),
            ));
        }
    }
}

/// Panes without tabs contribute no tabs.
pub proof fn lemma_tabs_of_nonempty(panes: Seq<PaneView>)
    ensures
        tabs_of(nonempty(panes)) == tabs_of(panes),
    decreases panes.len(),
{
    if panes.len() > 0 {
        lemma_tabs_of_nonempty(panes.drop_last());
        if panes.last().tabs.len() > 0 {
            let n = nonempty(panes.drop_last());
            assert(n.push(panes.last()).drop_last() =~= n);
        } else {
            assert(tabs_of(panes) =~= tabs_of(panes.drop_last()));
        }
    }
}

/// Every pane of `nonempty(panes)` is one of `panes` and holds a tab.
pub proof fn lemma_nonempty_members(panes: Seq<PaneView>)
    ensures
        forall|i: int| 0 <= i < nonempty(panes).len() ==> #[trigger] nonempty(panes)[i].tabs.len() > 0
            && panes.contains(nonempty(panes)[i]),
        nonempty(panes).len() <= panes.len(),
    decreases panes.len(),
{
    if panes.len() > 0 {
        lemma_nonempty_members(panes.drop_last());
        let n = nonempty(panes.drop_last());
        assert forall|i: int| 0 <= i < nonempty(panes).len() implies #[trigger] nonempty(
            panes,
        )[i].tabs.len() > 0 && panes.contains(nonempty(panes)[i]) by {
            if i < n.len() {
                assert(nonempty(panes)[i] == n[i]);
                assert(n[i].tabs.len() > 0 && panes.drop_last().contains(n[i]));
                let k = choose|k: int| 0 <= k < panes.drop_last().len() && panes.drop_last()[k] == n[i];
                assert(panes[k] == n[i]);
            } else {
                assert(panes[panes.len() - 1] == nonempty(panes)[i]);
            }
        }
    }
}

/// Splits hold at least two children, and no child of a split is an empty
/// leaf.
pub open spec fn normalized(root: PaneRoot) -> bool
    decreases root,
{
    match root {
        PaneRoot::Leaf(_) => true,
        PaneRoot::Split(split) => split.children@.len() >= 2 && normalized_children(
            split.children@,
        ),
    }
}

pub open spec fn normalized_children(children: Seq<PaneRoot>) -> bool
    decreases children,
{
    if children.len() == 0 {
        true
    } else {
        normalized_children(children.drop_last()) && match children.last() {
            PaneRoot::Leaf(pane) => pane@.tabs.len() > 0,
            PaneRoot::Split(_) => normalized(children.last()),
        }
    }
}

pub open spec fn child_ok(child: PaneRoot) -> bool {
    match child {
        PaneRoot::Leaf(pane) => pane@.tabs.len() > 0,
        PaneRoot::Split(_) => normalized(child),
    }
}

pub proof fn lemma_normalized_children_push(children: Seq<PaneRoot>, child: PaneRoot)
    requires
        normalized_children(children),
        child_ok(child),
    ensures
        normalized_children(children.push(child)),
{
    assert(children.push(child).drop_last() =~= children);
}

/// Where the first matching pane lands when sequences are concatenated.
pub proof fn lemma_first_index_append<A>(a: Seq<A>, b: Seq<A>, pred: spec_fn(A) -> bool)
    ensures
        first_index(a + b, pred) == if first_index(a, pred) >= 0 {
            first_index(a, pred)
        } else if first_index(b, pred) >= 0 {
            a.len() + first_index(b, pred)
        } else {
            -1
        },
{
    let ab = a + b;
    lemma_first_index_facts(a, pred);
    lemma_first_index_facts(b, pred);
    if first_index(a, pred) >= 0 {
        let k = first_index(a, pred);
        assert(is_first(ab, pred, k)) by {
            assert forall|j: int| 0 <= j < k implies !pred(ab[j]) by {
                assert(ab[j] == a[j]);
            }
            assert(ab[k] == a[k]);
        }
        lemma_first_index_unique(ab, pred, k);
    } else if first_index(b, pred) >= 0 {
        let k = first_index(b, pred);
        assert forall|j: int| 0 <= j < a.len() + k implies !pred(ab[j]) by {
            if j < a.len() {
                assert(ab[j] == a[j]);
            } else {
                assert(ab[j] == b[j - a.len()]);
            }
        }
        assert(ab[a.len() + k] == b[k]);
        assert(is_first(ab, pred, a.len() + k));
        lemma_first_index_unique(ab, pred, a.len() + k);
    } else {
        assert forall|j: int| 0 <= j < ab.len() implies !pred(ab[j]) by {
            if j < a.len() {
                assert(ab[j] == a[j]);
            } else {
                assert(ab[j] == b[j - a.len()]);
            }
        }
        lemma_first_index_facts(ab, pred);
    }
}

/// A witness of the first-match property is the first match.
pub proof fn lemma_first_index_unique<A>(panes: Seq<A>, pred: spec_fn(A) -> bool, k: int)
    requires
        is_first(panes, pred, k),
    ensures
        first_index(panes, pred) == k,
{
    let c = choose|c: int| is_first(panes, pred, c);
    assert(is_first(panes, pred, c));
    if c < k {
        assert(!pred(panes[c]));
    } else if c > k {
        assert(!pred(panes[k]));
    }
}

/// The first index is -1 exactly when nothing matches, and otherwise it is
/// the first match.
pub proof fn lemma_first_index_facts<A>(panes: Seq<A>, pred: spec_fn(A) -> bool)
    ensures
        (forall|j: int| 0 <= j < panes.len() ==> !pred(panes[j])) <==> first_index(panes, pred)
            == -1,
        first_index(panes, pred) == -1 || is_first(panes, pred, first_index(panes, pred)),
{
    if exists|j: int| 0 <= j < panes.len() && pred(panes[j]) {
        let k = choose|j: int| 0 <= j < panes.len() && pred(panes[j]);
        lemma_least_index(panes, pred, k);
        let f = choose|f: int| is_first(panes, pred, f);
        assert(is_first(panes, pred, f));
    } else {
        assert(!exists|k: int| is_first(panes, pred, k));
    }
}

proof fn lemma_least_index<A>(panes: Seq<A>, pred: spec_fn(A) -> bool, k: int)
    requires
        0 <= k < panes.len(),
        pred(panes[k]),
    ensures
        exists|f: int| is_first(panes, pred, f),
    decreases k,
{
    if exists|j: int| 0 <= j < k && pred(panes[j]) {
        let j = choose|j: int| 0 <= j < k && pred(panes[j]);
        lemma_least_index(panes, pred, j);
    } else {
        assert(is_first(panes, pred, k));
    }
}

impl Pane {
    /// An identical copy of this pane.
    fn copied(&self) -> (pane: Pane)
        ensures
            pane@ == self@,
    {
        let mut tabs: Vec<PaneTab> = Vec::new();
        let mut i: usize = 0;
        while i < self.tabs.len()
            invariant
                i <= self.tabs@.len(),
                tabs@ == self.tabs@.take(i as int),
            decreases self.tabs@.len() - i,
        {
            tabs.push(self.tabs[i]);
            i += 1;
            assert(tabs@ =~= self.tabs@.take(i as int));
        }
        assert(self.tabs@.take(i as int) =~= self.tabs@);
        let pane = Pane { id: self.id, tabs, active_index: self.active_index };
        assert(pane@.tabs =~= self@.tabs);
        pane
    }
}

/// The views of a list of owned panes.
pub open spec fn owned_views(panes: Seq<Pane>) -> Seq<PaneView> {
    panes.map_values(|pane: Pane| pane@)
}

impl PaneRoot {
    /// Owned copies of every pane, in depth-first order.
    fn pane_copies(&self) -> (panes: Vec<Pane>)
        ensures
            owned_views(panes@) == self.panes_of(),
    {
        let refs = self.panes();
        let mut panes: Vec<Pane> = Vec::new();
        let mut i: usize = 0;
        while i < refs.len()
            invariant
                i <= refs@.len(),
                owned_views(panes@) == views_of(refs@).take(i as int),
            decreases refs@.len() - i,
        {
            let source: &Pane = refs[i];
            let copy = source.copied();
            assert(copy@ == views_of(refs@)[i as int]);
            let ghost prev = panes@;
            panes.push(copy);
            assert(owned_views(panes@) =~= owned_views(prev).push(copy@));
            assert(views_of(refs@).take(i + 1) =~= views_of(refs@).take(i as int).push(
                views_of(refs@)[i as int],
            ));
            i += 1;
        }
        assert(views_of(refs@).take(i as int) =~= views_of(refs@));
        panes
    }

    /// Number of panes in the layout.
    fn pane_count(&self) -> (count: usize)
        ensures
            count == self.panes_of().len(),
    {
        self.panes().len()
    }

    /// The same layout with its panes, in depth-first order, replaced by
    /// copies of `panes[start..]`.
    #[verifier::loop_isolation(false)]
    fn with_panes(self, panes: &Vec<Pane>, start: usize) -> (root: PaneRoot)
        requires
            start + self.panes_of().len() <= panes@.len(),
        ensures
            root.panes_of() == owned_views(panes@).subrange(
                start as int,
                start + self.panes_of().len(),
            ),
            root.is_leaf() == self.is_leaf(),
            root.layout() == relabeled(self, owned_views(panes@).subrange(
                start as int,
                start + self.panes_of().len(),
            )),
        decreases self,
    {
        let ghost whole = self;
        match self {
            PaneRoot::Leaf(_) => {
                let root = PaneRoot::Leaf(panes[start].copied());
                assert(root.panes_of() =~= owned_views(panes@).subrange(start as int, start + 1));
                root
            },
            PaneRoot::Split(split) => {
                let Split { direction, children } = *split;
                let ghost initial = children@;
                let mut rest = children;
                let mut rebuilt: Vec<PaneRoot> = Vec::new();
                let mut position = start;
                while rest.len() > 0
                    invariant
                        rest@ == initial.skip(rebuilt@.len() as int),
                        rebuilt@.len() <= initial.len(),
                        position == start + panes_of_children(initial.take(rebuilt@.len() as int)).len(),
                        position <= panes@.len(),
                        panes_of_children(rebuilt@) == owned_views(panes@).subrange(
                            start as int,
                            position as int,
                        ),
                        whole.panes_of() == panes_of_children(initial),
                        start + panes_of_children(initial).len() <= panes@.len(),
                        layouts_of(rebuilt@) == relabeled_children(
                            initial.take(rebuilt@.len() as int),
                            owned_views(panes@).subrange(start as int, position as int),
                        ),
                    decreases rest@.len(),
                {
                    let ghost i = rebuilt@.len() as int;
                    let child = rest.remove(0);
                    assert(child == initial[i]);
                    proof {
                        assert(decreases_to!(whole => initial[i]));
                        assert(initial.take(i + 1) =~= initial.take(i) + seq![initial[i]]);
                        lemma_panes_of_children_append(initial.take(i), seq![initial[i]]);
                        lemma_panes_of_single(initial[i]);
                        assert(initial =~= initial.take(i + 1) + initial.skip(i + 1));
                        lemma_panes_of_children_append(initial.take(i + 1), initial.skip(i + 1));
                    }
                    let count = child.pane_count();
                    assert(position + count <= start + panes_of_children(initial).len());
                    let rebuilt_child = child.with_panes(panes, position);
                    proof {
                        lemma_panes_of_children_append(rebuilt@, seq![rebuilt_child]);
                        lemma_panes_of_single(rebuilt_child);
                        assert(rebuilt@.push(rebuilt_child) =~= rebuilt@ + seq![rebuilt_child]);
                    }
                    let ghost old_rebuilt = rebuilt@;
                    rebuilt.push(rebuilt_child);
                    proof {
                        let views = owned_views(panes@);
                        let taken = initial.take(i + 1);
                        assert(taken.drop_last() =~= initial.take(i));
                        assert(taken.last() == child);
                        let whole_sub = views.subrange(start as int, position + count);
                        assert(whole_sub.take(position - start) =~= views.subrange(start as int, position as int));
                        assert(whole_sub.skip(position - start) =~= views.subrange(position as int, position + count));
                        assert(rebuilt@.drop_last() =~= old_rebuilt);
                        assert(layouts_of(rebuilt@) == layouts_of(old_rebuilt).push(rebuilt_child.layout()));
                    }
                    let total = panes.len();
                    assert(position + count <= total);
                    position = position + count;
                    assert(owned_views(panes@).subrange(start as int, position as int) =~= owned_views(
                        panes@,
                    ).subrange(start as int, position - count) + owned_views(panes@).subrange(
                        position - count,
                        position as int,
                    ));
                    assert(rest@ =~= initial.skip(rebuilt@.len() as int));
                }
                assert(initial.take(rebuilt@.len() as int) =~= initial);
                PaneRoot::Split(Box::new(Split { direction, children: rebuilt }))
            },
        }
    }
}


/// The non-empty panes of a single pane.
pub proof fn lemma_nonempty_single(p: PaneView)
    ensures
        nonempty(seq![p]) == if p.tabs.len() > 0 {
            seq![p]
        } else {
            Seq::<PaneView>::empty()
        },
{
    assert(seq![p].drop_last() =~= Seq::<PaneView>::empty());
    assert(nonempty(Seq::<PaneView>::empty()) =~= Seq::<PaneView>::empty());
    assert(Seq::<PaneView>::empty().push(p) =~= seq![p]);
}

/// Remove empty panes and collapse any split with fewer than two children.
///
/// A leaf root is returned as it is. A split keeps exactly its panes that
/// hold tabs, in order; when none do, it becomes a single empty pane.
#[verifier::loop_isolation(false)]
pub fn normalize(root: PaneRoot) -> (result: PaneRoot)
    ensures
        root.is_leaf() ==> result.is_leaf() && result.panes_of() == root.panes_of(),
        !root.is_leaf() && nonempty(root.panes_of()).len() > 0 ==> result.panes_of() == nonempty(
            root.panes_of(),
        ),
        !root.is_leaf() && nonempty(root.panes_of()).len() == 0 ==> {
            &&& result.is_leaf()
            &&& result.panes_of().len() == 1
            &&& result.panes_of()[0].tabs.len() == 0
            &&& result.panes_of()[0].active == 0
        },
        normalized(result),
        root.is_leaf() ==> result.layout() == root.layout(),
        !root.is_leaf() && nonempty(root.panes_of()).len() > 0 ==> collapsed(root) == Some(result.layout()),
        !root.is_leaf() && nonempty(root.panes_of()).len() == 0 ==> collapsed(root) is None,
        normalized(root) ==> result.layout() == root.layout(),
    decreases root,
{
    let ghost whole = root;
    match root {
        PaneRoot::Leaf(pane) => PaneRoot::Leaf(pane),
        PaneRoot::Split(split) => {
            let Split { direction, children } = *split;
            let ghost initial = children@;
            let mut rest = children;
            let mut kept: Vec<PaneRoot> = Vec::new();
            let ghost mut done: int = 0;
            while rest.len() > 0
                invariant
                    0 <= done <= initial.len(),
                    rest@ == initial.skip(done),
                    panes_of_children(kept@) == nonempty(panes_of_children(initial.take(done))),
                    normalized_children(kept@),
                    kept@.len() > 0 ==> panes_of_children(kept@).len() > 0,
                    whole.panes_of() == panes_of_children(initial),
                    layouts_of(kept@) == kept_layouts(initial.take(done)),
                decreases rest@.len(),
            {
                let child = rest.remove(0);
                proof {
                    assert(child == initial[done]);
                    assert(decreases_to!(whole => initial[done]));
                    assert(initial.take(done + 1) =~= initial.take(done) + seq![initial[done]]);
                    lemma_panes_of_children_append(initial.take(done), seq![initial[done]]);
                    lemma_panes_of_single(initial[done]);
                    lemma_nonempty_append(
                        panes_of_children(initial.take(done)),
                        child.panes_of(),
                    );
                }
                let ghost child_panes = child.panes_of();
                let ghost child_is_leaf = child.is_leaf();
                let ghost child_root = child;
                let ghost prev_kept = kept@;
                proof {
                    let t = initial.take(done + 1);
                    assert(t.drop_last() =~= initial.take(done));
                    assert(t.last() == child_root);
                }
                let normalized_child = normalize(child);
                let keep = match &normalized_child {
                    PaneRoot::Leaf(pane) => pane.tabs.len() > 0,
                    PaneRoot::Split(_) => true,
                };
                proof {
                    if child_is_leaf {
                        lemma_nonempty_single(child_panes[0]);
                        assert(child_panes =~= seq![child_panes[0]]);
                        assert(normalized_child->Leaf_0@ == child_panes[0]);
                    }
                }
                if keep {
                    proof {
                        lemma_panes_of_children_append(kept@, seq![normalized_child]);
                        lemma_panes_of_single(normalized_child);
                        assert(kept@.push(normalized_child) =~= kept@ + seq![normalized_child]);
                        lemma_normalized_children_push(kept@, normalized_child);
                        if normalized_child is Leaf {
                            assert(normalized_child.panes_of() =~= seq![normalized_child->Leaf_0@]);
                        }
                    }
                    kept.push(normalized_child);
                    proof {
                        assert(kept@.drop_last() =~= prev_kept);
                    }
                } else {
                    proof {
                        if !child_is_leaf && nonempty(child_panes).len() > 0 {
                            lemma_nonempty_members(child_panes);
                            assert(nonempty(child_panes)[0].tabs.len() > 0);
                        }
                        assert(nonempty(child_panes) =~= Seq::<PaneView>::empty());
                        assert(nonempty(panes_of_children(initial.take(done))) + Seq::<
                            PaneView,
                        >::empty() =~= nonempty(panes_of_children(initial.take(done))));
                    }
                }
                proof {
                    done = done + 1;
                    assert(rest@ =~= initial.skip(done));
                }
            }
            proof {
                assert(initial.take(done) =~= initial);
                lemma_layouts_of_len(kept@);
                assert(whole.layout() == Layout::Split(direction, layouts_of(initial)));
                if normalized(whole) {
                    lemma_normalized_collapses_to_itself(whole);
                }
            }
            if kept.len() == 0 {
                PaneRoot::new_leaf()
            } else if kept.len() == 1 {
                let ghost before = kept@;
                let only = kept.pop().unwrap();
                proof {
                    assert(before =~= seq![only]);
                    assert(before.drop_last() =~= Seq::<PaneRoot>::empty());
                    assert(layouts_of(before.drop_last()) =~= Seq::<Layout>::empty());
                    assert(layouts_of(before) =~= seq![only.layout()]);
                    lemma_panes_of_single(only);
                    assert(seq![only].drop_last() =~= Seq::<PaneRoot>::empty());
                }
                only
            } else {
                PaneRoot::Split(Box::new(Split { direction, children: kept }))
            }
        },
    }
}


/// Where the split places the new pane relative to the anchor's position `k`.
pub open spec fn split_position(k: int, after: bool) -> int {
    if after {
        k + 1
    } else {
        k
    }
}

/// Replace the first pane with identity `anchor` by a split holding it and
/// `new_pane`; hands `new_pane` back when there is no such pane.
#[verifier::loop_isolation(false)]
#[verifier::spinoff_prover]
#[verifier::rlimit(100)]
fn split_into_with(
    root: PaneRoot,
    anchor: PaneId,
    direction: SplitDirection,
    after: bool,
    new_pane: Pane,
) -> (result: (PaneRoot, Option<Pane>))
    ensures
        first_with_id(root.panes_of(), anchor) >= 0 ==> {
            &&& result.1 is None
            &&& result.0.panes_of() == root.panes_of().insert(
                split_position(first_with_id(root.panes_of(), anchor), after),
                new_pane@,
            )
            &&& !result.0.is_leaf()
            &&& result.0.layout() == split_layout(root, anchor, direction, after, new_pane@)
        },
        first_with_id(root.panes_of(), anchor) < 0 ==> {
            &&& result.1 is Some
            &&& result.1->0@ == new_pane@
            &&& result.0.panes_of() == root.panes_of()
            &&& result.0.is_leaf() == root.is_leaf()
            &&& result.0.layout() == root.layout()
        },
    decreases root,
{
    let ghost whole = root;
    let ghost new_view = new_pane@;
    match root {
        PaneRoot::Leaf(pane) => {
            proof {
                if pane@.id == anchor {
                    assert(is_first(seq![pane@], has_id(anchor), 0));
                    lemma_first_index_unique(seq![pane@], has_id(anchor), 0);
                } else {
                    lemma_first_index_facts(seq![pane@], has_id(anchor));
                }
            }
            if pane.id == anchor {
                let mut children: Vec<PaneRoot> = Vec::new();
                if after {
                    children.push(PaneRoot::Leaf(pane));
                    children.push(PaneRoot::Leaf(new_pane));
                } else {
                    children.push(PaneRoot::Leaf(new_pane));
                    children.push(PaneRoot::Leaf(pane));
                }
                let result = PaneRoot::Split(Box::new(Split { direction, children }));
                proof {
                    let cs = children@;
                    assert(cs.drop_last().drop_last() =~= Seq::<PaneRoot>::empty());
                    assert(layouts_of(cs.drop_last().drop_last()) =~= Seq::<Layout>::empty());
                    assert(layouts_of(cs.drop_last()) =~= seq![cs[0].layout()]);
                    assert(layouts_of(cs) =~= seq![cs[0].layout(), cs[1].layout()]);
                    assert(cs =~= seq![cs[0]] + seq![cs[1]]);
                    lemma_panes_of_children_append(seq![cs[0]], seq![cs[1]]);
                    lemma_panes_of_single(cs[0]);
                    lemma_panes_of_single(cs[1]);
                    assert(result.panes_of() =~= whole.panes_of().insert(
                        split_position(0, after),
                        new_view,
                    ));
                }
                (result, None)
            } else {
                (PaneRoot::Leaf(pane), Some(new_pane))
            }
        },
        PaneRoot::Split(split) => {
            let Split { direction: own_direction, children } = *split;
            let ghost initial = children@;
            let mut rest = children;
            let mut rebuilt: Vec<PaneRoot> = Vec::new();
            let mut spare: Option<Pane> = Some(new_pane);
            let ghost mut done: int = 0;
            while rest.len() > 0
                invariant
                    0 <= done <= initial.len(),
                    rest@ == initial.skip(done),
                    whole.panes_of() == panes_of_children(initial),
                    spare is Some ==> {
                        &&& spare->0@ == new_view
                        &&& first_with_id(panes_of_children(initial.take(done)), anchor) < 0
                        &&& panes_of_children(rebuilt@) == panes_of_children(initial.take(done))
                        &&& layouts_of(rebuilt@) == layouts_of(initial.take(done))
                    },
                    spare is None ==> {
                        &&& first_with_id(panes_of_children(initial.take(done)), anchor) >= 0
                        &&& layouts_of(rebuilt@) == split_layouts(initial.take(done), anchor, direction, after, new_view)
                        &&& panes_of_children(rebuilt@) == panes_of_children(
                            initial.take(done),
                        ).insert(
                            split_position(
                                first_with_id(panes_of_children(initial.take(done)), anchor),
                                after,
                            ),
                            new_view,
                        )
                    },
                    rebuilt@.len() == done,
                decreases rest@.len(),
            {
                let child = rest.remove(0);
                let ghost prefix = panes_of_children(initial.take(done));
                proof {
                    assert(child == initial[done]);
                    assert(decreases_to!(whole => initial[done]));
                    assert(initial.take(done + 1) =~= initial.take(done) + seq![initial[done]]);
                    lemma_panes_of_children_append(initial.take(done), seq![initial[done]]);
                    lemma_panes_of_single(initial[done]);
                    lemma_first_index_append(prefix, child.panes_of(), has_id(anchor));
                    lemma_first_index_facts(prefix, has_id(anchor));
                    lemma_first_index_facts(child.panes_of(), has_id(anchor));
                }
                let ghost child_panes = child.panes_of();
                let ghost prev_rebuilt = rebuilt@;
                let ghost had_spare = spare is Some;
                let ghost child_root = child;
                let next = match spare {
                    Some(pane) => {
                        let (rebuilt_child, left) = split_into_with(
                            child,
                            anchor,
                            direction,
                            after,
                            pane,
                        );
                        spare = left;
                        rebuilt_child
                    },
                    None => {
                        spare = None;
                        child
                    },
                };
                proof {
                    lemma_panes_of_children_append(prev_rebuilt, seq![next]);
                    lemma_panes_of_single(next);
                    assert(prev_rebuilt.push(next) =~= prev_rebuilt + seq![next]);
                }
                rebuilt.push(next);
                proof {
                    let t = initial.take(done + 1);
                    assert(t.drop_last() =~= initial.take(done));
                    assert(t.last() == child_root);
                    assert(rebuilt@.drop_last() =~= prev_rebuilt);
                    if had_spare {
                        lemma_split_layouts_absent(initial.take(done), anchor, direction, after, new_view);
                        if first_with_id(child_panes, anchor) < 0 {
                            lemma_split_layout_absent(child_root, anchor, direction, after, new_view);
                        }
                    }
                    let whole_prefix = panes_of_children(initial.take(done + 1));
                    assert(whole_prefix == prefix + child_panes);
                    if first_with_id(prefix, anchor) >= 0 {
                        let k = first_with_id(prefix, anchor);
                        assert(k < prefix.len());
                        assert(prefix.insert(split_position(k, after), new_view) + child_panes
                            =~= (prefix + child_panes).insert(split_position(k, after), new_view));
                    } else if first_with_id(child_panes, anchor) >= 0 {
                        let k = first_with_id(child_panes, anchor);
                        assert(prefix + child_panes.insert(split_position(k, after), new_view)
                            =~= (prefix + child_panes).insert(
                            split_position(prefix.len() + k, after),
                            new_view,
                        ));
                    }
                    done = done + 1;
                    assert(rest@ =~= initial.skip(done));
                }
            }
            proof {
                assert(initial.take(done) =~= initial);
            }
            (PaneRoot::Split(Box::new(Split { direction: own_direction, children: rebuilt })), spare)
        },
    }
}

/// Replace the first pane with identity `anchor` by a split holding that pane
/// and a new empty pane; returns the new pane's identity, or `None` when there
/// is no such pane (the layout is then returned unchanged).
pub fn split_into(root: PaneRoot, anchor: PaneId, direction: SplitDirection, after: bool) -> (result:
    (PaneRoot, Option<PaneId>))
    ensures
        first_with_id(root.panes_of(), anchor) >= 0 ==> result.1 is Some && result.0.panes_of()
            == root.panes_of().insert(
            split_position(first_with_id(root.panes_of(), anchor), after),
            PaneView { id: result.1->0, tabs: Seq::empty(), active: 0 },
        ) && !result.0.is_leaf() && result.0.layout() == split_layout(
            root,
            anchor,
            direction,
            after,
            PaneView { id: result.1->0, tabs: Seq::empty(), active: 0 },
        ),
        first_with_id(root.panes_of(), anchor) < 0 ==> result.1 is None && result.0.panes_of()
            == root.panes_of() && result.0.is_leaf() == root.is_leaf() && result.0.layout()
            == root.layout(),
{
    let new_pane = Pane::new();
    let new_id = new_pane.id;
    proof {
        assert(new_pane@.tabs =~= Seq::<WorkspaceTab>::empty());
        assert(new_pane@ == PaneView { id: new_id, tabs: Seq::empty(), active: 0 });
    }
    let (rebuilt, spare) = split_into_with(root, anchor, direction, after, new_pane);
    match spare {
        Some(_) => (rebuilt, None),
        None => (rebuilt, Some(new_id)),
    }
}

/// The pane identities of a sequence of panes, as integers.
pub open spec fn id_values(panes: Seq<PaneView>) -> Seq<int> {
    panes.map_values(|pane: PaneView| pane.id.0 as int)
}

/// Among `n + 1` candidates some value is missing from `n` values.
proof fn lemma_pigeonhole(values: Seq<int>)
    ensures
        exists|c: int| 0 <= c <= values.len() && !values.contains(c),
{
    if forall|c: int| 0 <= c <= values.len() ==> values.contains(c) {
        let range = vstd::set_lib::set_int_range(0, values.len() as int + 1);
        vstd::set_lib::lemma_int_range(0, values.len() as int + 1);
        values.lemma_cardinality_of_set();
        assert(range.subset_of(values.to_set())) by {
            assert forall|c: int| range.contains(c) implies values.to_set().contains(c) by {
                assert(values.contains(c));
            }
        }
        vstd::seq_lib::seq_to_set_is_finite(values);
        vstd::set_lib::lemma_len_subset(range, values.to_set());
        assert(false);
    }
}

impl PaneRoot {
    /// An identity that no pane of this layout uses.
    fn fresh_pane_id(&self) -> (id: PaneId)
        ensures
            forall|i: int| 0 <= i < self.panes_of().len() ==> self.panes_of()[i].id != id,
    {
        let panes = self.panes();
        let candidate = PaneId::new();
        let mut i: usize = 0;
        let mut clash = false;
        while i < panes.len()
            invariant
                i <= panes@.len(),
                views_of(panes@) == self.panes_of(),
                !clash ==> forall|j: int| 0 <= j < i ==> views_of(panes@)[j].id != candidate,
            decreases panes@.len() - i,
        {
            if panes[i].id == candidate {
                clash = true;
            }
            i += 1;
        }
        if !clash {
            return candidate;
        }
        // Fall back to the least free value; one of 0..=n is always free.
        let n = panes.len();
        let mut c: usize = 0;
        while c < n
            invariant
                n == panes@.len(),
                views_of(panes@) == self.panes_of(),
                c <= n,
                forall|v: int| 0 <= v < c ==> id_values(views_of(panes@)).contains(v),
            decreases n - c,
        {
            let mut used = false;
            let mut j: usize = 0;
            while j < n
                invariant
                    n == panes@.len(),
                    views_of(panes@) == self.panes_of(),
                    j <= n,
                    !used ==> forall|k: int| 0 <= k < j ==> views_of(panes@)[k].id.0 != c,
                    used ==> id_values(views_of(panes@)).contains(c as int),
                decreases n - j,
            {
                if panes[j].id.0 == c as u64 {
                    used = true;
                    proof {
                        assert(id_values(views_of(panes@))[j as int] == c as int);
                    }
                }
                j += 1;
            }
            if !used {
                let id = PaneId(c as u64);
                proof {
                    assert forall|k: int| 0 <= k < n implies views_of(panes@)[k].id != id by {
                        assert(views_of(panes@)[k].id.0 != c);
                    }
                }
                return id;
            }
            c += 1;
        }
        let id = PaneId(n as u64);
        proof {
            let values = id_values(views_of(panes@));
            lemma_pigeonhole(values);
            let free = choose|v: int| 0 <= v <= values.len() && !values.contains(v);
            assert(free == n);
            assert forall|k: int| 0 <= k < n implies views_of(panes@)[k].id != id by {
                if views_of(panes@)[k].id == id {
                    assert(values[k] == n);
                }
            }
        }
        id
    }

    /// Replace the anchor leaf with a split container holding the anchor pane
    /// and a fresh pane; return the new pane's id so a dragged tab can be
    /// inserted into it next.
    pub fn split_off_pane(&mut self, anchor_pane_id: PaneId, direction: SplitDirection, after: bool) -> (result: Result<PaneId, PaneError>)
        ensures
            first_with_id(old(self).panes_of(), anchor_pane_id) < 0 ==> result == Err::<
                PaneId,
                PaneError,
            >(PaneError::PaneNotFound) && *final(self) == *old(self),
            first_with_id(old(self).panes_of(), anchor_pane_id) >= 0 ==> {
                &&& result is Ok
                &&& forall|i: int|
                    0 <= i < old(self).panes_of().len() ==> old(self).panes_of()[i].id
                        != result->Ok_0
                &&& final(self).panes_of() == old(self).panes_of().insert(
                    split_position(first_with_id(old(self).panes_of(), anchor_pane_id), after),
                    PaneView { id: result->Ok_0, tabs: Seq::empty(), active: 0 },
                )
                &&& !final(self).is_leaf()
                &&& final(self).layout() == split_layout(
                    *old(self),
                    anchor_pane_id,
                    direction,
                    after,
                    PaneView { id: result->Ok_0, tabs: Seq::empty(), active: 0 },
                )
            },
            result is Ok ==> tabs_of(final(self).panes_of()) == tabs_of(old(self).panes_of()),
            all_wf(old(self).panes_of()) ==> all_wf(final(self).panes_of()),
    {
        let ghost old_panes = self.panes_of();
        if self.pane(anchor_pane_id).is_none() {
            return Err(PaneError::PaneNotFound);
        }
        let id = self.fresh_pane_id();
        let new_pane = Pane { id, tabs: Vec::new(), active_index: 0 };
        proof {
            assert(new_pane@.tabs =~= Seq::<WorkspaceTab>::empty());
            assert(new_pane@ == PaneView { id, tabs: Seq::empty(), active: 0 });
        }
        let mut current = PaneRoot::new_leaf();
        std::mem::swap(self, &mut current);
        assert(current == *old(self));
        let (rebuilt, spare) = split_into_with(current, anchor_pane_id, direction, after, new_pane);
        *self = rebuilt;
        proof {
            let k = first_with_id(old_panes, anchor_pane_id);
            if k >= 0 {
                let fresh = PaneView { id, tabs: Seq::empty(), active: 0 };
                lemma_first_index_facts(old_panes, has_id(anchor_pane_id));
                lemma_tabs_of_insert_empty(old_panes, split_position(k, after), fresh);
                if all_wf(old_panes) {
                    let np = self.panes_of();
                    let at = split_position(k, after);
                    assert forall|i: int| 0 <= i < np.len() implies #[trigger] np[i].wf() by {
                        if i < at {
                            assert(np[i] == old_panes[i]);
                        } else if i > at {
                            assert(np[i] == old_panes[i - 1]);
                        }
                    }
                }
            }
        }
        match spare {
            Some(_) => Err(PaneError::PaneNotFound),
            None => Ok(id),
        }
    }

    /// The first pane with identity `id`.
    pub fn pane(&self, id: PaneId) -> (pane: Option<&Pane>)
        ensures
            first_with_id(self.panes_of(), id) < 0 ==> pane is None,
            first_with_id(self.panes_of(), id) >= 0 ==> pane is Some && pane->0@ == self.panes_of()[first_with_id(
                self.panes_of(),
                id,
            )],
    {
        let panes = self.panes();
        let mut i: usize = 0;
        while i < panes.len()
            invariant
                i <= panes@.len(),
                views_of(panes@) == self.panes_of(),
                forall|j: int| 0 <= j < i ==> !has_id(id)(views_of(panes@)[j]),
            decreases panes@.len() - i,
        {
            if panes[i].id == id {
                proof {
                    assert(is_first(self.panes_of(), has_id(id), i as int));
                    lemma_first_index_unique(self.panes_of(), has_id(id), i as int);
                }
                return Some(panes[i]);
            }
            i += 1;
        }
        proof {
            lemma_first_index_facts(self.panes_of(), has_id(id));
        }
        None
    }

    /// Remove empty panes and collapse any split with fewer than two children.
    pub fn remove_empty_panes(&mut self)
        ensures
            old(self).is_leaf() ==> final(self).is_leaf() && final(self).panes_of() == old(self).panes_of(),
            !old(self).is_leaf() && nonempty(old(self).panes_of()).len() > 0
                ==> final(self).panes_of() == nonempty(old(self).panes_of()),
            !old(self).is_leaf() && nonempty(old(self).panes_of()).len() == 0 ==> {
                &&& final(self).is_leaf()
                &&& final(self).panes_of().len() == 1
                &&& final(self).panes_of()[0].tabs.len() == 0
                &&& final(self).panes_of()[0].active == 0
            },
            normalized(*final(self)),
            tabs_of(final(self).panes_of()) == tabs_of(old(self).panes_of()),
            all_wf(old(self).panes_of()) ==> all_wf(final(self).panes_of()),
            old(self).is_leaf() ==> final(self).layout() == old(self).layout(),
            !old(self).is_leaf() && nonempty(old(self).panes_of()).len() > 0 ==> collapsed(*old(self))
                == Some(final(self).layout()),
            !old(self).is_leaf() && nonempty(old(self).panes_of()).len() == 0 ==> collapsed(*old(self)) is None,
            normalized(*old(self)) ==> final(self).layout() == old(self).layout(),
    {
        let mut current = PaneRoot::new_leaf();
        std::mem::swap(self, &mut current);
        assert(current == *old(self));
        let ghost was_leaf = current.is_leaf();
        let ghost before = current.panes_of();
        *self = normalize(current);
        proof {
            lemma_normalizes_keeps_tabs(was_leaf, before, *self);
        }
    }
}


/// An active index pulled back into range for `len` tabs.
pub open spec fn clamped(active: int, len: nat) -> nat {
    if len == 0 {
        0
    } else if active >= len {
        (len - 1) as nat
    } else {
        active as nat
    }
}

/// The pane after removing the tab at `pos`; an active index at or after the
/// removed tab moves back by one.
pub open spec fn without_tab_at(pane: PaneView, pos: int) -> PaneView {
    let tabs = pane.tabs.remove(pos);
    let active = if pane.active >= pos && pane.active > 0 {
        pane.active - 1
    } else {
        pane.active as int
    };
    PaneView { id: pane.id, tabs, active: clamped(active, tabs.len()) }
}

/// The pane after closing the tab at `pos`; only an active index after the
/// closed tab moves back by one.
pub open spec fn closed_at(pane: PaneView, pos: int) -> PaneView {
    let tabs = pane.tabs.remove(pos);
    let active = if pos < pane.active && pane.active > 0 {
        pane.active - 1
    } else {
        pane.active as int
    };
    PaneView { id: pane.id, tabs, active: clamped(active, tabs.len()) }
}

/// The pane after inserting `tab` at `index`, keeping the same tab active.
pub open spec fn inserted_at(pane: PaneView, index: int, tab: WorkspaceTab) -> PaneView {
    let tabs = pane.tabs.insert(index, tab);
    let active = if tabs.len() == 1 {
        0
    } else if index <= pane.active {
        pane.active + 1
    } else {
        pane.active
    };
    PaneView { id: pane.id, tabs, active }
}

/// Taking a tab out of a pane (to move it elsewhere) keeps the other tabs in
/// order and keeps the active tab active when another tab was taken; when
/// the active tab itself was taken, the tab before it becomes active, or the
/// new first tab when it was first.
pub proof fn lemma_without_tab_at_active(pane: PaneView, pos: int)
    requires
        pane.wf(),
        0 <= pos < pane.tabs.len(),
    ensures
        without_tab_at(pane, pos).id == pane.id,
        without_tab_at(pane, pos).tabs == pane.tabs.remove(pos),
        without_tab_at(pane, pos).wf(),
        pos != pane.active ==> without_tab_at(pane, pos).active_tab() == pane.active_tab(),
        pos == pane.active && pos > 0 ==> without_tab_at(pane, pos).active_tab() == Some(pane.tabs[pos - 1]),
        pos == pane.active && pos == 0 && pane.tabs.len() > 1 ==> without_tab_at(pane, pos).active_tab() == Some(
            pane.tabs[1],
        ),
        pane.tabs.len() == 1 ==> without_tab_at(pane, pos).active_tab() is None,
{
    let after = without_tab_at(pane, pos);
    if pos < pane.active {
        assert(after.tabs[pane.active - 1] == pane.tabs[pane.active as int]);
    } else if pos > pane.active {
        assert(after.tabs[pane.active as int] == pane.tabs[pane.active as int]);
    } else if pos > 0 {
        assert(after.tabs[pos - 1] == pane.tabs[pos - 1]);
    } else if pane.tabs.len() > 1 {
        assert(after.tabs[0] == pane.tabs[1]);
    }
}

/// Closing a tab keeps the other tabs in order and keeps the active tab
/// active when another tab was closed; when the active tab itself was
/// closed, the tab after it becomes active, or the one before it when it was
/// last.
pub proof fn lemma_closed_at_active(pane: PaneView, pos: int)
    requires
        pane.wf(),
        0 <= pos < pane.tabs.len(),
    ensures
        closed_at(pane, pos).id == pane.id,
        closed_at(pane, pos).tabs == pane.tabs.remove(pos),
        closed_at(pane, pos).wf(),
        pos != pane.active ==> closed_at(pane, pos).active_tab() == pane.active_tab(),
        pos == pane.active && pos + 1 < pane.tabs.len() ==> closed_at(pane, pos).active_tab() == Some(
            pane.tabs[pos + 1],
        ),
        pos == pane.active && pos + 1 == pane.tabs.len() && pos > 0 ==> closed_at(pane, pos).active_tab() == Some(
            pane.tabs[pos - 1],
        ),
        pane.tabs.len() == 1 ==> closed_at(pane, pos).active_tab() is None,
{
    let after = closed_at(pane, pos);
    if pos < pane.active {
        assert(after.tabs[pane.active - 1] == pane.tabs[pane.active as int]);
    } else if pos > pane.active {
        assert(after.tabs[pane.active as int] == pane.tabs[pane.active as int]);
    } else if pos + 1 < pane.tabs.len() {
        assert(after.tabs[pos] == pane.tabs[pos + 1]);
    } else if pos > 0 {
        assert(after.tabs[pos - 1] == pane.tabs[pos - 1]);
    }
}

/// Dropping a tab into a pane puts it at the given position, keeps the
/// other tabs in order, and leaves the pane's active tab as it was; only an
/// empty pane gets the new tab as its active one.
pub proof fn lemma_inserted_at_keeps_active_tab(pane: PaneView, index: int, tab: WorkspaceTab)
    requires
        pane.wf(),
        0 <= index <= pane.tabs.len(),
    ensures
        inserted_at(pane, index, tab).id == pane.id,
        inserted_at(pane, index, tab).tabs == pane.tabs.insert(index, tab),
        inserted_at(pane, index, tab).wf(),
        pane.tabs.len() > 0 ==> inserted_at(pane, index, tab).active_tab() == pane.active_tab(),
        pane.tabs.len() == 0 ==> inserted_at(pane, index, tab).active_tab() == Some(tab),
{
    let after = inserted_at(pane, index, tab);
    if pane.tabs.len() > 0 {
        if index <= pane.active {
            assert(after.tabs[pane.active as int + 1] == pane.tabs[pane.active as int]);
        } else {
            assert(after.tabs[pane.active as int] == pane.tabs[pane.active as int]);
        }
    }
}

impl Pane {
    fn remove_at(&mut self, position: usize)
        requires
            position < old(self)@.tabs.len(),
        ensures
            final(self)@ == without_tab_at(old(self)@, position as int),
    {
        self.tabs.remove(position);
        if self.active_index >= position && self.active_index > 0 {
            self.active_index = self.active_index - 1;
        }
        self.clamp_active();
        assert(self@.tabs =~= old(self)@.tabs.remove(position as int));
    }

    fn close_at(&mut self, position: usize)
        requires
            position < old(self)@.tabs.len(),
        ensures
            final(self)@ == closed_at(old(self)@, position as int),
    {
        self.tabs.remove(position);
        if position < self.active_index && self.active_index > 0 {
            self.active_index = self.active_index - 1;
        }
        self.clamp_active();
        assert(self@.tabs =~= old(self)@.tabs.remove(position as int));
    }

    fn insert_at(&mut self, index: usize, tab: WorkspaceTab)
        requires
            index <= old(self)@.tabs.len(),
            old(self)@.active < usize::MAX,
        ensures
            final(self)@ == inserted_at(old(self)@, index as int, tab),
    {
        self.tabs.insert(index, PaneTab { tab });
        if self.tabs.len() == 1 {
            self.active_index = 0;
        } else if index <= self.active_index {
            self.active_index = self.active_index + 1;
        }
        assert(self@.tabs =~= old(self)@.tabs.insert(index as int, tab));
    }
}

/// Index of the first owned pane with identity `id`.
fn find_pane_index(panes: &Vec<Pane>, id: PaneId) -> (index: Option<usize>)
    ensures
        match index {
            Some(k) => k == first_with_id(owned_views(panes@), id) && k < panes@.len(),
            None => first_with_id(owned_views(panes@), id) == -1,
        },
{
    let ghost views = owned_views(panes@);
    let mut i: usize = 0;
    while i < panes.len()
        invariant
            i <= panes@.len(),
            views == owned_views(panes@),
            forall|j: int| 0 <= j < i ==> !has_id(id)(views[j]),
        decreases panes@.len() - i,
    {
        if panes[i].id == id {
            proof {
                assert(is_first(views, has_id(id), i as int));
                lemma_first_index_unique(views, has_id(id), i as int);
            }
            return Some(i);
        }
        i += 1;
    }
    proof {
        lemma_first_index_facts(views, has_id(id));
    }
    None
}

impl PaneRoot {
    /// Replace the panes, in depth-first order, keeping the layout's shape.
    fn replace_panes(&mut self, panes: &Vec<Pane>)
        requires
            owned_views(panes@).len() == old(self).panes_of().len(),
        ensures
            final(self).panes_of() == owned_views(panes@),
            final(self).is_leaf() == old(self).is_leaf(),
            final(self).layout() == relabeled(*old(self), owned_views(panes@)),
    {
        let mut current = PaneRoot::new_leaf();
        std::mem::swap(self, &mut current);
        let rebuilt = current.with_panes(panes, 0);
        assert(owned_views(panes@).subrange(0, owned_views(panes@).len() as int) =~= owned_views(
            panes@,
        ));
        *self = rebuilt;
    }

    /// Number of panes in the layout.
    pub fn len(&self) -> (count: usize)
        ensures
            count == self.panes_of().len(),
    {
        match self {
            PaneRoot::Leaf(_) => 1,
            PaneRoot::Split(_) => self.panes().len(),
        }
    }

    pub fn is_single_leaf(&self) -> (single: bool)
        ensures
            single == self.is_leaf(),
    {
        match self {
            PaneRoot::Leaf(_) => true,
            PaneRoot::Split(_) => false,
        }
    }

    /// The pane that currently owns `tab`, if any.
    pub fn pane_for_tab(&self, tab: &WorkspaceTab) -> (pane_id: Option<PaneId>)
        ensures
            first_with_tab(self.panes_of(), *tab) < 0 ==> pane_id is None,
            first_with_tab(self.panes_of(), *tab) >= 0 ==> pane_id == Some(
                self.panes_of()[first_with_tab(self.panes_of(), *tab)].id,
            ),
    {
        let panes = self.panes();
        let ghost views = self.panes_of();
        let mut i: usize = 0;
        while i < panes.len()
            invariant
                i <= panes@.len(),
                views_of(panes@) == views,
                views == self.panes_of(),
                forall|j: int| 0 <= j < i ==> !holds_tab(*tab)(views[j]),
            decreases panes@.len() - i,
        {
            let pane: &Pane = panes[i];
            assert(pane@ == views[i as int]);
            if pane.contains(tab) {
                proof {
                    assert(is_first(views, holds_tab(*tab), i as int));
                    lemma_first_index_unique(views, holds_tab(*tab), i as int);
                }
                return Some(pane.id);
            }
            i += 1;
        }
        proof {
            lemma_first_index_facts(views, holds_tab(*tab));
        }
        None
    }

    /// Flatten every open tab across all panes.
    pub fn active_tabs(&self) -> (tabs: Vec<WorkspaceTab>)
        ensures
            tabs@ == tabs_of(self.panes_of()),
    {
        let panes = self.panes();
        let ghost views = self.panes_of();
        let mut tabs: Vec<WorkspaceTab> = Vec::new();
        let mut i: usize = 0;
        while i < panes.len()
            invariant
                i <= panes@.len(),
                views_of(panes@) == views,
                tabs@ == tabs_of(views.take(i as int)),
            decreases panes@.len() - i,
        {
            let pane: &Pane = panes[i];
            let pane_tabs = pane.tabs();
            let mut j: usize = 0;
            let ghost before = tabs@;
            while j < pane_tabs.len()
                invariant
                    j <= pane_tabs@.len(),
                    tabs@ == before + pane_tabs@.take(j as int),
                decreases pane_tabs@.len() - j,
            {
                tabs.push(pane_tabs[j]);
                j += 1;
                assert(tabs@ =~= before + pane_tabs@.take(j as int));
            }
            proof {
                assert(pane_tabs@.take(j as int) =~= pane_tabs@);
                assert(views.take(i + 1).drop_last() =~= views.take(i as int));
            }
            i += 1;
        }
        assert(views.take(i as int) =~= views);
        tabs
    }

    /// Whether no tab occurs twice across the panes.
    pub fn validate_tab_uniqueness(&self) -> (unique: bool)
        ensures
            unique == tabs_of(self.panes_of()).no_duplicates(),
    {
        let tabs = self.active_tabs();
        let mut i: usize = 0;
        while i < tabs.len()
            invariant
                tabs@ == tabs_of(self.panes_of()),
                i <= tabs@.len(),
                forall|a: int, b: int| 0 <= a < b < tabs@.len() && a < i ==> tabs@[a] != tabs@[b],
            decreases tabs@.len() - i,
        {
            let mut j: usize = i + 1;
            while j < tabs.len()
                invariant
                    tabs@ == tabs_of(self.panes_of()),
                    i < tabs@.len(),
                    i + 1 <= j <= tabs@.len(),
                    forall|a: int, b: int| 0 <= a < b < tabs@.len() && a < i ==> tabs@[a] != tabs@[b],
                    forall|b: int| i < b < j ==> tabs@[i as int] != tabs@[b],
                decreases tabs@.len() - j,
            {
                if tabs[i] == tabs[j] {
                    assert(tabs@[i as int] == tabs@[j as int]);
                    assert(!tabs@.no_duplicates());
                    return false;
                }
                j += 1;
            }
            i += 1;
        }
        assert forall|a: int, b: int|
            0 <= a < tabs@.len() && 0 <= b < tabs@.len() && a != b implies tabs@[a] != tabs@[b] by {
            if a < b {
            } else {
                assert(tabs@[b] != tabs@[a]);
            }
        }
        true
    }

    /// Remove `tab` from the pane `pane_id` without collapsing the tree.
    ///
    /// Used when moving the single tab of a freshly split pane: the creator
    /// intentionally asked for two panes, so an empty source pane is kept.
    pub fn remove_tab_from_pane(&mut self, tab: &WorkspaceTab, pane_id: PaneId) -> (removed: bool)
        ensures
            removed == (first_with_id(old(self).panes_of(), pane_id) >= 0 && old(self).panes_of()[first_with_id(old(self).panes_of(), pane_id)].tabs.contains(*tab)),
            removed ==> final(self).panes_of() == old(self).panes_of().update(
                first_with_id(old(self).panes_of(), pane_id),
                without_tab_at(
                    old(self).panes_of()[first_with_id(old(self).panes_of(), pane_id)],
                    first_pos(
                        old(self).panes_of()[first_with_id(old(self).panes_of(), pane_id)].tabs,
                        *tab,
                    ),
                ),
            ),
            !removed ==> final(self).panes_of() == old(self).panes_of(),
            final(self).is_leaf() == old(self).is_leaf(),
            removed ==> tabs_of(final(self).panes_of()).to_multiset().insert(*tab) == tabs_of(
                old(self).panes_of(),
            ).to_multiset(),
            tabs_of(old(self).panes_of()).no_duplicates() ==> tabs_of(final(self).panes_of()).no_duplicates(),
            all_wf(old(self).panes_of()) ==> all_wf(final(self).panes_of()),
    {
        let ghost old_panes = self.panes_of();
        let mut panes = self.pane_copies();
        let index = match find_pane_index(&panes, pane_id) {
            Some(index) => index,
            None => return false,
        };
        let position = match panes[index].position_of(tab) {
            Some(position) => position,
            None => return false,
        };
        let mut pane = panes[index].copied();
        pane.remove_at(position);
        let ghost before = panes@;
        panes.set(index, pane);
        assert(owned_views(panes@) =~= owned_views(before).update(index as int, pane@));
        self.replace_panes(&panes);
        proof {
            let p = old_panes[index as int];
            lemma_remove_at_multiset(p.tabs, position as int);
            lemma_update_removes(old_panes, index as int, pane@, *tab);
            if tabs_of(old_panes).no_duplicates() {
                assert(tabs_of(self.panes_of()).to_multiset().add(Multiset::empty().insert(*tab))
                    =~= tabs_of(self.panes_of()).to_multiset().insert(*tab));
                lemma_no_duplicates_sub(
                    tabs_of(self.panes_of()),
                    Multiset::empty().insert(*tab),
                    tabs_of(old_panes),
                );
            }
            lemma_pane_steps_wf(p, position as int, 0, *tab);
        }
        true
    }
}


/// `after` is what collapsing the layout makes of a layout whose panes were
/// `before` (see `normalize`).
pub open spec fn normalizes_to(was_leaf: bool, before: Seq<PaneView>, after: PaneRoot) -> bool {
    &&& was_leaf ==> after.is_leaf() && after.panes_of() == before
    &&& !was_leaf && nonempty(before).len() > 0 ==> after.panes_of() == nonempty(before)
    &&& !was_leaf && nonempty(before).len() == 0 ==> {
        &&& after.is_leaf()
        &&& after.panes_of().len() == 1
        &&& after.panes_of()[0].tabs.len() == 0
        &&& after.panes_of()[0].active == 0
    }
    &&& normalized(after)
}

/// Every pane after closing `tab` wherever it occurs.
pub open spec fn close_everywhere(panes: Seq<PaneView>, tab: WorkspaceTab) -> Seq<PaneView> {
    panes.map_values(
        |pane: PaneView|
            if pane.tabs.contains(tab) {
                closed_at(pane, first_pos(pane.tabs, tab))
            } else {
                pane
            },
    )
}

/// The tabs after moving `dragged` next to `target`.
pub open spec fn reordered_tabs(
    tabs: Seq<WorkspaceTab>,
    dragged: WorkspaceTab,
    target: WorkspaceTab,
    after: bool,
) -> Seq<WorkspaceTab> {
    let removed = tabs.remove(first_pos(tabs, dragged));
    removed.insert(first_pos(removed, target) + if after {
        1int
    } else {
        0int
    }, dragged)
}

/// The pane after moving `dragged` next to `target`; the tab that was active
/// stays active.
pub open spec fn reordered_pane(
    pane: PaneView,
    dragged: WorkspaceTab,
    target: WorkspaceTab,
    after: bool,
) -> PaneView {
    let tabs = reordered_tabs(pane.tabs, dragged, target, after);
    let previous = pane.tabs[clamped(pane.active as int, pane.tabs.len()) as int];
    let position = first_pos(tabs, previous);
    PaneView {
        id: pane.id,
        tabs,
        active: clamped(if position >= 0 { position } else { 0 }, tabs.len()),
    }
}

/// Moving a tab within a sequence keeps its length and its members.
proof fn lemma_reordered_members(
    tabs: Seq<WorkspaceTab>,
    dragged: WorkspaceTab,
    target: WorkspaceTab,
    after: bool,
)
    requires
        tabs.contains(dragged),
        tabs.contains(target),
        dragged != target,
    ensures
        reordered_tabs(tabs, dragged, target, after).len() == tabs.len(),
        forall|t: WorkspaceTab| #[trigger]
            reordered_tabs(tabs, dragged, target, after).contains(t) <==> tabs.contains(t),
        reordered_tabs(tabs, dragged, target, after).to_multiset() == tabs.to_multiset(),
        0 <= first_pos(tabs, dragged) < tabs.len(),
        tabs[first_pos(tabs, dragged)] == dragged,
        tabs.remove(first_pos(tabs, dragged)).contains(target),
        0 <= first_pos(tabs.remove(first_pos(tabs, dragged)), target) < tabs.len() - 1,
{
    let s = first_pos(tabs, dragged);
    lemma_first_index_facts(tabs, equals(dragged));
    let k = choose|k: int| 0 <= k < tabs.len() && tabs[k] == dragged;
    assert(equals(dragged)(tabs[k]));
    let removed = tabs.remove(s);
    let kt = choose|k: int| 0 <= k < tabs.len() && tabs[k] == target;
    assert(removed.contains(target)) by {
        if kt < s {
            assert(removed[kt] == target);
        } else {
            assert(kt != s);
            assert(removed[kt - 1] == target);
        }
    }
    lemma_first_index_facts(removed, equals(target));
    let kr = choose|k: int| 0 <= k < removed.len() && removed[k] == target;
    assert(equals(target)(removed[kr]));
    let t = first_pos(removed, target);
    let result = reordered_tabs(tabs, dragged, target, after);
    let p = t + if after {
        1int
    } else {
        0int
    };
    assert(0 <= t < removed.len()) by {
        assert(is_first(removed, equals(target), t));
    }
    assert(result.remove(p) =~= removed);
    assert(result[p] == dragged);
    assert(tabs[s] == dragged) by {
        assert(is_first(tabs, equals(dragged), s));
    }
    tabs.to_multiset_ensures();
    result.to_multiset_ensures();
    removed.to_multiset_ensures();
    assert(result.to_multiset() =~= tabs.to_multiset()) by {
        assert(result.remove(p).to_multiset() =~= result.to_multiset().remove(dragged));
        assert(tabs.remove(s).to_multiset() =~= tabs.to_multiset().remove(dragged));
        assert(result.contains(dragged));
        assert(tabs.contains(dragged));
        assert forall|x: WorkspaceTab| result.to_multiset().count(x) == tabs.to_multiset().count(
            x,
        ) by {
            if x != dragged {
                assert(result.to_multiset().remove(dragged).count(x) == result.to_multiset().count(
                    x,
                ));
                assert(tabs.to_multiset().remove(dragged).count(x) == tabs.to_multiset().count(x));
            } else {
                assert(result.to_multiset().count(x) > 0);
                assert(tabs.to_multiset().count(x) > 0);
                assert(result.to_multiset().remove(dragged).count(x) == result.to_multiset().count(
                    x,
                ) - 1);
                assert(tabs.to_multiset().remove(dragged).count(x) == tabs.to_multiset().count(x)
                    - 1);
            }
        }
    }
    assert forall|x: WorkspaceTab| #[trigger] result.contains(x) <==> tabs.contains(x) by {
        assert(result.to_multiset().count(x) == tabs.to_multiset().count(x));
    }
}

impl Pane {
    /// Same tab lists.
    fn same_tabs(a: &Vec<PaneTab>, b: &Vec<PaneTab>) -> (same: bool)
        ensures
            same == (a@ == b@),
    {
        if a.len() != b.len() {
            return false;
        }
        let mut i: usize = 0;
        while i < a.len()
            invariant
                a@.len() == b@.len(),
                i <= a@.len(),
                forall|j: int| 0 <= j < i ==> a@[j] == b@[j],
            decreases a@.len() - i,
        {
            if a[i] != b[i] {
                return false;
            }
            i += 1;
        }
        assert(a@ =~= b@);
        true
    }

    /// Move `dragged` next to `target` within this pane.
    #[verifier::spinoff_prover]
    fn reorder(&mut self, dragged: &WorkspaceTab, target: &WorkspaceTab, after: bool) -> (changed:
        bool)
        requires
            old(self)@.tabs.contains(*dragged),
            old(self)@.tabs.contains(*target),
            *dragged != *target,
        ensures
            changed == (reordered_tabs(old(self)@.tabs, *dragged, *target, after) != old(self)@.tabs),
            changed ==> final(self)@ == reordered_pane(old(self)@, *dragged, *target, after),
            !changed ==> final(self)@ == old(self)@,
    {
        let ghost tabs0 = self@.tabs;
        proof {
            lemma_reordered_members(tabs0, *dragged, *target, after);
        }
        let source_index = self.position_of(dragged).unwrap();
        let last = self.tabs.len() - 1;
        let clamped_active = if self.active_index < last { self.active_index } else { last };
        let active_tab = self.tabs[clamped_active].tab;
        let mut tabs: Vec<PaneTab> = Vec::new();
        let mut i: usize = 0;
        while i < self.tabs.len()
            invariant
                i <= self.tabs@.len(),
                tabs@ == self.tabs@.take(i as int),
            decreases self.tabs@.len() - i,
        {
            tabs.push(self.tabs[i]);
            i += 1;
            assert(tabs@ =~= self.tabs@.take(i as int));
        }
        assert(self.tabs@.take(i as int) =~= self.tabs@);
        let dragged_tab = tabs.remove(source_index);
        let removed = Pane { id: self.id, tabs, active_index: 0 };
        assert(removed@.tabs =~= tabs0.remove(source_index as int));
        let target_index = removed.position_of(target).unwrap();
        let Pane { tabs: mut tabs, .. } = removed;
        let insert_at = if after { target_index + 1 } else { target_index };
        tabs.insert(insert_at, dragged_tab);
        let candidate = Pane { id: self.id, tabs, active_index: 0 };
        assert(candidate@.tabs =~= reordered_tabs(tabs0, *dragged, *target, after));
        let Pane { tabs: new_tabs, .. } = candidate;
        if Pane::same_tabs(&new_tabs, &self.tabs) {
            return false;
        }
        proof {
            if reordered_tabs(tabs0, *dragged, *target, after) == tabs0 {
                assert forall|j: int| 0 <= j < new_tabs@.len() implies new_tabs@[j]
                    == self.tabs@[j] by {
                    assert(candidate@.tabs[j] == tabs0[j]);
                }
                assert(new_tabs@ =~= self.tabs@);
            }
        }
        let candidate = Pane { id: self.id, tabs: new_tabs, active_index: 0 };
        let active_index = match candidate.position_of(&active_tab) {
            Some(position) => position,
            None => 0,
        };
        let Pane { tabs: new_tabs, .. } = candidate;
        self.tabs = new_tabs;
        self.active_index = active_index;
        self.clamp_active();
        proof {
            assert(self@.tabs =~= reordered_tabs(tabs0, *dragged, *target, after));
        }
        true
    }
}

impl PaneRoot {
    /// Close a tab wherever it lives, removing panes that become empty.
    pub fn close_tab(&mut self, tab: &WorkspaceTab) -> (found: bool)
        ensures
            found == tabs_of(old(self).panes_of()).contains(*tab),
            !found ==> *final(self) == *old(self),
            found ==> normalizes_to(
                old(self).is_leaf(),
                close_everywhere(old(self).panes_of(), *tab),
                *final(self),
            ),
            found && old(self).is_leaf() ==> final(self).layout() == relabeled(
                *old(self),
                close_everywhere(old(self).panes_of(), *tab),
            ),
            found && !old(self).is_leaf() && nonempty(close_everywhere(old(self).panes_of(), *tab)).len() > 0
                ==> layout_collapsed(relabeled(*old(self), close_everywhere(old(self).panes_of(), *tab))) == Some(
                final(self).layout(),
            ),
            found && tabs_of(old(self).panes_of()).no_duplicates() ==> {
                &&& tabs_of(final(self).panes_of()).to_multiset().insert(*tab) == tabs_of(
                    old(self).panes_of(),
                ).to_multiset()
                &&& tabs_of(final(self).panes_of()).no_duplicates()
                &&& !tabs_of(final(self).panes_of()).contains(*tab)
            },
            all_wf(old(self).panes_of()) ==> all_wf(final(self).panes_of()),
    {
        let mut panes = self.pane_copies();
        let ghost initial = owned_views(panes@);
        let mut found = false;
        let mut i: usize = 0;
        while i < panes.len()
            invariant
                i <= panes@.len(),
                initial.len() == panes@.len(),
                forall|j: int| 0 <= j < i ==> owned_views(panes@)[j] == close_everywhere(initial, *tab)[j],
                forall|j: int| i <= j < panes@.len() ==> owned_views(panes@)[j] == initial[j],
                found == exists|j: int| 0 <= j < i && #[trigger] initial[j].tabs.contains(*tab),
            decreases panes@.len() - i,
        {
            let ghost before = panes@;
            assert(panes@[i as int]@ == initial[i as int]);
            let ghost old_found = found;
            match panes[i].position_of(tab) {
                Some(position) => {
                    let mut pane = panes[i].copied();
                    pane.close_at(position);
                    panes.set(i, pane);
                    found = true;
                },
                None => {},
            }
            proof {
                assert forall|j: int| 0 <= j < panes@.len() && j != i implies owned_views(panes@)[j]
                    == owned_views(before)[j] by {}
                assert(found == (old_found || initial[i as int].tabs.contains(*tab)));
                if initial[i as int].tabs.contains(*tab) {
                    assert(exists|j: int| 0 <= j < i + 1 && #[trigger] initial[j].tabs.contains(*tab));
                } else {
                    assert forall|j: int| 0 <= j < i + 1 && #[trigger] initial[j].tabs.contains(*tab) implies j < i by {}
                }
            }
            i += 1;
        }
        proof {
            assert(owned_views(panes@) =~= close_everywhere(initial, *tab));
            lemma_tabs_of_contains(initial, *tab);
        }
        if found {
            self.replace_panes(&panes);
            proof {
                let closed = close_everywhere(initial, *tab);
                assert forall|j: int| 0 <= j < closed.len() && all_wf(initial) implies #[trigger] closed[j].wf() by {
                    if initial[j].tabs.contains(*tab) {
                        lemma_first_index_facts(initial[j].tabs, equals(*tab));
                        lemma_pane_steps_wf(initial[j], first_pos(initial[j].tabs, *tab), 0, *tab);
                    }
                }
                if tabs_of(initial).no_duplicates() {
                    let h = first_with_tab(initial, *tab);
                    lemma_first_index_facts(initial, holds_tab(*tab));
                    assert(holds_tab(*tab)(initial[h]));
                    let pos = first_pos(initial[h].tabs, *tab);
                    lemma_first_index_facts(initial[h].tabs, equals(*tab));
                    let q = closed_at(initial[h], pos);
                    assert forall|j: int| 0 <= j < initial.len() && j != h implies !initial[j].tabs.contains(*tab) by {
                        if j > h {
                            lemma_unique_holder(initial, *tab, h, j);
                        } else {
                            assert(!holds_tab(*tab)(initial[j]));
                        }
                    }
                    assert(closed =~= initial.update(h, q));
                    lemma_remove_at_multiset(initial[h].tabs, pos);
                    lemma_update_removes(initial, h, q, *tab);
                }
            }
            let ghost before_collapse = self.panes_of();
            let ghost mid = *self;
            self.remove_empty_panes();
            proof {
                lemma_collapsed_is_layout_collapsed(mid);
                if tabs_of(initial).no_duplicates() {
                    let now = tabs_of(self.panes_of());
                    assert(now.to_multiset().add(Multiset::empty().insert(*tab)) =~= now.to_multiset().insert(*tab));
                    lemma_no_duplicates_sub(now, Multiset::empty().insert(*tab), tabs_of(initial));
                    crate::pane_laws::lemma_no_duplicates_counts(tabs_of(initial));
                    assert(tabs_of(initial).to_multiset().count(*tab) <= 1);
                    assert(now.to_multiset().insert(*tab).count(*tab) == now.to_multiset().count(*tab) + 1);
                    assert(now.to_multiset().count(*tab) == 0);
                    now.to_multiset_ensures();
                }
            }
        }
        found
    }

    /// Reorder `dragged` before/after `target` within the pane `pane_id`.
    pub fn reorder_within_pane(
        &mut self,
        pane_id: PaneId,
        dragged: &WorkspaceTab,
        target: &WorkspaceTab,
        after: bool,
    ) -> (changed: bool)
        ensures
            ({
                let panes = old(self).panes_of();
                let k = first_with_id(panes, pane_id);
                changed == (*dragged != *target && k >= 0 && panes[k].tabs.contains(*dragged)
                    && panes[k].tabs.contains(*target) && reordered_tabs(
                    panes[k].tabs,
                    *dragged,
                    *target,
                    after,
                ) != panes[k].tabs)
            }),
            changed ==> final(self).panes_of() == old(self).panes_of().update(
                first_with_id(old(self).panes_of(), pane_id),
                reordered_pane(
                    old(self).panes_of()[first_with_id(old(self).panes_of(), pane_id)],
                    *dragged,
                    *target,
                    after,
                ),
            ),
            !changed ==> final(self).panes_of() == old(self).panes_of(),
            final(self).is_leaf() == old(self).is_leaf(),
            tabs_of(final(self).panes_of()).to_multiset() == tabs_of(old(self).panes_of()).to_multiset(),
            tabs_of(old(self).panes_of()).no_duplicates() ==> tabs_of(final(self).panes_of()).no_duplicates(),
            all_wf(old(self).panes_of()) ==> all_wf(final(self).panes_of()),
    {
        let ghost old_panes = self.panes_of();
        if *dragged == *target {
            return false;
        }
        let mut panes = self.pane_copies();
        let index = match find_pane_index(&panes, pane_id) {
            Some(index) => index,
            None => return false,
        };
        if !panes[index].contains(dragged) || !panes[index].contains(target) {
            return false;
        }
        let mut pane = panes[index].copied();
        if !pane.reorder(dragged, target, after) {
            return false;
        }
        let ghost before = panes@;
        panes.set(index, pane);
        assert(owned_views(panes@) =~= owned_views(before).update(index as int, pane@));
        self.replace_panes(&panes);
        proof {
            let p = old_panes[index as int];
            lemma_reordered_members(p.tabs, *dragged, *target, after);
            lemma_update_same(old_panes, index as int, pane@);
            if tabs_of(old_panes).no_duplicates() {
                lemma_no_duplicates_same(tabs_of(self.panes_of()), tabs_of(old_panes));
            }
        }
        true
    }

    /// Move `dragged` from `from_pane_id` into `to_pane_id` at `index`.
    ///
    /// The tab is taken out of the source pane first; when the target pane is
    /// then missing or already holds the tab, the call fails and the tab stays
    /// out of the source pane. After a move, empty panes are removed and the
    /// tree is collapsed.
    pub fn move_tab_between_panes(
        &mut self,
        dragged: &WorkspaceTab,
        from_pane_id: PaneId,
        to_pane_id: PaneId,
        index: usize,
    ) -> (moved: bool)
        requires
            all_wf(old(self).panes_of()),
        ensures
            ({
                let panes = old(self).panes_of();
                let f = first_with_id(panes, from_pane_id);
                let t = first_with_id(panes, to_pane_id);
                let taken = f >= 0 && from_pane_id != to_pane_id && panes[f].tabs.contains(
                    *dragged,
                );
                let middle = panes.update(
                    f,
                    without_tab_at(panes[f], first_pos(panes[f].tabs, *dragged)),
                );
                let placed = middle.update(
                    t,
                    inserted_at(
                        middle[t],
                        if index <= middle[t].tabs.len() {
                            index as int
                        } else {
                            middle[t].tabs.len() as int
                        },
                        *dragged,
                    ),
                );
                &&& !taken ==> !moved && *final(self) == *old(self)
                &&& taken && (t < 0 || middle[t].tabs.contains(*dragged)) ==> !moved && final(self).panes_of() == middle
                    && final(self).is_leaf() == old(self).is_leaf() && final(self).layout() == relabeled(*old(self), middle)
                &&& taken && t >= 0 && !middle[t].tabs.contains(*dragged) ==> moved
                    && normalizes_to(old(self).is_leaf(), placed, *final(self))
                    && layout_collapsed(relabeled(*old(self), placed)) == Some(final(self).layout())
            }),
            moved ==> tabs_of(final(self).panes_of()).to_multiset() == tabs_of(old(self).panes_of()).to_multiset(),
            moved && tabs_of(old(self).panes_of()).no_duplicates() ==> tabs_of(final(self).panes_of()).no_duplicates(),
            moved && all_wf(old(self).panes_of()) ==> all_wf(final(self).panes_of()),
            moved ==> exists|i: int| 0 <= i < final(self).panes_of().len()
                && final(self).panes_of()[i].id == to_pane_id
                && #[trigger] final(self).panes_of()[i].tabs.contains(*dragged),
    {
        if from_pane_id == to_pane_id {
            return false;
        }
        let mut panes = self.pane_copies();
        let ghost initial = owned_views(panes@);
        let source = match find_pane_index(&panes, from_pane_id) {
            Some(source) => source,
            None => return false,
        };
        let position = match panes[source].position_of(dragged) {
            Some(position) => position,
            None => return false,
        };
        let mut pane = panes[source].copied();
        pane.remove_at(position);
        let ghost before = panes@;
        panes.set(source, pane);
        assert(owned_views(panes@) =~= owned_views(before).update(source as int, pane@));
        let ghost middle = owned_views(panes@);
        proof {
            assert forall|j: int| 0 <= j < middle.len() implies #[trigger] middle[j].id
                == initial[j].id by {}
            assert forall|j: int| 0 <= j < middle.len() implies (has_id(to_pane_id)(middle[j])
                <==> has_id(to_pane_id)(initial[j])) by {}
            lemma_first_index_facts(middle, has_id(to_pane_id));
            lemma_first_index_facts(initial, has_id(to_pane_id));
            if first_with_id(middle, to_pane_id) >= 0 {
                assert(is_first(initial, has_id(to_pane_id), first_with_id(middle, to_pane_id)));
                lemma_first_index_unique(initial, has_id(to_pane_id), first_with_id(middle, to_pane_id));
            } else if first_with_id(initial, to_pane_id) >= 0 {
                assert(is_first(middle, has_id(to_pane_id), first_with_id(initial, to_pane_id)));
                lemma_first_index_unique(middle, has_id(to_pane_id), first_with_id(initial, to_pane_id));
            }
        }
        let target = match find_pane_index(&panes, to_pane_id) {
            Some(target) => target,
            None => {
                self.replace_panes(&panes);
                return false;
            },
        };
        if panes[target].contains(dragged) {
            self.replace_panes(&panes);
            return false;
        }
        let mut destination = panes[target].copied();
        let at = if index <= destination.tabs.len() { index } else { destination.tabs.len() };
        proof {
            assert(middle[target as int] == initial[target as int] || target == source);
            if target as int != source as int {
                assert(initial[target as int].wf());
            } else {
                assert(target != source) by {
                    assert(middle[source as int].id == from_pane_id);
                }
            }
        }
        let ghost target_before = destination@;
        destination.insert_at(at, *dragged);
        let ghost before_insert = panes@;
        panes.set(target, destination);
        assert(owned_views(panes@) =~= owned_views(before_insert).update(
            target as int,
            destination@,
        ));
        let ghost placed = owned_views(panes@);
        proof {
            let p = initial[source as int];
            lemma_remove_at_multiset(p.tabs, position as int);
            lemma_update_removes(initial, source as int, pane@, *dragged);
            lemma_insert_at_multiset(target_before.tabs, at as int, *dragged);
            lemma_update_adds(middle, target as int, destination@, *dragged);
            assert(tabs_of(placed).to_multiset() =~= tabs_of(initial).to_multiset());
            lemma_pane_steps_wf(p, position as int, 0, *dragged);
            lemma_pane_steps_wf(target_before, 0, at as int, *dragged);
            assert(destination@.tabs[at as int] == *dragged);
            assert(placed[target as int].tabs.contains(*dragged));
        }
        self.replace_panes(&panes);
        let ghost was_leaf = self.is_leaf();
        let ghost mid = *self;
        self.remove_empty_panes();
        proof {
            lemma_collapsed_is_layout_collapsed(mid);
            if tabs_of(initial).no_duplicates() {
                lemma_no_duplicates_same(tabs_of(self.panes_of()), tabs_of(initial));
            }
            if all_wf(initial) {
                assert forall|i: int| 0 <= i < placed.len() implies #[trigger] placed[i].wf() by {
                    if i != target && i != source {
                        assert(placed[i] == initial[i]);
                    }
                }
            }
            lemma_nonempty_members(placed);
            if was_leaf {
                assert(placed.len() == 1);
                assert(false);
            }
            let q = placed[target as int];
            assert(q.tabs.len() > 0);
            lemma_nonempty_has(placed, target as int);
            let i = choose|i: int| 0 <= i < nonempty(placed).len() && nonempty(placed)[i] == q;
            assert(self.panes_of()[i] == q);
        }
        true
    }
}


/// The tabs of `tabs` that are also in `open`, in order.
pub open spec fn retain_open(tabs: Seq<WorkspaceTab>, open: Seq<WorkspaceTab>) -> Seq<WorkspaceTab>
    decreases tabs.len(),
{
    if tabs.len() == 0 {
        Seq::empty()
    } else if open.contains(tabs.last()) {
        retain_open(tabs.drop_last(), open).push(tabs.last())
    } else {
        retain_open(tabs.drop_last(), open)
    }
}

/// A pane after dropping its closed tabs; its active tab stays active when it
/// survives, and otherwise the first tab becomes active.
pub open spec fn retained_pane(pane: PaneView, open: Seq<WorkspaceTab>) -> PaneView {
    let tabs = retain_open(pane.tabs, open);
    let active = match pane.active_tab() {
        Some(tab) => if first_pos(tabs, tab) >= 0 {
            first_pos(tabs, tab)
        } else {
            0
        },
        None => 0,
    };
    PaneView { id: pane.id, tabs, active: clamped(active, tabs.len()) }
}

pub open spec fn retained_panes(panes: Seq<PaneView>, open: Seq<WorkspaceTab>) -> Seq<PaneView> {
    panes.map_values(|pane: PaneView| retained_pane(pane, open))
}

/// A pane lost some of its tabs to the closed set.
pub open spec fn lost_tabs(open: Seq<WorkspaceTab>) -> spec_fn(PaneView) -> bool {
    |pane: PaneView| retain_open(pane.tabs, open).len() != pane.tabs.len()
}

/// A pane lost tabs and has none left.
pub open spec fn vacated(open: Seq<WorkspaceTab>) -> spec_fn(PaneView) -> bool {
    |pane: PaneView|
        retain_open(pane.tabs, open).len() != pane.tabs.len() && retain_open(pane.tabs, open).len()
            == 0
}

/// The tabs of `open` that `existing` lacks, in order.
pub open spec fn absent_from(open: Seq<WorkspaceTab>, existing: Seq<WorkspaceTab>) -> Seq<
    WorkspaceTab,
>
    decreases open.len(),
{
    if open.len() == 0 {
        Seq::empty()
    } else if existing.contains(open.last()) {
        absent_from(open.drop_last(), existing)
    } else {
        absent_from(open.drop_last(), existing).push(open.last())
    }
}

/// The pane that receives newly opened tabs: the first pane emptied by the
/// reconciliation, else the pane holding the active tab, else the first pane.
pub open spec fn receiving_pane(
    initial: Seq<PaneView>,
    retained: Seq<PaneView>,
    open: Seq<WorkspaceTab>,
    active: WorkspaceTab,
) -> int {
    let v = first_index(initial, vacated(open));
    if v >= 0 {
        first_with_id(retained, retained[v].id)
    } else if first_with_tab(retained, active) >= 0 {
        first_with_id(retained, retained[first_with_tab(retained, active)].id)
    } else if retained.len() > 0 {
        0
    } else {
        -1
    }
}

/// A pane after appending `extra` tabs one by one.
pub open spec fn appended(pane: PaneView, extra: Seq<WorkspaceTab>) -> PaneView {
    PaneView {
        id: pane.id,
        tabs: pane.tabs + extra,
        active: if pane.tabs.len() == 0 {
            0
        } else {
            pane.active
        },
    }
}

/// The panes after placing the tabs that no pane holds yet.
pub open spec fn with_missing(
    initial: Seq<PaneView>,
    retained: Seq<PaneView>,
    open: Seq<WorkspaceTab>,
    active: WorkspaceTab,
) -> Seq<PaneView> {
    let missing = absent_from(open, tabs_of(retained));
    let target = receiving_pane(initial, retained, open, active);
    if missing.len() > 0 && target >= 0 {
        retained.update(target, appended(retained[target], missing))
    } else {
        retained
    }
}

/// Where the active tab gets selected: (pane index, tab position), or -1s.
pub open spec fn active_selection(panes: Seq<PaneView>, active: WorkspaceTab) -> (int, int) {
    let f = first_with_tab(panes, active);
    if f >= 0 {
        let k = first_with_id(panes, panes[f].id);
        (k, first_pos(panes[k].tabs, active))
    } else {
        (-1, -1)
    }
}

/// The panes after selecting the active tab in the pane that holds it.
pub open spec fn with_active_selected(panes: Seq<PaneView>, active: WorkspaceTab) -> Seq<PaneView> {
    let (k, q) = active_selection(panes, active);
    if k >= 0 && q >= 0 {
        panes.update(k, PaneView { active: q as nat, ..panes[k] })
    } else {
        panes
    }
}

/// The panes of a split layout after reconciling with the open tabs, before
/// empty panes are removed.
pub open spec fn reconciled_split_panes(
    initial: Seq<PaneView>,
    open: Seq<WorkspaceTab>,
    active: WorkspaceTab,
) -> Seq<PaneView> {
    with_active_selected(
        with_missing(initial, retained_panes(initial, open), open, active),
        active,
    )
}

/// Whether reconciling a split layout reports a change.
pub open spec fn reconcile_split_changes(
    initial: Seq<PaneView>,
    open: Seq<WorkspaceTab>,
    active: WorkspaceTab,
) -> bool {
    let retained = retained_panes(initial, open);
    let placed = with_missing(initial, retained, open, active);
    let (k, q) = active_selection(placed, active);
    ||| first_index(initial, lost_tabs(open)) >= 0
    ||| (absent_from(open, tabs_of(retained)).len() > 0 && receiving_pane(
        initial,
        retained,
        open,
        active,
    ) >= 0)
    ||| (k >= 0 && q >= 0 && placed[k].active != q)
}

/// The single pane of a leaf layout after reconciling with the open tabs.
pub open spec fn reconciled_leaf_pane(
    pane: PaneView,
    open: Seq<WorkspaceTab>,
    active: WorkspaceTab,
) -> PaneView {
    PaneView {
        id: pane.id,
        tabs: open,
        active: if first_pos(open, active) >= 0 {
            first_pos(open, active) as nat
        } else {
            0
        },
    }
}

/// Membership in an exec list of tabs.
fn list_contains(tabs: &Vec<WorkspaceTab>, tab: &WorkspaceTab) -> (found: bool)
    ensures
        found == tabs@.contains(*tab),
{
    let mut i: usize = 0;
    while i < tabs.len()
        invariant
            i <= tabs@.len(),
            forall|j: int| 0 <= j < i ==> tabs@[j] != *tab,
        decreases tabs@.len() - i,
    {
        if tabs[i] == *tab {
            return true;
        }
        i += 1;
    }
    false
}

/// Position of `tab` in an exec list of tabs.
fn list_position(tabs: &Vec<WorkspaceTab>, tab: &WorkspaceTab) -> (position: Option<usize>)
    ensures
        match position {
            Some(p) => first_pos(tabs@, *tab) == p && p < tabs@.len(),
            None => first_pos(tabs@, *tab) == -1,
        },
{
    let mut i: usize = 0;
    while i < tabs.len()
        invariant
            i <= tabs@.len(),
            forall|j: int| 0 <= j < i ==> !equals(*tab)(tabs@[j]),
        decreases tabs@.len() - i,
    {
        if tabs[i] == *tab {
            proof {
                assert(is_first(tabs@, equals(*tab), i as int));
                lemma_first_index_unique(tabs@, equals(*tab), i as int);
            }
            return Some(i);
        }
        i += 1;
    }
    proof {
        lemma_first_index_facts(tabs@, equals(*tab));
    }
    None
}

/// The tabs of a list of owned panes, pane after pane.
fn tabs_of_owned(panes: &Vec<Pane>) -> (tabs: Vec<WorkspaceTab>)
    ensures
        tabs@ == tabs_of(owned_views(panes@)),
{
    let ghost views = owned_views(panes@);
    let mut tabs: Vec<WorkspaceTab> = Vec::new();
    let mut i: usize = 0;
    while i < panes.len()
        invariant
            i <= panes@.len(),
            views == owned_views(panes@),
            tabs@ == tabs_of(views.take(i as int)),
        decreases panes@.len() - i,
    {
        let pane_tabs = panes[i].tabs();
        let mut j: usize = 0;
        let ghost before = tabs@;
        while j < pane_tabs.len()
            invariant
                j <= pane_tabs@.len(),
                tabs@ == before + pane_tabs@.take(j as int),
            decreases pane_tabs@.len() - j,
        {
            tabs.push(pane_tabs[j]);
            j += 1;
            assert(tabs@ =~= before + pane_tabs@.take(j as int));
        }
        proof {
            assert(pane_tabs@.take(j as int) =~= pane_tabs@);
            assert(views.take(i + 1).drop_last() =~= views.take(i as int));
        }
        i += 1;
    }
    assert(views.take(i as int) =~= views);
    tabs
}

impl Pane {
    /// Drop the tabs that are not open, keeping the active tab when it survives.
    fn retain_open(&mut self, open: &Vec<WorkspaceTab>) -> (lost: bool)
        ensures
            final(self)@ == retained_pane(old(self)@, open@),
            lost == lost_tabs(open@)(old(self)@),
    {
        let previous_active = self.active_tab();
        let ghost initial = self@.tabs;
        let mut kept: Vec<PaneTab> = Vec::new();
        let mut i: usize = 0;
        while i < self.tabs.len()
            invariant
                i <= self.tabs@.len(),
                initial == self@.tabs,
                kept@.map_values(|entry: PaneTab| entry.tab) == retain_open(
                    initial.take(i as int),
                    open@,
                ),
            decreases self.tabs@.len() - i,
        {
            let entry = self.tabs[i];
            proof {
                assert(initial.take(i + 1).drop_last() =~= initial.take(i as int));
                assert(initial.take(i + 1).last() == entry.tab);
            }
            if list_contains(open, &entry.tab) {
                kept.push(entry);
            }
            i += 1;
            assert(kept@.map_values(|entry: PaneTab| entry.tab) =~= retain_open(
                initial.take(i as int),
                open@,
            ));
        }
        assert(initial.take(i as int) =~= initial);
        let lost = kept.len() != self.tabs.len();
        let candidate = Pane { id: self.id, tabs: kept, active_index: 0 };
        let active_index = match previous_active {
            Some(tab) => match candidate.position_of(&tab) {
                Some(position) => position,
                None => 0,
            },
            None => 0,
        };
        let Pane { tabs: kept, .. } = candidate;
        self.tabs = kept;
        self.active_index = active_index;
        self.clamp_active();
        lost
    }
}

impl PaneRoot {
    /// Reconcile pane membership with the tabs that are currently open.
    ///
    /// The workspace tab model remains the authority for open/closed tabs,
    /// while this tree owns their pane placement. A single pane simply takes
    /// the open tabs. In a split, closed tabs leave their panes, tabs that no
    /// pane holds go to the first pane emptied here (else the active tab's
    /// pane, else the first pane), the active tab is selected in its pane, and
    /// panes emptied here are removed.
    #[verifier::rlimit(80)]
    #[verifier::spinoff_prover]
    pub fn reconcile_open_tabs(&mut self, open_tabs: &Vec<WorkspaceTab>, active_tab: &WorkspaceTab) -> (changed: bool)
        ensures
            old(self).is_leaf() ==> {
                let pane = old(self).panes_of()[0];
                let next = reconciled_leaf_pane(pane, open_tabs@, *active_tab);
                &&& changed == (next != pane)
                &&& final(self).is_leaf()
                &&& final(self).panes_of() == if changed {
                    seq![next]
                } else {
                    seq![pane]
                }
            },
            !old(self).is_leaf() ==> {
                let initial = old(self).panes_of();
                let next = reconciled_split_panes(initial, open_tabs@, *active_tab);
                &&& changed == reconcile_split_changes(initial, open_tabs@, *active_tab)
                &&& first_index(initial, lost_tabs(open_tabs@)) >= 0 ==> normalizes_to(
                    false,
                    next,
                    *final(self),
                )
                &&& first_index(initial, lost_tabs(open_tabs@)) < 0 ==> !final(self).is_leaf()
                    && final(self).panes_of() == next && final(self).layout() == relabeled(*old(self), next)
                &&& first_index(initial, lost_tabs(open_tabs@)) >= 0 && nonempty(next).len() > 0 ==> layout_collapsed(
                    relabeled(*old(self), next),
                ) == Some(final(self).layout())
            },
            all_wf(final(self).panes_of()),
            open_tabs@.no_duplicates() && tabs_of(old(self).panes_of()).no_duplicates() && old(self).panes_of().len() > 0 ==> {
                &&& tabs_of(final(self).panes_of()).no_duplicates()
                &&& tabs_of(final(self).panes_of()).to_set() == open_tabs@.to_set()
                &&& tabs_of(final(self).panes_of()).to_multiset() == open_tabs@.to_multiset()
            },
            open_tabs@.no_duplicates() && tabs_of(old(self).panes_of()).no_duplicates() && old(self).panes_of().len() > 0
                && ids_unique(old(self).panes_of()) && open_tabs@.contains(*active_tab) ==> exists|i: int|
                0 <= i < final(self).panes_of().len() && #[trigger] final(self).panes_of()[i].active_tab() == Some(*active_tab),
            !changed && all_wf(old(self).panes_of()) && tabs_of(old(self).panes_of()).no_duplicates() ==> final(self).panes_of()
                == old(self).panes_of() && final(self).is_leaf() == old(self).is_leaf(),
    {
        let is_leaf = self.is_single_leaf();
        if is_leaf {
            let changed = self.reconcile_leaf(open_tabs, active_tab);
            proof {
                crate::pane_laws::lemma_reconcile_leaf_result(old(self).panes_of()[0], open_tabs@, *active_tab, changed, *self);
                assert(old(self).panes_of() =~= seq![old(self).panes_of()[0]]);
                if open_tabs@.no_duplicates() {
                    crate::pane_laws::lemma_same_set_same_multiset(tabs_of(self.panes_of()), open_tabs@);
                }
            }
            return changed;
        }
        let ghost initial = self.panes_of();
        let mut panes = self.pane_copies();
        // Drop the closed tabs from every pane.
        let mut removed_tabs = false;
        let mut first_vacated: Option<PaneId> = None;
        let ghost mut first_vacated_index: int = -1;
        let mut i: usize = 0;
        while i < panes.len()
            invariant
                i <= panes@.len(),
                initial.len() == panes@.len(),
                forall|j: int| 0 <= j < i ==> owned_views(panes@)[j] == retained_pane(initial[j], open_tabs@),
                forall|j: int| i <= j < panes@.len() ==> owned_views(panes@)[j] == initial[j],
                removed_tabs == exists|j: int| 0 <= j < i && #[trigger] lost_tabs(open_tabs@)(initial[j]),
                first_vacated is None <==> forall|j: int| 0 <= j < i ==> !#[trigger] vacated(open_tabs@)(initial[j]),
                first_vacated is Some ==> 0 <= first_vacated_index < i && vacated(open_tabs@)(
                    initial[first_vacated_index],
                ) && (forall|j: int|
                    0 <= j < first_vacated_index ==> !#[trigger] vacated(open_tabs@)(initial[j]))
                    && first_vacated->0 == initial[first_vacated_index].id,
            decreases panes@.len() - i,
        {
            let ghost before = panes@;
            let ghost old_removed = removed_tabs;
            assert(panes@[i as int]@ == initial[i as int]);
            let mut pane = panes[i].copied();
            let lost = pane.retain_open(open_tabs);
            let now_empty = pane.tabs.len() == 0;
            let id = pane.id;
            let ghost pane_view = pane@;
            assert(pane_view == retained_pane(initial[i as int], open_tabs@));
            assert(now_empty == (pane_view.tabs.len() == 0));
            assert((lost && now_empty) == vacated(open_tabs@)(initial[i as int]));
            panes.set(i, pane);
            assert(owned_views(panes@)[i as int] == pane_view);
            if lost {
                removed_tabs = true;
                if now_empty && first_vacated.is_none() {
                    first_vacated = Some(id);
                    proof {
                        first_vacated_index = i as int;
                    }
                }
            }
            proof {
                assert forall|j: int| 0 <= j < panes@.len() && j != i implies owned_views(panes@)[j]
                    == owned_views(before)[j] by {}
                assert forall|j: int| 0 <= j < i + 1 implies owned_views(panes@)[j] == retained_pane(
                    initial[j],
                    open_tabs@,
                ) by {
                    if j < i {
                        assert(owned_views(panes@)[j] == owned_views(before)[j]);
                    }
                }
                if lost_tabs(open_tabs@)(initial[i as int]) {
                    assert(exists|j: int| 0 <= j < i + 1 && #[trigger] lost_tabs(open_tabs@)(initial[j]));
                } else {
                    assert forall|j: int| 0 <= j < i + 1 && #[trigger] lost_tabs(open_tabs@)(initial[j]) implies j < i by {}
                }
            }
            i += 1;
        }
        proof {
            assert(owned_views(panes@) =~= retained_panes(initial, open_tabs@));
            assert(initial.take(i as int) =~= initial);
            if first_vacated is None {
                lemma_first_index_facts(initial, vacated(open_tabs@));
            } else {
                assert(is_first(initial, vacated(open_tabs@), first_vacated_index));
                lemma_first_index_unique(initial, vacated(open_tabs@), first_vacated_index);
            }
            lemma_first_index_facts(initial, lost_tabs(open_tabs@));
        }
        let ghost retained = owned_views(panes@);
        // Place the tabs that no pane holds yet.
        let existing = tabs_of_owned(&panes);
        let mut missing: Vec<WorkspaceTab> = Vec::new();
        let mut m: usize = 0;
        while m < open_tabs.len()
            invariant
                m <= open_tabs@.len(),
                missing@ == absent_from(open_tabs@.take(m as int), existing@),
            decreases open_tabs@.len() - m,
        {
            proof {
                assert(open_tabs@.take(m + 1).drop_last() =~= open_tabs@.take(m as int));
            }
            if !list_contains(&existing, &open_tabs[m]) {
                missing.push(open_tabs[m]);
            }
            m += 1;
        }
        assert(open_tabs@.take(m as int) =~= open_tabs@);
        let mut changed = removed_tabs;
        if missing.len() > 0 {
            let target_id = match first_vacated {
                Some(id) => Some(id),
                None => {
                    let mut holder: Option<PaneId> = None;
                    let mut k: usize = 0;
                    while k < panes.len()
                        invariant
                            k <= panes@.len(),
                            retained == owned_views(panes@),
                            holder is None ==> forall|j: int| 0 <= j < k ==> !holds_tab(*active_tab)(retained[j]),
                            holder is Some ==> first_with_tab(retained, *active_tab) >= 0 && holder->0
                                == retained[first_with_tab(retained, *active_tab)].id,
                        decreases panes@.len() - k,
                    {
                        if holder.is_none() && panes[k].contains(active_tab) {
                            proof {
                                assert(panes@[k as int]@ == retained[k as int]);
                                assert(is_first(retained, holds_tab(*active_tab), k as int));
                                lemma_first_index_unique(retained, holds_tab(*active_tab), k as int);
                            }
                            holder = Some(panes[k].id);
                        }
                        k += 1;
                    }
                    proof {
                        if holder is None {
                            lemma_first_index_facts(retained, holds_tab(*active_tab));
                        }
                    }
                    match holder {
                        Some(id) => Some(id),
                        None => if panes.len() > 0 {
                            Some(panes[0].id)
                        } else {
                            None
                        },
                    }
                },
            };
            proof {
                if first_vacated is None && first_with_tab(retained, *active_tab) < 0 && retained.len() > 0 {
                    assert(is_first(retained, has_id(retained[0].id), 0));
                    lemma_first_index_unique(retained, has_id(retained[0].id), 0);
                }
            }
            match target_id {
                Some(target_id) => {
                    match find_pane_index(&panes, target_id) {
                        Some(index) => {
                            let mut pane = panes[index].copied();
                            let ghost start = pane@;
                            let mut n: usize = 0;
                            while n < missing.len()
                                invariant
                                    n <= missing@.len(),
                                    pane@ == appended(start, missing@.take(n as int)),
                                decreases missing@.len() - n,
                            {
                                pane.push_tab(missing[n]);
                                n += 1;
                                assert(pane@.tabs =~= start.tabs + missing@.take(n as int));
                            }
                            assert(missing@.take(n as int) =~= missing@);
                            let ghost before = panes@;
                            panes.set(index, pane);
                            assert(owned_views(panes@) =~= owned_views(before).update(index as int, pane@));
                            changed = true;
                        },
                        None => {
                            proof {
                                lemma_first_index_facts(retained, has_id(target_id));
                                if first_vacated is Some {
                                    assert(retained[first_vacated_index].id == target_id);
                                }
                            }
                        },
                    }
                },
                None => {},
            }
        }
        let ghost placed = owned_views(panes@);
        assert(placed == with_missing(initial, retained, open_tabs@, *active_tab));
        // Select the active tab in the pane that holds it.
        let mut holder: Option<PaneId> = None;
        let mut k: usize = 0;
        while k < panes.len()
            invariant
                k <= panes@.len(),
                placed == owned_views(panes@),
                holder is None ==> forall|j: int| 0 <= j < k ==> !holds_tab(*active_tab)(placed[j]),
                holder is Some ==> first_with_tab(placed, *active_tab) >= 0 && holder->0
                    == placed[first_with_tab(placed, *active_tab)].id,
            decreases panes@.len() - k,
        {
            if holder.is_none() && panes[k].contains(active_tab) {
                proof {
                    assert(panes@[k as int]@ == placed[k as int]);
                    assert(is_first(placed, holds_tab(*active_tab), k as int));
                    lemma_first_index_unique(placed, holds_tab(*active_tab), k as int);
                }
                holder = Some(panes[k].id);
            }
            k += 1;
        }
        proof {
            if holder is None {
                lemma_first_index_facts(placed, holds_tab(*active_tab));
            }
        }
        match holder {
            Some(holder_id) => match find_pane_index(&panes, holder_id) {
                Some(index) => match panes[index].position_of(active_tab) {
                    Some(position) => {
                        if panes[index].active_index != position {
                            let mut pane = panes[index].copied();
                            pane.active_index = position;
                            let ghost before = panes@;
                            panes.set(index, pane);
                            assert(owned_views(panes@) =~= owned_views(before).update(index as int, pane@));
                            changed = true;
                        }
                    },
                    None => {},
                },
                None => {
                    proof {
                        lemma_first_index_facts(placed, has_id(holder_id));
                    }
                },
            },
            None => {},
        }
        assert(owned_views(panes@) == reconciled_split_panes(initial, open_tabs@, *active_tab));
        self.replace_panes(&panes);
        let ghost mid = *self;
        if removed_tabs {
            self.remove_empty_panes();
        }
        proof {
            lemma_collapsed_is_layout_collapsed(mid);
        }
        proof {
            crate::pane_laws::lemma_reconcile_split_result(initial, open_tabs@, *active_tab, removed_tabs, *self);
            if !changed && all_wf(initial) && tabs_of(initial).no_duplicates() {
                crate::pane_laws::lemma_reconcile_unchanged_when_false(initial, open_tabs@, *active_tab);
            }
            if open_tabs@.no_duplicates() && tabs_of(initial).no_duplicates() && initial.len() > 0 {
                crate::pane_laws::lemma_same_set_same_multiset(tabs_of(self.panes_of()), open_tabs@);
            }
        }
        changed
    }

    /// The single-pane case of `reconcile_open_tabs`.
    fn reconcile_leaf(&mut self, open_tabs: &Vec<WorkspaceTab>, active_tab: &WorkspaceTab) -> (changed: bool)
        requires
            old(self).is_leaf(),
        ensures
            ({
                let pane = old(self).panes_of()[0];
                let next = reconciled_leaf_pane(pane, open_tabs@, *active_tab);
                &&& changed == (next != pane)
                &&& final(self).is_leaf()
                &&& final(self).panes_of() == if changed {
                    seq![next]
                } else {
                    seq![pane]
                }
            }),
    {
        let mut desired: Vec<PaneTab> = Vec::new();
        let mut i: usize = 0;
        while i < open_tabs.len()
            invariant
                i <= open_tabs@.len(),
                desired@.map_values(|entry: PaneTab| entry.tab) == open_tabs@.take(i as int),
            decreases open_tabs@.len() - i,
        {
            let ghost prev = desired@;
            desired.push(PaneTab { tab: open_tabs[i] });
            assert(desired@ == prev.push(PaneTab { tab: open_tabs@[i as int] }));
            assert(desired@.map_values(|entry: PaneTab| entry.tab) =~= prev.map_values(
                |entry: PaneTab| entry.tab,
            ).push(open_tabs@[i as int]));
            i += 1;
            assert(desired@.map_values(|entry: PaneTab| entry.tab) =~= open_tabs@.take(i as int));
        }
        assert(open_tabs@.take(i as int) =~= open_tabs@);
        let active_index = match list_position(open_tabs, active_tab) {
            Some(position) => position,
            None => 0,
        };
        match self {
            PaneRoot::Leaf(pane) => {
                let ghost old_pane = pane@;
                let same = Pane::same_tabs(&pane.tabs, &desired) && pane.active_index == active_index;
                proof {
                    let next = reconciled_leaf_pane(old_pane, open_tabs@, *active_tab);
                    if next == old_pane && !same {
                        assert(pane.tabs@.map_values(|entry: PaneTab| entry.tab) == desired@.map_values(|entry: PaneTab| entry.tab));
                        assert forall|j: int| 0 <= j < desired@.len() implies pane.tabs@[j] == desired@[j] by {
                            assert(pane.tabs@.map_values(|entry: PaneTab| entry.tab)[j] == desired@.map_values(|entry: PaneTab| entry.tab)[j]);
                        }
                        assert(pane.tabs@ =~= desired@);
                    }
                }
                if same {
                    return false;
                }
                pane.tabs = desired;
                pane.active_index = active_index;
                pane.clamp_active();
                proof {
                    assert(pane@.tabs =~= open_tabs@);
                }
                true
            },
            PaneRoot::Split(_) => false,
        }
    }
}


/// A pane with tabs survives the removal of empty panes.
pub proof fn lemma_nonempty_has(panes: Seq<PaneView>, k: int)
    requires
        0 <= k < panes.len(),
        panes[k].tabs.len() > 0,
    ensures
        exists|i: int| 0 <= i < nonempty(panes).len() && nonempty(panes)[i] == panes[k],
    decreases panes.len(),
{
    let init = panes.drop_last();
    if k == panes.len() - 1 {
        assert(nonempty(panes) == nonempty(init).push(panes.last()));
        assert(nonempty(panes)[nonempty(panes).len() - 1] == panes[k]);
    } else {
        assert(init[k] == panes[k]);
        lemma_nonempty_has(init, k);
        let i = choose|i: int| 0 <= i < nonempty(init).len() && nonempty(init)[i] == init[k];
        if panes.last().tabs.len() > 0 {
            assert(nonempty(panes) == nonempty(init).push(panes.last()));
            assert(nonempty(panes)[i] == nonempty(init)[i]);
        } else {
            assert(nonempty(panes) == nonempty(init));
        }
        assert(0 <= i < nonempty(panes).len() && nonempty(panes)[i] == panes[k]);
    }
}

} // verus!
