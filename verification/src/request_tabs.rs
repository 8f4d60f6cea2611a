use vstd::prelude::*;

use crate::ids::random_u64;
use crate::request_model::{RequestTemplate, TemplateView, same_template};
use crate::text::{owned, str_eq};
use crate::workspace::opt_view;
use crate::workspace_tab::RequestTabId;
use vstd::pervasive::VecAdditionalExecFns;

verus! {

/// The title of a request tab that was opened blank.
pub open spec fn default_tab_title() -> Seq<char> {
    "Untitled request"@
}

/// Identity of one tab group.
#[derive(Clone, Copy, Debug, PartialEq, Eq, Structural, Hash)]
pub struct RequestTabGroupId(pub u64);

/// The accent colour of a tab group.
#[derive(Clone, Copy, Debug, PartialEq, Eq, Structural)]
pub enum RequestTabGroupColor {
    Gray,
    Blue,
    Cyan,
    Green,
    Yellow,
    Orange,
    Red,
    Pink,
    Purple,
    Custom(u32),
}

/// A named, coloured group of request tabs that can be collapsed.
#[derive(Debug, PartialEq, Eq)]
pub struct RequestTabGroup {
    pub id: RequestTabGroupId,
    pub title: String,
    pub color: RequestTabGroupColor,
    pub collapsed: bool,
}

/// Where a request tab belongs in the workspace: a folder and a collection,
/// and the saved request it edits, each optional.
#[derive(Debug, PartialEq, Eq)]
pub struct RequestTabAssociation {
    pub folder_id: Option<String>,
    pub collection_id: Option<String>,
    pub saved_request_id: Option<String>,
}

/// One open request tab: its current definition and title, the saved state
/// they are compared with, where it belongs, and its group.
#[derive(Debug, PartialEq, Eq)]
pub struct RequestTabRecord {
    pub id: RequestTabId,
    pub title: String,
    pub template: RequestTemplate,
    pub baseline_title: String,
    pub baseline_template: RequestTemplate,
    pub association: RequestTabAssociation,
    pub detached: bool,
    pub group_id: Option<RequestTabGroupId>,
}

/// The open request tabs, the active one, and the tab groups.
#[derive(Debug, PartialEq, Eq)]
pub struct RequestTabs {
    pub tabs: Vec<RequestTabRecord>,
    pub active: usize,
    pub groups: Vec<RequestTabGroup>,
}

/// What a tab opened for a saved request reports: its identity, and whether
/// a tab already open for that request was reused.
#[derive(Clone, Copy, Debug, PartialEq, Eq, Structural)]
pub struct OpenedTab {
    pub tab_id: RequestTabId,
    pub reused: bool,
}

/// The content of an association: folder, collection, saved request.
pub type AssociationView = (Option<Seq<char>>, Option<Seq<char>>, Option<Seq<char>>);

/// The content of a tab group: identity, title, colour, collapsed.
pub type GroupView = (RequestTabGroupId, Seq<char>, RequestTabGroupColor, bool);

/// The content of a tab.
pub struct TabView {
    pub id: RequestTabId,
    pub title: Seq<char>,
    pub template: TemplateView,
    pub baseline_title: Seq<char>,
    pub baseline_template: TemplateView,
    pub association: AssociationView,
    pub detached: bool,
    pub group_id: Option<RequestTabGroupId>,
}

/// The content of the open tabs.
pub struct TabsView {
    pub tabs: Seq<TabView>,
    pub active: nat,
    pub groups: Seq<GroupView>,
}

impl View for RequestTabAssociation {
    type V = AssociationView;

    open spec fn view(&self) -> AssociationView {
        (opt_view(self.folder_id), opt_view(self.collection_id), opt_view(self.saved_request_id))
    }
}

impl View for RequestTabGroup {
    type V = GroupView;

    open spec fn view(&self) -> GroupView {
        (self.id, self.title@, self.color, self.collapsed)
    }
}

impl View for RequestTabRecord {
    type V = TabView;

    open spec fn view(&self) -> TabView {
        TabView {
            id: self.id,
            title: self.title@,
            template: self.template@,
            baseline_title: self.baseline_title@,
            baseline_template: self.baseline_template@,
            association: self.association@,
            detached: self.detached,
            group_id: self.group_id,
        }
    }
}

impl View for RequestTabs {
    type V = TabsView;

    open spec fn view(&self) -> TabsView {
        TabsView {
            tabs: self.tabs@.map_values(|t: RequestTabRecord| t@),
            active: self.active as nat,
            groups: self.groups@.map_values(|g: RequestTabGroup| g@),
        }
    }
}

impl TabView {
    /// A tab is dirty when it lost its saved request or its definition differs
    /// from the saved one.
    pub open spec fn dirty(self) -> bool {
        self.detached || self.template != self.baseline_template
    }
}

fn clone_opt(o: &Option<String>) -> (r: Option<String>)
    ensures
        opt_view(r) == opt_view(*o),
{
    match o {
        Some(s) => Some(s.clone()),
        None => None,
    }
}

fn opt_str(o: &Option<String>) -> (r: Option<&str>)
    ensures
        match r {
            Some(s) => opt_view(*o) == Some(s@),
            None => o is None,
        },
{
    match o {
        Some(s) => Some(s.as_str()),
        None => None,
    }
}

fn same_opt(a: &Option<String>, b: &Option<String>) -> (r: bool)
    ensures
        r == (opt_view(*a) == opt_view(*b)),
{
    match (a, b) {
        (Some(x), Some(y)) => *x == *y,
        (None, None) => true,
        _ => false,
    }
}

impl RequestTabAssociation {
    pub fn new(folder_id: Option<String>, collection_id: Option<String>, saved_request_id: Option<String>) -> (a: RequestTabAssociation)
        ensures
            a.folder_id == folder_id,
            a.collection_id == collection_id,
            a.saved_request_id == saved_request_id,
    {
        RequestTabAssociation { folder_id, collection_id, saved_request_id }
    }

    pub fn folder_id(&self) -> (r: Option<&str>)
        ensures
            match r {
                Some(s) => self@.0 == Some(s@),
                None => self@.0 is None,
            },
    {
        opt_str(&self.folder_id)
    }

    pub fn collection_id(&self) -> (r: Option<&str>)
        ensures
            match r {
                Some(s) => self@.1 == Some(s@),
                None => self@.1 is None,
            },
    {
        opt_str(&self.collection_id)
    }

    pub fn saved_request_id(&self) -> (r: Option<&str>)
        ensures
            match r {
                Some(s) => self@.2 == Some(s@),
                None => self@.2 is None,
            },
    {
        opt_str(&self.saved_request_id)
    }

    /// Whether two associations name the same places.
    pub fn same_as(&self, other: &RequestTabAssociation) -> (r: bool)
        ensures
            r == (self@ == other@),
    {
        same_opt(&self.folder_id, &other.folder_id) && same_opt(
            &self.collection_id,
            &other.collection_id,
        ) && same_opt(&self.saved_request_id, &other.saved_request_id)
    }
}

impl Default for RequestTabAssociation {
    fn default() -> (a: RequestTabAssociation)
        ensures
            a@ == (None::<Seq<char>>, None::<Seq<char>>, None::<Seq<char>>),
    {
        RequestTabAssociation { folder_id: None, collection_id: None, saved_request_id: None }
    }
}

impl Clone for RequestTabAssociation {
    fn clone(&self) -> (r: Self)
        ensures
            r@ == self@,
    {
        RequestTabAssociation {
            folder_id: clone_opt(&self.folder_id),
            collection_id: clone_opt(&self.collection_id),
            saved_request_id: clone_opt(&self.saved_request_id),
        }
    }
}

impl Clone for RequestTabGroup {
    fn clone(&self) -> (r: Self)
        ensures
            r == *self,
    {
        RequestTabGroup {
            id: self.id,
            title: self.title.clone(),
            color: self.color,
            collapsed: self.collapsed,
        }
    }
}

impl Clone for RequestTabRecord {
    fn clone(&self) -> (r: Self)
        ensures
            r@ == self@,
    {
        RequestTabRecord {
            id: self.id,
            title: self.title.clone(),
            template: self.template.clone(),
            baseline_title: self.baseline_title.clone(),
            baseline_template: self.baseline_template.clone(),
            association: self.association.clone(),
            detached: self.detached,
            group_id: self.group_id,
        }
    }
}

impl RequestTabGroup {
    pub fn id(&self) -> (r: &RequestTabGroupId)
        ensures
            *r == self.id,
    {
        &self.id
    }

    /// The title shown on the group's chip.
    pub fn display_title(&self) -> (r: &str)
        ensures
            r@ == self.title@,
    {
        self.title.as_str()
    }

    pub fn color(&self) -> (r: RequestTabGroupColor)
        ensures
            r == self.color,
    {
        self.color
    }

    pub fn is_collapsed(&self) -> (r: bool)
        ensures
            r == self.collapsed,
    {
        self.collapsed
    }
}

impl RequestTabRecord {
    /// A tab whose definition is also its saved state.
    fn fresh(title: &str, template: RequestTemplate, association: RequestTabAssociation) -> (t: RequestTabRecord)
        ensures
            t@.title == title@,
            t@.baseline_title == title@,
            t@.template == template@,
            t@.baseline_template == template@,
            t@.association == association@,
            !t.detached,
            t.group_id is None,
    {
        RequestTabRecord {
            id: RequestTabId(random_u64()),
            title: owned(title),
            baseline_title: owned(title),
            baseline_template: template.clone(),
            template,
            association,
            detached: false,
            group_id: None,
        }
    }

    pub fn id(&self) -> (r: &RequestTabId)
        ensures
            *r == self.id,
    {
        &self.id
    }

    pub fn title(&self) -> (r: &str)
        ensures
            r@ == self.title@,
    {
        self.title.as_str()
    }

    pub fn template(&self) -> (r: &RequestTemplate)
        ensures
            *r == self.template,
    {
        &self.template
    }

    pub fn baseline_title(&self) -> (r: &str)
        ensures
            r@ == self.baseline_title@,
    {
        self.baseline_title.as_str()
    }

    pub fn baseline_template(&self) -> (r: &RequestTemplate)
        ensures
            *r == self.baseline_template,
    {
        &self.baseline_template
    }

    pub fn association(&self) -> (r: &RequestTabAssociation)
        ensures
            *r == self.association,
    {
        &self.association
    }

    pub fn is_detached(&self) -> (r: bool)
        ensures
            r == self.detached,
    {
        self.detached
    }

    /// Whether the tab holds changes that are not saved.
    pub fn is_dirty(&self) -> (r: bool)
        ensures
            r == self@.dirty(),
    {
        self.detached || !same_template(&self.template, &self.baseline_template)
    }

    pub fn group_id(&self) -> (r: Option<&RequestTabGroupId>)
        ensures
            match r {
                Some(g) => self.group_id == Some(*g),
                None => self.group_id is None,
            },
    {
        match &self.group_id {
            Some(g) => Some(g),
            None => None,
        }
    }

    /// Replaces the tab's current definition; its saved state is unchanged.
    pub fn set_template(&mut self, template: RequestTemplate)
        ensures
            final(self)@ == (TabView { template: template@, ..old(self)@ }),
    {
        self.template = template;
    }
}

impl RequestTabs {
    /// There is always an active tab.
    pub open spec fn wf(&self) -> bool {
        0 <= self.active < self.tabs@.len()
    }

    /// The position of the first tab with this identity.
    pub open spec fn position_of(&self, id: RequestTabId) -> Option<int> {
        if exists|k: int| 0 <= k < self.tabs@.len() && (#[trigger] self.tabs@[k]).id == id {
            Some(
                choose|k: int|
                    0 <= k < self.tabs@.len() && (#[trigger] self.tabs@[k]).id == id && forall|
                        m: int,
                    |
                        0 <= m < k ==> (#[trigger] self.tabs@[m]).id != id,
            )
        } else {
            None
        }
    }

    /// The position of the first group with this identity.
    pub open spec fn group_position(&self, id: RequestTabGroupId) -> Option<int> {
        if exists|k: int| 0 <= k < self.groups@.len() && (#[trigger] self.groups@[k]).id == id {
            Some(
                choose|k: int|
                    0 <= k < self.groups@.len() && (#[trigger] self.groups@[k]).id == id && forall|
                        m: int,
                    |
                        0 <= m < k ==> (#[trigger] self.groups@[m]).id != id,
            )
        } else {
            None
        }
    }

    /// One blank tab, active, and no groups.
    pub fn new() -> (r: RequestTabs)
        ensures
            r.wf(),
            r.tabs@.len() == 1,
            r.active == 0,
            r.groups@.len() == 0,
            r.tabs@[0]@.title == default_tab_title(),
            r.tabs@[0]@.association == (None::<Seq<char>>, None::<Seq<char>>, None::<Seq<char>>),
            !r.tabs@[0]@.dirty(),
    {
        let mut tabs = Vec::new();
        tabs.push(
            RequestTabRecord::fresh(
                "Untitled request",
                RequestTemplate::blank(),
                RequestTabAssociation::default(),
            ),
        );
        RequestTabs { tabs, active: 0, groups: Vec::new() }
    }

    pub fn tabs(&self) -> (r: &Vec<RequestTabRecord>)
        ensures
            *r == self.tabs,
    {
        &self.tabs
    }

    pub fn groups(&self) -> (r: &Vec<RequestTabGroup>)
        ensures
            *r == self.groups,
    {
        &self.groups
    }

    pub fn active(&self) -> (r: &RequestTabRecord)
        requires
            self.wf(),
        ensures
            *r == self.tabs@[self.active as int],
    {
        &self.tabs[self.active]
    }

    pub fn active_tab_id(&self) -> (r: &RequestTabId)
        requires
            self.wf(),
        ensures
            *r == self.tabs@[self.active as int].id,
    {
        &self.tabs[self.active].id
    }

    /// The position of the first tab with this identity.
    pub fn find(&self, id: &RequestTabId) -> (r: Option<usize>)
        ensures
            match r {
                Some(k) => self.position_of(*id) == Some(k as int) && k < self.tabs@.len(),
                None => self.position_of(*id) is None,
            },
    {
        let mut k: usize = 0;
        while k < self.tabs.len()
            invariant
                0 <= k <= self.tabs@.len(),
                forall|m: int| 0 <= m < k ==> (#[trigger] self.tabs@[m]).id != *id,
            decreases self.tabs@.len() - k,
        {
            if self.tabs[k].id == *id {
                proof {
                    let p = self.position_of(*id)->0;
                    assert(0 <= p < self.tabs@.len() && self.tabs@[p].id == *id);
                    if p < k {
                        assert(self.tabs@[p].id != *id);
                    }
                    if (k as int) < p {
                        assert(self.tabs@[k as int].id != *id);
                    }
                }
                return Some(k);
            }
            k = k + 1;
        }
        None
    }

    /// The first tab with this identity.
    pub fn get(&self, id: &RequestTabId) -> (r: Option<&RequestTabRecord>)
        ensures
            match self.position_of(*id) {
                Some(k) => r == Some(&self.tabs@[k]),
                None => r is None,
            },
    {
        match self.find(id) {
            Some(k) => Some(&self.tabs[k]),
            None => None,
        }
    }

    /// The position of the first group with this identity.
    pub fn find_group(&self, id: &RequestTabGroupId) -> (r: Option<usize>)
        ensures
            match r {
                Some(k) => self.group_position(*id) == Some(k as int) && k < self.groups@.len(),
                None => self.group_position(*id) is None,
            },
    {
        let mut k: usize = 0;
        while k < self.groups.len()
            invariant
                0 <= k <= self.groups@.len(),
                forall|m: int| 0 <= m < k ==> (#[trigger] self.groups@[m]).id != *id,
            decreases self.groups@.len() - k,
        {
            if self.groups[k].id == *id {
                proof {
                    let p = self.group_position(*id)->0;
                    assert(0 <= p < self.groups@.len() && self.groups@[p].id == *id);
                    if p < k {
                        assert(self.groups@[p].id != *id);
                    }
                    if (k as int) < p {
                        assert(self.groups@[k as int].id != *id);
                    }
                }
                return Some(k);
            }
            k = k + 1;
        }
        None
    }

    /// The first group with this identity.
    pub fn group(&self, id: &RequestTabGroupId) -> (r: Option<&RequestTabGroup>)
        ensures
            match self.group_position(*id) {
                Some(k) => r == Some(&self.groups@[k]),
                None => r is None,
            },
    {
        match self.find_group(id) {
            Some(k) => Some(&self.groups[k]),
            None => None,
        }
    }

    fn push_active(&mut self, tab: RequestTabRecord)
        ensures
            final(self).tabs@ == old(self).tabs@.push(tab),
            final(self).active == old(self).tabs@.len(),
            final(self).groups == old(self).groups,
            final(self).wf(),
    {
        self.tabs.push(tab);
        self.active = self.tabs.len() - 1;
    }

    /// Opens a blank tab and makes it active.
    pub fn open_new(&mut self) -> (r: RequestTabId)
        ensures
            final(self).tabs@.drop_last() == old(self).tabs@,
            final(self).tabs@.last().id == r,
            final(self).tabs@.last()@.title == default_tab_title(),
            !final(self).tabs@.last()@.dirty(),
            final(self).tabs@.last()@.association == (None::<Seq<char>>, None::<Seq<char>>, None::<Seq<char>>),
            final(self).tabs@.last().group_id is None,
            final(self).active == old(self).tabs@.len(),
            final(self).groups == old(self).groups,
            final(self).wf(),
    {
        let tab = RequestTabRecord::fresh(
            "Untitled request",
            RequestTemplate::blank(),
            RequestTabAssociation::default(),
        );
        let id = tab.id;
        self.push_active(tab);
        assert(self.tabs@.drop_last() =~= old(self).tabs@);
        id
    }

    /// Opens a tab for a definition that is not saved yet and makes it active.
    pub fn open_unsaved(&mut self, title: &str, template: RequestTemplate, association: RequestTabAssociation) -> (r: RequestTabId)
        ensures
            final(self).tabs@.drop_last() == old(self).tabs@,
            final(self).tabs@.last().id == r,
            final(self).tabs@.last()@.title == title@,
            final(self).tabs@.last()@.baseline_title == title@,
            final(self).tabs@.last()@.template == template@,
            final(self).tabs@.last()@.baseline_template == template@,
            final(self).tabs@.last()@.association == association@,
            !final(self).tabs@.last().detached,
            final(self).tabs@.last().group_id is None,
            final(self).active == old(self).tabs@.len(),
            final(self).groups == old(self).groups,
            final(self).wf(),
    {
        let tab = RequestTabRecord::fresh(title, template, association);
        let id = tab.id;
        self.push_active(tab);
        assert(self.tabs@.drop_last() =~= old(self).tabs@);
        id
    }

    /// Opens a tab for a saved request and makes it active. A tab already open
    /// for the same saved request is activated instead.
    pub fn open_saved(&mut self, title: &str, template: RequestTemplate, association: RequestTabAssociation) -> (r: OpenedTab)
        ensures
            final(self).wf(),
            final(self).groups == old(self).groups,
            r.reused ==> {
                &&& final(self).tabs == old(self).tabs
                &&& association@.2 is Some
                &&& final(self).tabs@[final(self).active as int]@.association.2 == association@.2
                &&& final(self).tabs@[final(self).active as int].id == r.tab_id
            },
            !r.reused ==> {
                &&& association@.2 is None || forall|k: int|
                    0 <= k < old(self).tabs@.len() ==> (#[trigger] old(self).tabs@[k])@.association.2
                        != association@.2
                &&& final(self).tabs@.drop_last() == old(self).tabs@
                &&& final(self).tabs@.last().id == r.tab_id
                &&& final(self).tabs@.last()@.title == title@
                &&& final(self).tabs@.last()@.baseline_title == title@
                &&& final(self).tabs@.last()@.template == template@
                &&& final(self).tabs@.last()@.baseline_template == template@
                &&& final(self).tabs@.last()@.association == association@
                &&& !final(self).tabs@.last().detached
                &&& final(self).tabs@.last().group_id is None
                &&& final(self).active == old(self).tabs@.len()
            },
    {
        if let Some(saved) = &association.saved_request_id {
            let mut k: usize = 0;
            while k < self.tabs.len()
                invariant
                    *self == *old(self),
                    0 <= k <= self.tabs@.len(),
                    association.saved_request_id == Some(*saved),
                    forall|m: int|
                        0 <= m < k ==> (#[trigger] self.tabs@[m])@.association.2 != Some(saved@),
                decreases self.tabs@.len() - k,
            {
                let same = match &self.tabs[k].association.saved_request_id {
                    Some(other) => *other == *saved,
                    None => false,
                };
                if same {
                    self.active = k;
                    return OpenedTab { tab_id: self.tabs[k].id, reused: true };
                }
                k = k + 1;
            }
        }
        let id = self.open_unsaved(title, template, association);
        OpenedTab { tab_id: id, reused: false }
    }

    /// Replaces the definition of the active tab.
    pub fn set_active_template(&mut self, template: RequestTemplate)
        requires
            old(self).wf(),
        ensures
            final(self).wf(),
            final(self).active == old(self).active,
            final(self).groups == old(self).groups,
            final(self)@.tabs == old(self)@.tabs.update(
                old(self).active as int,
                TabView { template: template@, ..old(self)@.tabs[old(self).active as int] },
            ),
    {
        let k = self.active;
        let mut tab = RequestTabRecord::fresh("", RequestTemplate::blank(), RequestTabAssociation::default());
        self.tabs.set_and_swap(k, &mut tab);
        tab.set_template(template);
        self.tabs.set(k, tab);
        assert(self@.tabs =~= old(self)@.tabs.update(
            old(self).active as int,
            TabView { template: template@, ..old(self)@.tabs[old(self).active as int] },
        ));
    }

    /// Gives the tab at a position a new association, and marks it detached
    /// when asked to; reports whether either changed.
    pub fn repair_association_at(&mut self, k: usize, association: RequestTabAssociation, mark_detached: bool) -> (changed: bool)
        requires
            k < old(self).tabs@.len(),
        ensures
            final(self).tabs@.len() == old(self).tabs@.len(),
            final(self).active == old(self).active,
            final(self).groups == old(self).groups,
            final(self)@.tabs == old(self)@.tabs.update(
                k as int,
                TabView {
                    association: association@,
                    detached: old(self)@.tabs[k as int].detached || mark_detached,
                    ..old(self)@.tabs[k as int]
                },
            ),
            changed == (old(self)@.tabs[k as int].association != association@ || (mark_detached
                && !old(self)@.tabs[k as int].detached)),
    {
        let mut tab = RequestTabRecord::fresh("", RequestTemplate::blank(), RequestTabAssociation::default());
        self.tabs.set_and_swap(k, &mut tab);
        let changed = !tab.association.same_as(&association) || (mark_detached && !tab.detached);
        tab.association = association;
        if mark_detached {
            tab.detached = true;
        }
        self.tabs.set(k, tab);
        assert(self@.tabs =~= old(self)@.tabs.update(
            k as int,
            TabView {
                association: association@,
                detached: old(self)@.tabs[k as int].detached || mark_detached,
                ..old(self)@.tabs[k as int]
            },
        ));
        changed
    }

    /// Gives the first tab with this identity a new association (see
    /// `repair_association_at`); false when there is no such tab.
    pub fn repair_association(&mut self, id: &RequestTabId, association: RequestTabAssociation, mark_detached: bool) -> (changed: bool)
        ensures
            match old(self).position_of(*id) {
                None => !changed && *final(self) == *old(self),
                Some(k) => {
                    &&& 0 <= k < old(self).tabs@.len()
                    &&& final(self).active == old(self).active
                    &&& final(self).groups == old(self).groups
                    &&& final(self)@.tabs == old(self)@.tabs.update(
                        k,
                        TabView {
                            association: association@,
                            detached: old(self)@.tabs[k].detached || mark_detached,
                            ..old(self)@.tabs[k]
                        },
                    )
                    &&& changed == (old(self)@.tabs[k].association != association@ || (
                    mark_detached && !old(self)@.tabs[k].detached))
                },
            },
    {
        match self.find(id) {
            Some(k) => self.repair_association_at(k, association, mark_detached),
            None => false,
        }
    }

    /// Records that the tab at a position now matches a saved request: its
    /// saved title and definition, its association, and no longer detached.
    /// The visible title follows the new name unless it was renamed.
    pub fn mark_tab_saved_at(&mut self, k: usize, previous_title: &str, name: &str, association: RequestTabAssociation, definition: RequestTemplate)
        requires
            k < old(self).tabs@.len(),
        ensures
            final(self).tabs@.len() == old(self).tabs@.len(),
            final(self).active == old(self).active,
            final(self).groups == old(self).groups,
            final(self)@.tabs == old(self)@.tabs.update(
                k as int,
                TabView {
                    title: if old(self)@.tabs[k as int].title == previous_title@ {
                        name@
                    } else {
                        old(self)@.tabs[k as int].title
                    },
                    baseline_title: name@,
                    baseline_template: definition@,
                    association: association@,
                    detached: false,
                    ..old(self)@.tabs[k as int]
                },
            ),
    {
        let mut tab = RequestTabRecord::fresh("", RequestTemplate::blank(), RequestTabAssociation::default());
        self.tabs.set_and_swap(k, &mut tab);
        if str_eq(tab.title.as_str(), previous_title) {
            tab.title = owned(name);
        }
        tab.baseline_title = owned(name);
        tab.baseline_template = definition;
        tab.association = association;
        tab.detached = false;
        self.tabs.set(k, tab);
        assert(self@.tabs =~= old(self)@.tabs.update(
            k as int,
            TabView {
                title: if old(self)@.tabs[k as int].title == previous_title@ {
                    name@
                } else {
                    old(self)@.tabs[k as int].title
                },
                baseline_title: name@,
                baseline_template: definition@,
                association: association@,
                detached: false,
                ..old(self)@.tabs[k as int]
            },
        ));
    }

    /// Replaces the definition of the tab at a position.
    pub fn set_template_at(&mut self, k: usize, template: RequestTemplate)
        requires
            k < old(self).tabs@.len(),
        ensures
            final(self).tabs@.len() == old(self).tabs@.len(),
            final(self).active == old(self).active,
            final(self).groups == old(self).groups,
            final(self)@.tabs == old(self)@.tabs.update(
                k as int,
                TabView { template: template@, ..old(self)@.tabs[k as int] },
            ),
    {
        let mut tab = RequestTabRecord::fresh("", RequestTemplate::blank(), RequestTabAssociation::default());
        self.tabs.set_and_swap(k, &mut tab);
        tab.set_template(template);
        self.tabs.set(k, tab);
        assert(self@.tabs =~= old(self)@.tabs.update(
            k as int,
            TabView { template: template@, ..old(self)@.tabs[k as int] },
        ));
    }
}

impl Default for RequestTabs {
    fn default() -> (r: RequestTabs)
        ensures
            r.wf(),
            r.tabs@.len() == 1,
            r.groups@.len() == 0,
    {
        RequestTabs::new()
    }
}

impl Clone for RequestTabs {
    fn clone(&self) -> (r: Self)
        ensures
            r@ == self@,
    {
        let tabs = self.tabs.clone();
        let groups = self.groups.clone();
        proof {
            assert forall|k: int| 0 <= k < tabs@.len() implies tabs@[k]@ == self.tabs@[k]@ by {
                assert(cloned::<RequestTabRecord>(self.tabs@[k], tabs@[k]));
            }
            assert(tabs@.map_values(|t: RequestTabRecord| t@) =~= self.tabs@.map_values(
                |t: RequestTabRecord| t@,
            ));
            assert(groups@ =~= self.groups@);
        }
        RequestTabs { tabs, active: self.active, groups }
    }
}

fn same_group(a: &RequestTabGroup, b: &RequestTabGroup) -> (r: bool)
    ensures
        r == (a@ == b@),
{
    a.id == b.id && a.title == b.title && a.color == b.color && a.collapsed == b.collapsed
}

fn same_record(a: &RequestTabRecord, b: &RequestTabRecord) -> (r: bool)
    ensures
        r == (a@ == b@),
{
    a.id == b.id && a.title == b.title && same_template(&a.template, &b.template)
        && a.baseline_title == b.baseline_title && same_template(
        &a.baseline_template,
        &b.baseline_template,
    ) && a.association.same_as(&b.association) && a.detached == b.detached && a.group_id
        == b.group_id
}

/// Whether two sets of open tabs have the same content.
pub fn same_tabs(a: &RequestTabs, b: &RequestTabs) -> (r: bool)
    ensures
        r == (a@ == b@),
{
    if a.active != b.active || a.tabs.len() != b.tabs.len() || a.groups.len() != b.groups.len() {
        assert(a@.tabs.len() == a.tabs@.len() && b@.tabs.len() == b.tabs@.len());
        assert(a@.groups.len() == a.groups@.len() && b@.groups.len() == b.groups@.len());
        return false;
    }
    let mut k: usize = 0;
    while k < a.tabs.len()
        invariant
            a.tabs@.len() == b.tabs@.len(),
            0 <= k <= a.tabs@.len(),
            forall|m: int| 0 <= m < k ==> a@.tabs[m] == b@.tabs[m],
        decreases a.tabs@.len() - k,
    {
        if !same_record(&a.tabs[k], &b.tabs[k]) {
            assert(a@.tabs[k as int] != b@.tabs[k as int]);
            return false;
        }
        k = k + 1;
    }
    let mut g: usize = 0;
    while g < a.groups.len()
        invariant
            a.groups@.len() == b.groups@.len(),
            0 <= g <= a.groups@.len(),
            forall|m: int| 0 <= m < g ==> a@.groups[m] == b@.groups[m],
        decreases a.groups@.len() - g,
    {
        if !same_group(&a.groups[g], &b.groups[g]) {
            assert(a@.groups[g as int] != b@.groups[g as int]);
            return false;
        }
        g = g + 1;
    }
    assert(a@.tabs =~= b@.tabs);
    assert(a@.groups =~= b@.groups);
    true
}

impl RequestTabs {
    pub(crate) fn set_group_at(&mut self, k: usize, group: Option<RequestTabGroupId>)
        requires
            k < old(self).tabs@.len(),
        ensures
            final(self).tabs@.len() == old(self).tabs@.len(),
            final(self).active == old(self).active,
            final(self).groups == old(self).groups,
            final(self)@.tabs == old(self)@.tabs.update(
                k as int,
                TabView { group_id: group, ..old(self)@.tabs[k as int] },
            ),
    {
        let mut tab = RequestTabRecord::fresh("", RequestTemplate::blank(), RequestTabAssociation::default());
        self.tabs.set_and_swap(k, &mut tab);
        tab.group_id = group;
        self.tabs.set(k, tab);
        assert(self@.tabs =~= old(self)@.tabs.update(
            k as int,
            TabView { group_id: group, ..old(self)@.tabs[k as int] },
        ));
    }

    fn replace_group_at(&mut self, k: usize, group: RequestTabGroup)
        requires
            k < old(self).groups@.len(),
        ensures
            final(self).groups@.len() == old(self).groups@.len(),
            final(self).active == old(self).active,
            final(self).tabs == old(self).tabs,
            final(self)@.groups == old(self)@.groups.update(k as int, group@),
    {
        self.groups.set(k, group);
        assert(self@.groups =~= old(self)@.groups.update(k as int, group@));
    }

    /// Collapses or expands a group; reports whether it changed.
    pub fn set_group_collapsed(&mut self, id: &RequestTabGroupId, collapsed: bool) -> (changed: bool)
        ensures
            final(self).tabs == old(self).tabs,
            final(self).active == old(self).active,
            match old(self).group_position(*id) {
                None => !changed && final(self).groups == old(self).groups,
                Some(k) => {
                    &&& 0 <= k < old(self).groups@.len()
                    &&& changed == (old(self)@.groups[k].3 != collapsed)
                    &&& final(self)@.groups == old(self)@.groups.update(
                        k,
                        (old(self)@.groups[k].0, old(self)@.groups[k].1, old(self)@.groups[k].2, collapsed),
                    )
                },
            },
    {
        let Some(k) = self.find_group(id) else {
            return false;
        };
        let changed = self.groups[k].collapsed != collapsed;
        let group = RequestTabGroup {
            id: self.groups[k].id,
            title: self.groups[k].title.clone(),
            color: self.groups[k].color,
            collapsed,
        };
        self.replace_group_at(k, group);
        changed
    }

    /// Renames a group; reports whether it changed.
    pub fn rename_group(&mut self, id: &RequestTabGroupId, title: String) -> (changed: bool)
        ensures
            final(self).tabs == old(self).tabs,
            final(self).active == old(self).active,
            match old(self).group_position(*id) {
                None => !changed && final(self).groups == old(self).groups,
                Some(k) => {
                    &&& 0 <= k < old(self).groups@.len()
                    &&& changed == (old(self)@.groups[k].1 != title@)
                    &&& final(self)@.groups == old(self)@.groups.update(
                        k,
                        (old(self)@.groups[k].0, title@, old(self)@.groups[k].2, old(self)@.groups[k].3),
                    )
                },
            },
    {
        let Some(k) = self.find_group(id) else {
            return false;
        };
        let changed = !(self.groups[k].title == title);
        let group = RequestTabGroup {
            id: self.groups[k].id,
            title,
            color: self.groups[k].color,
            collapsed: self.groups[k].collapsed,
        };
        self.replace_group_at(k, group);
        changed
    }

    /// Recolours a group; reports whether it changed.
    pub fn set_group_color(&mut self, id: &RequestTabGroupId, color: RequestTabGroupColor) -> (changed: bool)
        ensures
            final(self).tabs == old(self).tabs,
            final(self).active == old(self).active,
            match old(self).group_position(*id) {
                None => !changed && final(self).groups == old(self).groups,
                Some(k) => {
                    &&& 0 <= k < old(self).groups@.len()
                    &&& changed == (old(self)@.groups[k].2 != color)
                    &&& final(self)@.groups == old(self)@.groups.update(
                        k,
                        (old(self)@.groups[k].0, old(self)@.groups[k].1, color, old(self)@.groups[k].3),
                    )
                },
            },
    {
        let Some(k) = self.find_group(id) else {
            return false;
        };
        let changed = self.groups[k].color != color;
        let group = RequestTabGroup {
            id: self.groups[k].id,
            title: self.groups[k].title.clone(),
            color,
            collapsed: self.groups[k].collapsed,
        };
        self.replace_group_at(k, group);
        changed
    }

    /// Puts a tab in a group, or takes it out with `None`; the group must
    /// exist. Reports whether the tab changed.
    pub fn set_tab_group(&mut self, tab_id: &RequestTabId, group: Option<&RequestTabGroupId>) -> (changed: bool)
        ensures
            final(self).groups == old(self).groups,
            final(self).active == old(self).active,
            final(self).tabs@.len() == old(self).tabs@.len(),
            match (old(self).position_of(*tab_id), group) {
                (None, _) => !changed && final(self)@ == old(self)@,
                (Some(k), Some(g)) => if old(self).group_position(*g) is None {
                    !changed && final(self)@ == old(self)@
                } else {
                    &&& changed == (old(self)@.tabs[k].group_id != Some(*g))
                    &&& final(self)@.tabs == old(self)@.tabs.update(
                        k,
                        TabView { group_id: Some(*g), ..old(self)@.tabs[k] },
                    )
                },
                (Some(k), None) => {
                    &&& changed == (old(self)@.tabs[k].group_id is Some)
                    &&& final(self)@.tabs == old(self)@.tabs.update(
                        k,
                        TabView { group_id: None, ..old(self)@.tabs[k] },
                    )
                },
            },
    {
        let Some(k) = self.find(tab_id) else {
            return false;
        };
        assert(self@.tabs[k as int] == self.tabs@[k as int]@);
        let target = match group {
            Some(g) => {
                if self.find_group(g).is_none() {
                    return false;
                }
                Some(*g)
            },
            None => None,
        };
        let changed = self.tabs[k].group_id != target;
        self.set_group_at(k, target);
        changed
    }

    /// Creates a group holding one tab and gives back its identity; `None`
    /// when there is no such tab.
    pub fn create_group_for_tab(&mut self, tab_id: &RequestTabId, title: String, color: RequestTabGroupColor) -> (r: Option<RequestTabGroupId>)
        ensures
            final(self).active == old(self).active,
            final(self).tabs@.len() == old(self).tabs@.len(),
            match old(self).position_of(*tab_id) {
                None => r is None && final(self)@ == old(self)@,
                Some(k) => {
                    &&& 0 <= k < old(self).tabs@.len()
                    &&& r is Some
                    &&& final(self)@.groups == old(self)@.groups.push((r->0, title@, color, false))
                    &&& final(self)@.tabs == old(self)@.tabs.update(
                        k,
                        TabView { group_id: Some(r->0), ..old(self)@.tabs[k] },
                    )
                },
            },
    {
        let Some(k) = self.find(tab_id) else {
            return None;
        };
        let id = RequestTabGroupId(random_u64());
        let ghost title_view = title@;
        self.groups.push(RequestTabGroup { id, title, color, collapsed: false });
        assert(self@.groups =~= old(self)@.groups.push((id, title_view, color, false)));
        self.set_group_at(k, Some(id));
        Some(id)
    }

    /// Removes a group; its tabs stay open outside any group. Reports whether
    /// the group existed.
    pub fn remove_group(&mut self, id: &RequestTabGroupId) -> (removed: bool)
        ensures
            final(self).active == old(self).active,
            final(self).tabs@.len() == old(self).tabs@.len(),
            match old(self).group_position(*id) {
                None => !removed && final(self)@ == old(self)@,
                Some(k) => {
                    &&& 0 <= k < old(self).groups@.len()
                    &&& removed
                    &&& final(self)@.groups == old(self)@.groups.remove(k)
                    &&& final(self)@.tabs == old(self)@.tabs.map_values(
                        |t: TabView| if t.group_id == Some(*id) {
                            TabView { group_id: None, ..t }
                        } else {
                            t
                        },
                    )
                },
            },
    {
        let Some(k) = self.find_group(id) else {
            return false;
        };
        let _ = self.groups.remove(k);
        assert(self@.groups =~= old(self)@.groups.remove(k as int));
        let ghost before = self@.tabs;
        let mut m: usize = 0;
        while m < self.tabs.len()
            invariant
                before == old(self)@.tabs,
                self@.groups == old(self)@.groups.remove(k as int),
                self.active == old(self).active,
                self.tabs@.len() == before.len(),
                self@.tabs.len() == before.len(),
                0 <= m <= before.len(),
                forall|j: int|
                    0 <= j < m ==> self@.tabs[j] == (if before[j].group_id == Some(*id) {
                        TabView { group_id: None, ..before[j] }
                    } else {
                        before[j]
                    }),
                forall|j: int| m <= j < before.len() ==> self@.tabs[j] == before[j],
            decreases before.len() - m,
        {
            assert(self@.tabs[m as int] == self.tabs@[m as int]@);
            if self.tabs[m].group_id == Some(*id) {
                self.set_group_at(m, None);
            }
            m = m + 1;
        }
        assert(self@.tabs =~= before.map_values(
            |t: TabView| if t.group_id == Some(*id) {
                TabView { group_id: None, ..t }
            } else {
                t
            },
        ));
        true
    }

    /// Opens a blank tab inside a group and makes it active; `None` when
    /// there is no such group.
    pub fn open_new_in_group(&mut self, id: &RequestTabGroupId) -> (r: Option<RequestTabId>)
        ensures
            final(self).groups == old(self).groups,
            old(self).group_position(*id) is None ==> r is None && final(self)@ == old(self)@,
            old(self).group_position(*id) is Some ==> {
                &&& r is Some
                &&& final(self).tabs@.drop_last() == old(self).tabs@
                &&& final(self).tabs@.last().id == r->0
                &&& final(self).tabs@.last()@.title == default_tab_title()
                &&& !final(self).tabs@.last()@.dirty()
                &&& final(self).tabs@.last().group_id == Some(*id)
                &&& final(self).active == old(self).tabs@.len()
                &&& final(self).wf()
            },
    {
        if self.find_group(id).is_none() {
            return None;
        }
        let tab = RequestTabRecord {
            group_id: Some(*id),
            ..RequestTabRecord::fresh(
                "Untitled request",
                RequestTemplate::blank(),
                RequestTabAssociation::default(),
            )
        };
        let tab_id = tab.id;
        self.push_active(tab);
        assert(self.tabs@.drop_last() =~= old(self).tabs@);
        Some(tab_id)
    }
}

proof fn lemma_first_tab(tabs: Seq<RequestTabRecord>, id: RequestTabId, j: int)
    requires
        0 <= j < tabs.len(),
        tabs[j].id == id,
    ensures
        exists|k: int|
            0 <= k < tabs.len() && (#[trigger] tabs[k]).id == id && forall|m: int|
                0 <= m < k ==> (#[trigger] tabs[m]).id != id,
    decreases j,
{
    if exists|m: int| 0 <= m < j && (#[trigger] tabs[m]).id == id {
        let m = choose|m: int| 0 <= m < j && (#[trigger] tabs[m]).id == id;
        lemma_first_tab(tabs, id, m);
    } else {
        assert(0 <= j < tabs.len() && tabs[j].id == id && forall|m: int|
            0 <= m < j ==> (#[trigger] tabs[m]).id != id);
    }
}

proof fn lemma_first_group(groups: Seq<RequestTabGroup>, id: RequestTabGroupId, j: int)
    requires
        0 <= j < groups.len(),
        groups[j].id == id,
    ensures
        exists|k: int|
            0 <= k < groups.len() && (#[trigger] groups[k]).id == id && forall|m: int|
                0 <= m < k ==> (#[trigger] groups[m]).id != id,
    decreases j,
{
    if exists|m: int| 0 <= m < j && (#[trigger] groups[m]).id == id {
        let m = choose|m: int| 0 <= m < j && (#[trigger] groups[m]).id == id;
        lemma_first_group(groups, id, m);
    } else {
        assert(0 <= j < groups.len() && groups[j].id == id && forall|m: int|
            0 <= m < j ==> (#[trigger] groups[m]).id != id);
    }
}

impl RequestTabs {
    /// The first tab with an identity is in range and has it.
    pub proof fn lemma_position_of(&self, id: RequestTabId)
        ensures
            match self.position_of(id) {
                Some(k) => 0 <= k < self.tabs@.len() && self.tabs@[k].id == id && self@.tabs[k].id == id,
                None => forall|k: int| 0 <= k < self.tabs@.len() ==> (#[trigger] self.tabs@[k]).id != id,
            },
    {
        if exists|k: int| 0 <= k < self.tabs@.len() && (#[trigger] self.tabs@[k]).id == id {
            let j = choose|k: int| 0 <= k < self.tabs@.len() && (#[trigger] self.tabs@[k]).id == id;
            lemma_first_tab(self.tabs@, id, j);
            let k = self.position_of(id)->0;
            assert(0 <= k < self.tabs@.len() && self.tabs@[k].id == id);
            assert(self@.tabs[k] == self.tabs@[k]@);
        }
    }

    /// The first group with an identity is in range and has it.
    pub proof fn lemma_group_position(&self, id: RequestTabGroupId)
        ensures
            match self.group_position(id) {
                Some(k) => 0 <= k < self.groups@.len() && self.groups@[k].id == id && self@.groups[k].0 == id,
                None => forall|k: int| 0 <= k < self.groups@.len() ==> (#[trigger] self.groups@[k]).id != id,
            },
    {
        if exists|k: int| 0 <= k < self.groups@.len() && (#[trigger] self.groups@[k]).id == id {
            let j = choose|k: int| 0 <= k < self.groups@.len() && (#[trigger] self.groups@[k]).id == id;
            lemma_first_group(self.groups@, id, j);
            let k = self.group_position(id)->0;
            assert(0 <= k < self.groups@.len() && self.groups@[k].id == id);
            assert(self@.groups[k] == self.groups@[k]@);
        }
    }

    /// Collapses or expands the group at a position.
    pub(crate) fn set_group_collapsed_at(&mut self, k: usize, collapsed: bool)
        requires
            k < old(self).groups@.len(),
        ensures
            final(self).tabs == old(self).tabs,
            final(self).active == old(self).active,
            final(self)@.groups == old(self)@.groups.update(
                k as int,
                (old(self)@.groups[k as int].0, old(self)@.groups[k as int].1, old(self)@.groups[k as int].2, collapsed),
            ),
    {
        let group = RequestTabGroup {
            id: self.groups[k].id,
            title: self.groups[k].title.clone(),
            color: self.groups[k].color,
            collapsed,
        };
        self.replace_group_at(k, group);
    }
}

impl RequestTabs {
    /// Renames the tab at a position.
    pub fn set_title_at(&mut self, k: usize, title: String)
        requires
            k < old(self).tabs@.len(),
        ensures
            final(self).tabs@.len() == old(self).tabs@.len(),
            final(self).active == old(self).active,
            final(self).groups == old(self).groups,
            final(self)@.tabs == old(self)@.tabs.update(
                k as int,
                TabView { title: title@, ..old(self)@.tabs[k as int] },
            ),
    {
        let ghost t = title@;
        let mut tab = RequestTabRecord::fresh("", RequestTemplate::blank(), RequestTabAssociation::default());
        self.tabs.set_and_swap(k, &mut tab);
        tab.title = title;
        self.tabs.set(k, tab);
        assert(self@.tabs =~= old(self)@.tabs.update(
            k as int,
            TabView { title: t, ..old(self)@.tabs[k as int] },
        ));
    }
}

} // verus!
