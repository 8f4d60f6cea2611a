use vstd::prelude::*;

use crate::api_tester::ApiTester;
use crate::request_model::RequestTemplate;
use crate::request_tabs::{
    GroupView, RequestTabAssociation, RequestTabGroupColor, RequestTabGroupId, TabView,
    default_tab_title,
};
use crate::text::{
    decimal, is_space, lemma_decimal_injective, lemma_trimmed_ends, owned, push_decimal_wide, push_str, str_eq, trim, trimmed,
};
use crate::workspace::opt_view;
use crate::workspace_tab::RequestTabId;

verus! {

/// The longest title a tab group keeps.
pub const MAX_TAB_GROUP_TITLE_CHARS: usize = 80;

/// The title typed for a group, without white space at either end and cut
/// to its first 80 characters; nothing when only white space was typed.
pub open spec fn group_title_of(value: Seq<char>) -> Option<Seq<char>> {
    let t = trimmed(value);
    if t.len() == 0 {
        None
    } else if t.len() <= 80 {
        Some(t)
    } else {
        Some(t.take(80))
    }
}

pub fn normalized_tab_group_title(value: &str) -> (r: Option<String>)
    ensures
        match r {
            Some(t) => group_title_of(value@) == Some(t@),
            None => group_title_of(value@) is None,
        },
{
    let title = trim(value);
    let n = title.unicode_len();
    if n == 0 {
        return None;
    }
    if n <= MAX_TAB_GROUP_TITLE_CHARS {
        Some(owned(title))
    } else {
        Some(owned(title.substring_char(0, MAX_TAB_GROUP_TITLE_CHARS)))
    }
}

/// A group title is never empty, at most 80 characters long, and does not
/// start with white space.
pub proof fn lemma_group_title_bounds(value: Seq<char>)
    ensures
        group_title_of(value) is Some ==> {
            let t = group_title_of(value)->0;
            &&& 1 <= t.len() <= 80
            &&& !is_space(t[0])
        },
{
    lemma_trimmed_ends(value);
}

/// The colours offered for a tab group, with their names.
pub fn request_tab_group_colors() -> (r: Vec<(&'static str, RequestTabGroupColor)>)
    ensures
        r@.len() == 9,
        r@[0].1 == RequestTabGroupColor::Gray && r@[0].0@ == "Gray"@,
        r@[1].1 == RequestTabGroupColor::Blue && r@[1].0@ == "Blue"@,
        r@[2].1 == RequestTabGroupColor::Cyan && r@[2].0@ == "Cyan"@,
        r@[3].1 == RequestTabGroupColor::Green && r@[3].0@ == "Green"@,
        r@[4].1 == RequestTabGroupColor::Yellow && r@[4].0@ == "Yellow"@,
        r@[5].1 == RequestTabGroupColor::Orange && r@[5].0@ == "Orange"@,
        r@[6].1 == RequestTabGroupColor::Red && r@[6].0@ == "Red"@,
        r@[7].1 == RequestTabGroupColor::Pink && r@[7].0@ == "Pink"@,
        r@[8].1 == RequestTabGroupColor::Purple && r@[8].0@ == "Purple"@,
{
    vec![
        ("Gray", RequestTabGroupColor::Gray),
        ("Blue", RequestTabGroupColor::Blue),
        ("Cyan", RequestTabGroupColor::Cyan),
        ("Green", RequestTabGroupColor::Green),
        ("Yellow", RequestTabGroupColor::Yellow),
        ("Orange", RequestTabGroupColor::Orange),
        ("Red", RequestTabGroupColor::Red),
        ("Pink", RequestTabGroupColor::Pink),
        ("Purple", RequestTabGroupColor::Purple),
    ]
}

/// The default title of the `n`th group.
pub open spec fn numbered_group_title(n: nat) -> Seq<char> {
    "Group "@ + decimal(n)
}

/// Some group already carries this title.
pub open spec fn group_title_taken(groups: Seq<GroupView>, title: Seq<char>) -> bool {
    exists|k: int| 0 <= k < groups.len() && (#[trigger] groups[k]).1 == title
}

/// The colour a new group gets: the eight accents in turn, by the number of
/// groups that exist.
pub open spec fn group_color_for_count(n: nat) -> RequestTabGroupColor {
    let r = n % 8;
    if r == 0 {
        RequestTabGroupColor::Purple
    } else if r == 1 {
        RequestTabGroupColor::Blue
    } else if r == 2 {
        RequestTabGroupColor::Cyan
    } else if r == 3 {
        RequestTabGroupColor::Green
    } else if r == 4 {
        RequestTabGroupColor::Yellow
    } else if r == 5 {
        RequestTabGroupColor::Orange
    } else if r == 6 {
        RequestTabGroupColor::Pink
    } else {
        RequestTabGroupColor::Red
    }
}

proof fn lemma_numbered_titles_differ(a: nat, b: nat)
    requires
        numbered_group_title(a) == numbered_group_title(b),
    ensures
        a == b,
{
    let p = "Group "@;
    assert(numbered_group_title(a).skip(p.len() as int) =~= decimal(a));
    assert(numbered_group_title(b).skip(p.len() as int) =~= decimal(b));
    lemma_decimal_injective(a, b);
}

/// Among the titles `Group n` for `n` from `start` to `start + len`, one is
/// free, since only `len` groups exist.
proof fn lemma_free_numbered_title(groups: Seq<GroupView>, start: nat)
    ensures
        exists|c: nat|
            c <= groups.len() && !group_title_taken(groups, #[trigger] numbered_group_title(start + c)),
{
    let values = Seq::new(
        groups.len(),
        |k: int|
            if exists|n: nat| groups[k].1 == numbered_group_title(n) {
                (choose|n: nat| groups[k].1 == numbered_group_title(n)) - start
            } else {
                -1
            },
    );
    if forall|c: nat| c <= groups.len() ==> group_title_taken(groups, #[trigger] numbered_group_title(start + c)) {
        assert forall|c: int| 0 <= c <= values.len() implies values.contains(c) by {
            assert(group_title_taken(groups, numbered_group_title(start + c as nat)));
            let k = choose|k: int|
                0 <= k < groups.len() && (#[trigger] groups[k]).1 == numbered_group_title(start + c as nat);
            let n = choose|n: nat| groups[k].1 == numbered_group_title(n);
            lemma_numbered_titles_differ(n, start + c as nat);
            assert(values[k] == c);
        }
        let range = vstd::set_lib::set_int_range(0, values.len() as int + 1);
        vstd::set_lib::lemma_int_range(0, values.len() as int + 1);
        values.lemma_cardinality_of_set();
        assert(range.subset_of(values.to_set())) by {
            assert forall|c: int| range.contains(c) implies values.to_set().contains(c) by {
                assert(values.contains(c));
            }
        }
        vstd::seq_lib::seq_to_set_is_finite(values);
        vstd::set_lib::lemma_len_subset(range, values.to_set());
        assert(false);
    }
}

fn title_taken(groups: &Vec<crate::request_tabs::RequestTabGroup>, title: &str) -> (r: bool)
    ensures
        r == group_title_taken(groups@.map_values(|g: crate::request_tabs::RequestTabGroup| g@), title@),
{
    let ghost views = groups@.map_values(|g: crate::request_tabs::RequestTabGroup| g@);
    let mut k: usize = 0;
    while k < groups.len()
        invariant
            views == groups@.map_values(|g: crate::request_tabs::RequestTabGroup| g@),
            0 <= k <= groups@.len(),
            forall|m: int| 0 <= m < k ==> (#[trigger] views[m]).1 != title@,
        decreases groups@.len() - k,
    {
        if str_eq(groups[k].display_title(), title) {
            assert(views[k as int].1 == title@);
            return true;
        }
        k = k + 1;
    }
    false
}

impl ApiTester {
    /// Expands the group of a tab; reports whether a collapsed group opened.
    pub fn expand_request_tab_group_for(&mut self, tab_id: &RequestTabId) -> (changed: bool)
        ensures
            final(self).request_tabs.tabs == old(self).request_tabs.tabs,
            final(self).request_tabs.active == old(self).request_tabs.active,
            final(self).workspace == old(self).workspace,
            match old(self).request_tabs.position_of(*tab_id) {
                None => !changed && final(self).request_tabs.groups == old(self).request_tabs.groups,
                Some(k) => match old(self).request_tabs@.tabs[k].group_id {
                    None => !changed && final(self).request_tabs.groups == old(self).request_tabs.groups,
                    Some(g) => match old(self).request_tabs.group_position(g) {
                        None => !changed && final(self).request_tabs.groups == old(self).request_tabs.groups,
                        Some(p) => {
                            &&& changed == old(self).request_tabs@.groups[p].3
                            &&& !final(self).request_tabs@.groups[p].3
                        },
                    },
                },
            },
    {
        let group = match self.request_tabs.find(tab_id) {
            Some(k) => {
                assert(self.request_tabs@.tabs[k as int] == self.request_tabs.tabs@[k as int]@);
                self.request_tabs.tabs[k].group_id
            },
            None => None,
        };
        match group {
            Some(g) => self.request_tabs.set_group_collapsed(&g, false),
            None => false,
        }
    }
}

impl ApiTester {
    /// The title offered for a new group: `Group n` for the smallest `n`,
    /// counting from one more than the number of groups, that no group uses.
    pub fn next_request_tab_group_title(&self) -> (r: String)
        ensures
            exists|n: nat|
                n >= self.request_tabs.groups@.len() + 1 && r@ == numbered_group_title(n)
                    && !group_title_taken(self.request_tabs@.groups, numbered_group_title(n))
                    && forall|m: nat|
                    self.request_tabs.groups@.len() + 1 <= m < n ==> group_title_taken(
                        self.request_tabs@.groups,
                        #[trigger] numbered_group_title(m),
                    ),
    {
        let groups = &self.request_tabs.groups;
        let ghost views = self.request_tabs@.groups;
        let start: u128 = groups.len() as u128 + 1;
        proof {
            lemma_free_numbered_title(views, start as nat);
        }
        let ghost free = choose|c: nat|
            c <= views.len() && !group_title_taken(views, #[trigger] numbered_group_title(start as nat + c));
        let mut index: u128 = start;
        loop
            invariant
                views == self.request_tabs@.groups,
                views == groups@.map_values(|g: crate::request_tabs::RequestTabGroup| g@),
                start == views.len() + 1,
                views.len() == groups@.len(),
                start <= 0x1_0000_0000_0000_0000u128,
                free <= views.len(),
                !group_title_taken(views, numbered_group_title(start as nat + free)),
                start <= index <= start + free,
                forall|m: nat|
                    start <= m < index ==> group_title_taken(views, #[trigger] numbered_group_title(m)),
            decreases start + free - index,
        {
            let mut candidate = owned("Group ");
            push_decimal_wide(&mut candidate, index);
            assert(candidate@ == numbered_group_title(index as nat));
            if !title_taken(groups, candidate.as_str()) {
                assert(index as nat >= self.request_tabs.groups@.len() + 1 && candidate@
                    == numbered_group_title(index as nat) && !group_title_taken(
                    self.request_tabs@.groups,
                    numbered_group_title(index as nat),
                ));
                return candidate;
            }
            assert(index != start + free);
            index = index + 1;
        }
    }

    /// The colour for a new group, by the number of groups.
    pub fn next_request_tab_group_color(&self) -> (r: RequestTabGroupColor)
        ensures
            r == group_color_for_count(self.request_tabs.groups@.len()),
    {
        match self.request_tabs.groups.len() % 8 {
            0 => RequestTabGroupColor::Purple,
            1 => RequestTabGroupColor::Blue,
            2 => RequestTabGroupColor::Cyan,
            3 => RequestTabGroupColor::Green,
            4 => RequestTabGroupColor::Yellow,
            5 => RequestTabGroupColor::Orange,
            6 => RequestTabGroupColor::Pink,
            _ => RequestTabGroupColor::Red,
        }
    }

    /// Creates an expanded group for a tab with the next colour; reports
    /// whether the tabs changed and have to be saved.
    pub fn create_request_tab_group(&mut self, tab_id: RequestTabId, title: String) -> (changed: bool)
        ensures
            final(self).workspace == old(self).workspace,
            final(self).request_tabs.active == old(self).request_tabs.active,
            match old(self).request_tabs.position_of(tab_id) {
                None => !changed && final(self).request_tabs@ == old(self).request_tabs@,
                Some(k) => {
                    &&& changed
                    &&& final(self).request_tabs@.groups.drop_last() == old(self).request_tabs@.groups
                    &&& final(self).request_tabs@.groups.last().1 == title@
                    &&& final(self).request_tabs@.groups.last().2 == group_color_for_count(
                        old(self).request_tabs.groups@.len(),
                    )
                    &&& !final(self).request_tabs@.groups.last().3
                    &&& final(self).request_tabs@.tabs == old(self).request_tabs@.tabs.update(
                        k,
                        TabView {
                            group_id: Some(final(self).request_tabs@.groups.last().0),
                            ..old(self).request_tabs@.tabs[k]
                        },
                    )
                },
            },
    {
        let color = self.next_request_tab_group_color();
        let Some(group_id) = self.request_tabs.create_group_for_tab(&tab_id, title, color) else {
            return false;
        };
        proof {
            let g = self.request_tabs@.groups;
            assert(g.drop_last() =~= old(self).request_tabs@.groups);
        }
        true
    }

    /// Puts a tab in an existing group and expands it; reports whether the
    /// tab changed.
    pub fn assign_request_tab_to_group(&mut self, tab_id: RequestTabId, group_id: RequestTabGroupId) -> (changed: bool)
        ensures
            final(self).workspace == old(self).workspace,
            final(self).request_tabs.active == old(self).request_tabs.active,
            match (old(self).request_tabs.position_of(tab_id), old(self).request_tabs.group_position(group_id)) {
                (Some(k), Some(p)) => {
                    &&& changed == (old(self).request_tabs@.tabs[k].group_id != Some(group_id))
                    &&& changed ==> final(self).request_tabs@.tabs == old(self).request_tabs@.tabs.update(
                        k,
                        TabView { group_id: Some(group_id), ..old(self).request_tabs@.tabs[k] },
                    ) && !final(self).request_tabs@.groups[p].3
                },
                _ => !changed && final(self).request_tabs@ == old(self).request_tabs@,
            },
    {
        if !self.request_tabs.set_tab_group(&tab_id, Some(&group_id)) {
            return false;
        }
        let _ = self.request_tabs.set_group_collapsed(&group_id, false);
        true
    }

    /// Takes a tab out of its group; reports whether it was in one.
    pub fn remove_request_tab_from_group(&mut self, tab_id: RequestTabId) -> (changed: bool)
        ensures
            final(self).workspace == old(self).workspace,
            final(self).request_tabs.active == old(self).request_tabs.active,
            final(self).request_tabs.groups == old(self).request_tabs.groups,
            match old(self).request_tabs.position_of(tab_id) {
                None => !changed && final(self).request_tabs@ == old(self).request_tabs@,
                Some(k) => {
                    &&& changed == (old(self).request_tabs@.tabs[k].group_id is Some)
                    &&& final(self).request_tabs@.tabs == old(self).request_tabs@.tabs.update(
                        k,
                        TabView { group_id: None, ..old(self).request_tabs@.tabs[k] },
                    )
                },
            },
    {
        self.request_tabs.set_tab_group(&tab_id, None)
    }

    /// Renames a group; reports whether its title changed.
    pub fn rename_request_tab_group(&mut self, group_id: RequestTabGroupId, title: String) -> (changed: bool)
        ensures
            final(self).workspace == old(self).workspace,
            final(self).request_tabs.tabs == old(self).request_tabs.tabs,
            final(self).request_tabs.active == old(self).request_tabs.active,
            match old(self).request_tabs.group_position(group_id) {
                None => !changed && final(self).request_tabs.groups == old(self).request_tabs.groups,
                Some(p) => {
                    &&& changed == (old(self).request_tabs@.groups[p].1 != title@)
                    &&& final(self).request_tabs@.groups == old(self).request_tabs@.groups.update(
                        p,
                        (group_id, title@, old(self).request_tabs@.groups[p].2, old(self).request_tabs@.groups[p].3),
                    )
                },
            },
    {
        let r = self.request_tabs.rename_group(&group_id, title);
        proof {
            old(self).request_tabs.lemma_group_position(group_id);
        }
        r
    }

    /// Recolours a group; reports whether its colour changed.
    pub fn set_request_tab_group_color(&mut self, group_id: RequestTabGroupId, color: RequestTabGroupColor) -> (changed: bool)
        ensures
            final(self).workspace == old(self).workspace,
            final(self).request_tabs.tabs == old(self).request_tabs.tabs,
            final(self).request_tabs.active == old(self).request_tabs.active,
            match old(self).request_tabs.group_position(group_id) {
                None => !changed && final(self).request_tabs.groups == old(self).request_tabs.groups,
                Some(p) => {
                    &&& changed == (old(self).request_tabs@.groups[p].2 != color)
                    &&& final(self).request_tabs@.groups == old(self).request_tabs@.groups.update(
                        p,
                        (group_id, old(self).request_tabs@.groups[p].1, color, old(self).request_tabs@.groups[p].3),
                    )
                },
            },
    {
        let r = self.request_tabs.set_group_color(&group_id, color);
        proof {
            old(self).request_tabs.lemma_group_position(group_id);
        }
        r
    }

    /// Collapses an expanded group or expands a collapsed one; reports
    /// whether the group exists.
    pub fn toggle_request_tab_group_collapsed(&mut self, group_id: RequestTabGroupId) -> (changed: bool)
        ensures
            final(self).workspace == old(self).workspace,
            final(self).request_tabs.tabs == old(self).request_tabs.tabs,
            final(self).request_tabs.active == old(self).request_tabs.active,
            match old(self).request_tabs.group_position(group_id) {
                None => !changed && final(self).request_tabs.groups == old(self).request_tabs.groups,
                Some(p) => {
                    &&& changed
                    &&& final(self).request_tabs@.groups == old(self).request_tabs@.groups.update(
                        p,
                        (group_id, old(self).request_tabs@.groups[p].1, old(self).request_tabs@.groups[p].2, !old(self).request_tabs@.groups[p].3),
                    )
                },
            },
    {
        proof {
            self.request_tabs.lemma_group_position(group_id);
        }
        match self.request_tabs.find_group(&group_id) {
            Some(p) => {
                assert(self.request_tabs@.groups[p as int] == self.request_tabs.groups@[p as int]@);
                let collapsed = self.request_tabs.groups[p].collapsed;
                self.request_tabs.set_group_collapsed_at(p, !collapsed);
                true
            },
            None => false,
        }
    }

    /// Removes a group and ungroups its tabs; reports whether it existed.
    pub fn remove_request_tab_group(&mut self, group_id: RequestTabGroupId) -> (changed: bool)
        ensures
            final(self).workspace == old(self).workspace,
            final(self).request_tabs.active == old(self).request_tabs.active,
            match old(self).request_tabs.group_position(group_id) {
                None => !changed && final(self).request_tabs@ == old(self).request_tabs@,
                Some(p) => {
                    &&& changed
                    &&& final(self).request_tabs@.groups == old(self).request_tabs@.groups.remove(p)
                    &&& final(self).request_tabs@.tabs == old(self).request_tabs@.tabs.map_values(
                        |t: TabView| if t.group_id == Some(group_id) {
                            TabView { group_id: None, ..t }
                        } else {
                            t
                        },
                    )
                },
            },
    {
        self.request_tabs.remove_group(&group_id)
    }

    /// Opens a blank request tab inside a group, expanding it. The tab belongs
    /// where the sidebar selection is, or nowhere. Nothing happens while a
    /// request is being sent or when the group does not exist.
    pub fn open_blank_request_tab_in_group(&mut self, group_id: RequestTabGroupId) -> (r: Option<RequestTabId>)
        requires
            old(self).request_tabs.wf(),
        ensures
            final(self).workspace == old(self).workspace,
            final(self).request_tabs.wf(),
            (old(self).sending || old(self).request_tabs.group_position(group_id) is None) ==> r is None
                && final(self).request_tabs@ == old(self).request_tabs@,
            !(old(self).sending || old(self).request_tabs.group_position(group_id) is None) ==> {
                &&& r is Some
                &&& final(self).request_tabs@.tabs.drop_last() == old(self).request_tabs@.tabs
                &&& final(self).request_tabs@.tabs.last().id == r->0
                &&& final(self).request_tabs@.tabs.last().group_id == Some(group_id)
                &&& final(self).request_tabs@.tabs.last().title == default_tab_title()
                &&& final(self).request_tabs@.tabs.last().association == (if old(self).selected_collection_id is None {
                    (None::<Seq<char>>, None::<Seq<char>>, None::<Seq<char>>)
                } else {
                    (opt_view(old(self).selected_folder_id), opt_view(old(self).selected_collection_id), None::<Seq<char>>)
                })
                &&& final(self).request_tabs.active == old(self).request_tabs.tabs@.len()
            },
    {
        if self.sending {
            return None;
        }
        let Some(p) = self.request_tabs.find_group(&group_id) else {
            return None;
        };
        self.request_tabs.set_group_collapsed_at(p, false);
        let association = if self.selected_collection_id.is_none() {
            RequestTabAssociation::default()
        } else {
            RequestTabAssociation::new(
                match &self.selected_folder_id {
                    Some(f) => Some(f.clone()),
                    None => None,
                },
                match &self.selected_collection_id {
                    Some(c) => Some(c.clone()),
                    None => None,
                },
                None,
            )
        };
        let tab_id = self.request_tabs.open_unsaved("Untitled request", RequestTemplate::blank(), association);
        let k = self.request_tabs.tabs.len() - 1;
        self.request_tabs.set_group_at(k, Some(group_id));
        proof {
            assert(self.request_tabs@.tabs.drop_last() =~= old(self).request_tabs@.tabs);
        }
        Some(tab_id)
    }
}

} // verus!
