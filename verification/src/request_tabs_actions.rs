use vstd::prelude::*;

use crate::api_tester::ApiTester;
use crate::request_tabs::{
    RequestTabAssociation, RequestTabs, TabView, TabsView, default_tab_title, same_tabs,
};
use crate::text::{decimal, owned, push_char, push_decimal, push_str, str_eq, trim, trimmed};
use crate::workspace::opt_view;

verus! {

/// What persisting the open tabs has to do.
#[derive(Clone, Copy, Debug, PartialEq, Eq, Structural)]
pub enum RequestTabsPersistenceAction {
    SucceedWithoutWrite,
    VetoReadOnly,
    Write,
}

/// What persisting the tabs has to do: nothing when they match the stored
/// state; otherwise a write, or a veto when the store is read-only.
pub open spec fn persistence_action(persisted: TabsView, current: TabsView, writable: bool) -> RequestTabsPersistenceAction {
    if current == persisted {
        RequestTabsPersistenceAction::SucceedWithoutWrite
    } else if writable {
        RequestTabsPersistenceAction::Write
    } else {
        RequestTabsPersistenceAction::VetoReadOnly
    }
}

/// The last state of the open tabs known to be on disk, and whether the
/// store may be written.
pub struct RequestTabsDurableBaseline {
    pub persisted: RequestTabs,
    pub writable: bool,
}

impl RequestTabsDurableBaseline {
    pub fn new(persisted: RequestTabs, writable: bool) -> (b: Self)
        ensures
            b.persisted == persisted,
            b.writable == writable,
    {
        RequestTabsDurableBaseline { persisted, writable }
    }

    /// Nothing to do when the tabs match the stored state; otherwise a write,
    /// or a veto when the store is read-only.
    pub fn action(&self, current: &RequestTabs) -> (r: RequestTabsPersistenceAction)
        ensures
            r == persistence_action(self.persisted@, current@, self.writable),
    {
        if same_tabs(current, &self.persisted) {
            RequestTabsPersistenceAction::SucceedWithoutWrite
        } else if self.writable {
            RequestTabsPersistenceAction::Write
        } else {
            RequestTabsPersistenceAction::VetoReadOnly
        }
    }

    /// After a write: a success makes the written state the stored one; a
    /// failure keeps the old one, so the write stays pending.
    pub fn record_write_result<E>(&mut self, current: &RequestTabs, result: &Result<(), E>)
        ensures
            final(self).writable == old(self).writable,
            result is Ok ==> final(self).persisted@ == current@,
            result is Err ==> final(self).persisted@ == old(self).persisted@,
    {
        if result.is_ok() {
            self.persisted = current.clone();
        }
    }
}

/// Once a state of the tabs was written, persisting that same state again
/// writes nothing, whether or not the store is writable.
pub proof fn lemma_written_state_is_settled(current: TabsView, writable: bool)
    ensures
        persistence_action(current, current, writable) == RequestTabsPersistenceAction::SucceedWithoutWrite,
{
}

/// A state that differs from the stored one stays to be written (or vetoed
/// when read-only) until a write of it succeeds; a failed write leaves the
/// stored state, so the same answer comes again.
pub proof fn lemma_unwritten_state_stays_pending(persisted: TabsView, current: TabsView, writable: bool)
    requires
        current != persisted,
    ensures
        persistence_action(persisted, current, writable) == (if writable {
            RequestTabsPersistenceAction::Write
        } else {
            RequestTabsPersistenceAction::VetoReadOnly
        }),
{
}

/// A title in curly quotes.
pub open spec fn quoted(title: Seq<char>) -> Seq<char> {
    seq!['“'] + title + seq!['”']
}

/// The first `n` titles, quoted and joined by commas.
pub open spec fn quoted_list(titles: Seq<Seq<char>>, n: int) -> Seq<char>
    decreases n,
{
    if n <= 0 {
        Seq::empty()
    } else if n == 1 {
        quoted(titles[0])
    } else {
        quoted_list(titles, n - 1) + ", "@ + quoted(titles[n - 1])
    }
}

/// The text of the dialog that confirms closing tabs with unsaved changes:
/// one title is named alone; otherwise at most three are named and the rest
/// counted.
pub open spec fn close_confirmation_text(titles: Seq<Seq<char>>, close_count: nat) -> Seq<char> {
    if titles.len() == 1 {
        if close_count == 1 {
            quoted(titles[0]) + " has unsaved changes. Closing it will discard the draft."@
        } else {
            quoted(titles[0]) + " has unsaved changes. Closing these tabs will discard that draft."@
        }
    } else if titles.len() > 3 {
        quoted_list(titles, 3) + ", and "@ + decimal((titles.len() - 3) as nat)
            + " more have unsaved changes. Closing these tabs will discard those drafts."@
    } else {
        quoted_list(titles, titles.len() as int)
            + " have unsaved changes. Closing these tabs will discard those drafts."@
    }
}

fn push_quoted(s: &mut String, title: &str)
    ensures
        final(s)@ == old(s)@ + quoted(title@),
{
    push_char(s, '“');
    push_str(s, title);
    push_char(s, '”');
    assert(final(s)@ =~= old(s)@ + quoted(title@));
}

pub fn close_tabs_confirmation_detail(dirty_titles: &[String], close_count: usize) -> (r: String)
    ensures
        r@ == close_confirmation_text(dirty_titles@.map_values(|t: String| t@), close_count as nat),
{
    let ghost titles = dirty_titles@.map_values(|t: String| t@);
    let n = dirty_titles.len();
    let mut out = String::new();
    if n == 1 {
        push_quoted(&mut out, dirty_titles[0].as_str());
        if close_count == 1 {
            push_str(&mut out, " has unsaved changes. Closing it will discard the draft.");
        } else {
            push_str(
                &mut out,
                " has unsaved changes. Closing these tabs will discard that draft.",
            );
        }
        assert(out@ =~= close_confirmation_text(titles, close_count as nat));
        return out;
    }
    let shown = if n > 3 {
        3
    } else {
        n
    };
    let mut k: usize = 0;
    while k < shown
        invariant
            titles == dirty_titles@.map_values(|t: String| t@),
            shown <= n,
            n == dirty_titles@.len(),
            0 <= k <= shown,
            out@ == quoted_list(titles, k as int),
        decreases shown - k,
    {
        if k > 0 {
            push_str(&mut out, ", ");
        }
        push_quoted(&mut out, dirty_titles[k].as_str());
        proof {
            if k == 0 {
                assert(out@ =~= quoted_list(titles, 1));
            } else {
                assert(out@ =~= quoted_list(titles, k + 1));
            }
        }
        k = k + 1;
    }
    if n > 3 {
        push_str(&mut out, ", and ");
        push_decimal(&mut out, (n - 3) as u64);
        push_str(&mut out, " more have unsaved changes. Closing these tabs will discard those drafts.");
    } else {
        push_str(&mut out, " have unsaved changes. Closing these tabs will discard those drafts.");
    }
    assert(out@ =~= close_confirmation_text(titles, close_count as nat));
    out
}

/// The title a tab takes from the name input: the input as typed, except
/// that a blank input leaves a never-saved default tab with the default
/// title.
pub open spec fn tab_title_from_input(input: Seq<char>, active: TabView) -> Seq<char> {
    if trimmed(input).len() == 0 && active.association.2 is None && active.baseline_title
        == default_tab_title() {
        default_tab_title()
    } else {
        input
    }
}

impl ApiTester {
    /// What persisting the open tabs has to do now.
    pub fn request_tabs_persistence_action(&self) -> (r: RequestTabsPersistenceAction)
        ensures
            r == persistence_action(self.last_persisted_request_tabs@, self.request_tabs@, self.request_tabs_writable),
    {
        if same_tabs(&self.request_tabs, &self.last_persisted_request_tabs) {
            RequestTabsPersistenceAction::SucceedWithoutWrite
        } else if self.request_tabs_writable {
            RequestTabsPersistenceAction::Write
        } else {
            RequestTabsPersistenceAction::VetoReadOnly
        }
    }

    /// Records the outcome of persisting the open tabs. `write_result` is the
    /// outcome of writing them, which the caller does exactly when
    /// `request_tabs_persistence_action` answers `Write`; it is not read
    /// otherwise. A successful write becomes the stored state.
    #[verifier::rlimit(80)]
    #[verifier::spinoff_prover]
    pub fn save_request_tabs_state(&mut self, write_result: Result<(), String>) -> (r: Result<(), String>)
        ensures
            final(self).request_tabs == old(self).request_tabs,
            ({
                let action = persistence_action(old(self).last_persisted_request_tabs@, old(self).request_tabs@, old(self).request_tabs_writable);
                match action {
                    RequestTabsPersistenceAction::SucceedWithoutWrite => {
                        &&& r is Ok
                        &&& final(self).last_persisted_request_tabs@ == old(self).last_persisted_request_tabs@
                        &&& final(self).request_tabs_warning == if old(self).request_tabs_writable {
                            None
                        } else {
                            old(self).request_tabs_warning
                        }
                    },
                    RequestTabsPersistenceAction::VetoReadOnly => {
                        &&& r is Err
                        &&& r->Err_0@ == "Request tabs are read-only because their stored state could not be loaded safely; the latest tab changes cannot be saved."@
                        &&& final(self).request_tabs_warning == Some(r->Err_0)
                        &&& final(self).last_persisted_request_tabs@ == old(self).last_persisted_request_tabs@
                    },
                    RequestTabsPersistenceAction::Write => match write_result {
                        Ok(()) => {
                            &&& r is Ok
                            &&& final(self).request_tabs_warning is None
                            &&& final(self).last_persisted_request_tabs@ == old(self).request_tabs@
                        },
                        Err(e) => {
                            &&& r is Err
                            &&& r->Err_0@ == "Request tabs could not be saved: "@ + e@
                            &&& final(self).request_tabs_warning == Some(r->Err_0)
                            &&& final(self).last_persisted_request_tabs@ == old(self).last_persisted_request_tabs@
                        },
                    },
                }
            }),
            *final(self) == (ApiTester {
                last_persisted_request_tabs: final(self).last_persisted_request_tabs,
                request_tabs_warning: final(self).request_tabs_warning,
                ..*old(self)
            }),
    {
        match self.request_tabs_persistence_action() {
            RequestTabsPersistenceAction::SucceedWithoutWrite => {
                if self.request_tabs_writable {
                    self.request_tabs_warning = None;
                }
                Ok(())
            },
            RequestTabsPersistenceAction::VetoReadOnly => {
                let message = owned(
                    "Request tabs are read-only because their stored state could not be loaded safely; the latest tab changes cannot be saved.",
                );
                self.request_tabs_warning = Some(message.clone());
                Err(message)
            },
            RequestTabsPersistenceAction::Write => match write_result {
                Ok(()) => {
                    self.last_persisted_request_tabs = self.request_tabs.clone();
                    self.request_tabs_warning = None;
                    Ok(())
                },
                Err(error) => {
                    let mut message = owned("Request tabs could not be saved: ");
                    push_str(&mut message, error.as_str());
                    self.request_tabs_warning = Some(message.clone());
                    Err(message)
                },
            },
        }
    }

    /// Gives the active tab the title typed in the name input.
    pub fn update_active_request_tab_title(&mut self, input_title: &str)
        requires
            old(self).request_tabs.wf(),
        ensures
            final(self).request_tabs.wf(),
            final(self).request_tabs.active == old(self).request_tabs.active,
            final(self).request_tabs.groups == old(self).request_tabs.groups,
            final(self).request_tabs@.tabs == old(self).request_tabs@.tabs.update(
                old(self).request_tabs.active as int,
                TabView {
                    title: tab_title_from_input(input_title@, old(self).request_tabs@.tabs[old(self).request_tabs.active as int]),
                    ..old(self).request_tabs@.tabs[old(self).request_tabs.active as int]
                },
            ),
            *final(self) == (ApiTester { request_tabs: final(self).request_tabs, ..*old(self) }),
    {
        let k = self.request_tabs.active;
        assert(self.request_tabs@.tabs[k as int] == self.request_tabs.tabs@[k as int]@);
        let active = &self.request_tabs.tabs[k];
        let keep_default = trim(input_title).unicode_len() == 0 && active.association.saved_request_id.is_none()
            && str_eq(active.baseline_title.as_str(), "Untitled request");
        let title = if keep_default {
            owned("Untitled request")
        } else {
            owned(input_title)
        };
        self.request_tabs.set_title_at(k, title);
    }

    /// Records which saved request the active tab edits and whether it lost
    /// it.
    pub fn sync_active_request_tab_identity(&mut self)
        requires
            old(self).request_tabs.wf(),
        ensures
            opt_view(final(self).active_saved_request_id) == old(self).request_tabs@.tabs[old(self).request_tabs.active as int].association.2,
            final(self).detached_request_dirty == old(self).request_tabs@.tabs[old(self).request_tabs.active as int].detached,
            *final(self) == (ApiTester {
                active_saved_request_id: final(self).active_saved_request_id,
                detached_request_dirty: final(self).detached_request_dirty,
                ..*old(self)
            }),
    {
        let k = self.request_tabs.active;
        assert(self.request_tabs@.tabs[k as int] == self.request_tabs.tabs@[k as int]@);
        let active = &self.request_tabs.tabs[k];
        self.active_saved_request_id = match &active.association.saved_request_id {
            Some(id) => Some(id.clone()),
            None => None,
        };
        self.detached_request_dirty = active.detached;
    }

    /// Moves a never-saved active tab to where the sidebar selection is;
    /// reports whether the tab changed and has to be saved.
    pub fn update_active_unsaved_request_tab_location(&mut self, collection_id: Option<String>, folder_id: Option<String>) -> (changed: bool)
        requires
            old(self).request_tabs.wf(),
        ensures
            ({
                let tabs = old(self).request_tabs;
                let active = tabs@.tabs[tabs.active as int];
                if active.association.2 is Some {
                    !changed && *final(self) == *old(self)
                } else {
                    let k = tabs.position_of(tabs.tabs@[tabs.active as int].id)->0;
                    &&& changed == (tabs@.tabs[k].association != (opt_view(folder_id), opt_view(collection_id), None::<Seq<char>>))
                    &&& final(self).request_tabs@.tabs == tabs@.tabs.update(
                        k,
                        TabView {
                            association: (opt_view(folder_id), opt_view(collection_id), None::<Seq<char>>),
                            ..tabs@.tabs[k]
                        },
                    )
                    &&& final(self).request_tabs.active == tabs.active
                    &&& final(self).request_tabs.groups == tabs.groups
                    &&& *final(self) == (ApiTester { request_tabs: final(self).request_tabs, ..*old(self) })
                }
            }),
    {
        let k = self.request_tabs.active;
        assert(self.request_tabs@.tabs[k as int] == self.request_tabs.tabs@[k as int]@);
        if self.request_tabs.tabs[k].association.saved_request_id.is_some() {
            return false;
        }
        let tab_id = self.request_tabs.tabs[k].id;
        proof {
            self.request_tabs.lemma_position_of(tab_id);
            assert(self.request_tabs.tabs@[k as int].id == tab_id);
        }
        let association = RequestTabAssociation::new(folder_id, collection_id, None);
        self.request_tabs.repair_association(&tab_id, association, false)
    }
}

} // verus!
