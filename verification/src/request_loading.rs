use vstd::prelude::*;

use crate::api_tester::ApiTester;
use crate::request_editor::{RequestDirty, RequestDirtyPart, RequestEditor, ascii_upper};
use crate::request_model::{RequestTemplate, TemplateView};
use crate::request_tabs::{RequestTabAssociation, default_tab_title};
use crate::text::{ascii_folded, owned, same_ignoring_ascii_case, str_eq, trimmed};
use crate::workspace::{Workspace, opt_view};

verus! {

/// The notice shown when a load was held back to keep unsaved changes.
pub open spec fn kept_changes_notice() -> Seq<char> {
    "Unsaved request changes were kept. Click the same saved request or history entry again to discard them."@
}

/// No part differs and nothing is being loaded.
pub open spec fn clean_dirty() -> RequestDirty {
    RequestDirty {
        method: false,
        url: false,
        headers: false,
        raw_body: false,
        body_mode: false,
        raw_body_language: false,
        body_fields: false,
        pre_script: false,
        post_script: false,
        hydrating: false,
    }
}

impl Workspace {
    /// The name of the first saved request with this identifier; empty when
    /// there is no identifier or no such request.
    pub open spec fn saved_request_name(self, id: Option<Seq<char>>) -> Seq<char> {
        match id {
            Some(i) => match self.locate(i) {
                Some(loc) => self.collections@[loc.collection].requests@[loc.request].name@,
                None => Seq::empty(),
            },
            None => Seq::empty(),
        }
    }

    /// A tab's collection, when the workspace still holds it.
    pub open spec fn restored_collection(self, association: RequestTabAssociation) -> Option<Seq<char>> {
        match association@.1 {
            Some(c) => if self.collection_position(c) is Some {
                Some(c)
            } else {
                None
            },
            None => None,
        }
    }

    /// A tab's folder, when its collection is restored and still holds it.
    pub open spec fn restored_folder(self, association: RequestTabAssociation) -> Option<Seq<char>> {
        match (self.restored_collection(association), association@.0) {
            (Some(c), Some(f)) => if self.collections@[self.collection_position(c)->0].has_folder(f) {
                Some(f)
            } else {
                None
            },
            _ => None,
        }
    }
}

impl RequestEditor {
    /// Every part's flag recomputed against a definition.
    pub open spec fn dirty_against(self, baseline: TemplateView) -> RequestDirty {
        RequestDirty {
            method: self.differs(baseline, RequestDirtyPart::Method),
            url: self.differs(baseline, RequestDirtyPart::Url),
            headers: self.differs(baseline, RequestDirtyPart::Headers),
            raw_body: self.differs(baseline, RequestDirtyPart::RawBody),
            body_mode: self.differs(baseline, RequestDirtyPart::BodyMode),
            raw_body_language: self.differs(baseline, RequestDirtyPart::RawBodyLanguage),
            body_fields: self.differs(baseline, RequestDirtyPart::BodyFields),
            pre_script: self.differs(baseline, RequestDirtyPart::PreScript),
            post_script: self.differs(baseline, RequestDirtyPart::PostScript),
            hydrating: false,
        }
    }
}

impl ApiTester {
    /// Whether the request holds changes that are not saved.
    pub open spec fn has_unsaved_changes(self) -> bool {
        self.detached_request_dirty || self.request_dirty.any_part()
    }

    /// `self` is `before` after a definition was loaded into the editor: the
    /// response and errors are gone, the collection is selected when the
    /// workspace holds it, the saved request is the given one, and the
    /// loaded definition is the new baseline, so nothing is dirty.
    pub open spec fn loaded_after(
        self,
        before: ApiTester,
        template: RequestTemplate,
        collection_id: Option<String>,
        saved_request_id: Option<String>,
        redacted: Seq<char>,
    ) -> bool {
        let keeps_collection = match collection_id {
            Some(c) => before.workspace.collection_position(c@) is Some,
            None => false,
        };
        &&& self.editor.loaded_from(before.editor, template, redacted, false)
        &&& self.loaded_request_baseline@ == self.editor.drafted()
        &&& self == (ApiTester {
            editor: self.editor,
            loaded_request_baseline: self.loaded_request_baseline,
            request_dirty: clean_dirty(),
            has_response: false,
            request_error: None,
            preview_error: None,
            selected_collection_id: if keeps_collection {
                collection_id
            } else {
                before.selected_collection_id
            },
            active_saved_request_id: saved_request_id,
            detached_request_dirty: false,
            pending_request_load_key: None,
            request_notice: None,
            ..before
        })
    }

    /// Loads a definition into the editor without asking about unsaved
    /// changes, and gives back the name of the saved request it comes from
    /// (empty when there is none), for the name input.
    #[verifier::spinoff_prover]
    #[verifier::rlimit(80)]
    pub fn load_template_unchecked(
        &mut self,
        template: RequestTemplate,
        collection_id: Option<String>,
        saved_request_id: Option<String>,
        redacted: &str,
    ) -> (request_name: String)
        ensures
            final(self).loaded_after(*old(self), template, collection_id, saved_request_id, redacted@),
            request_name@ == old(self).workspace.saved_request_name(opt_view(saved_request_id)),
    {
        self.editor.load_template(&template, redacted, false);
        self.has_response = false;
        self.request_error = None;
        self.preview_error = None;
        if let Some(id) = collection_id {
            if self.workspace.collection(id.as_str()).is_some() {
                self.selected_collection_id = Some(id);
            }
        }
        let request_name = match &saved_request_id {
            Some(id) => match self.workspace.saved_request(id.as_str()) {
                Some((_, request)) => request.name.clone(),
                None => String::new(),
            },
            None => String::new(),
        };
        self.active_saved_request_id = saved_request_id;
        self.detached_request_dirty = false;
        self.loaded_request_baseline = self.editor.template();
        self.request_dirty = RequestDirty::clean();
        self.pending_request_load_key = None;
        self.request_notice = None;
        request_name
    }

    /// Loads a definition into the editor. While a request is being sent
    /// nothing happens. When the editor holds unsaved changes, the first
    /// attempt with a given key only remembers the key and says that the
    /// changes were kept; a second attempt with the same key loads. Gives
    /// back the name for the name input when the definition was loaded.
    pub fn load_template(
        &mut self,
        template: RequestTemplate,
        collection_id: Option<String>,
        saved_request_id: Option<String>,
        load_key: String,
        redacted: &str,
    ) -> (request_name: Option<String>)
        ensures
            old(self).sending ==> request_name is None && *final(self) == *old(self),
            !old(self).sending && old(self).has_unsaved_changes() && opt_view(
                old(self).pending_request_load_key,
            ) != Some(load_key@) ==> {
                &&& request_name is None
                &&& final(self).request_notice matches Some(n) && n@ == kept_changes_notice()
                &&& *final(self) == (ApiTester {
                    pending_request_load_key: Some(load_key),
                    request_notice: final(self).request_notice,
                    request_error: None,
                    ..*old(self)
                })
            },
            !old(self).sending && !(old(self).has_unsaved_changes() && opt_view(
                old(self).pending_request_load_key,
            ) != Some(load_key@)) ==> {
                &&& request_name matches Some(n) && n@ == old(self).workspace.saved_request_name(
                    opt_view(saved_request_id),
                )
                &&& final(self).loaded_after(*old(self), template, collection_id, saved_request_id, redacted@)
            },
    {
        if self.sending {
            return None;
        }
        let same_key = match &self.pending_request_load_key {
            Some(k) => str_eq(k.as_str(), load_key.as_str()),
            None => false,
        };
        if (self.detached_request_dirty || self.request_dirty.any()) && !same_key {
            self.pending_request_load_key = Some(load_key);
            self.request_notice = Some(
                owned(
                    "Unsaved request changes were kept. Click the same saved request or history entry again to discard them.",
                ),
            );
            proof {
                reveal_strlit(
                    "Unsaved request changes were kept. Click the same saved request or history entry again to discard them.",
                );
            }
            self.request_error = None;
            return None;
        }
        Some(self.load_template_unchecked(template, collection_id, saved_request_id, redacted))
    }

    /// Recomputes every part's flag against the loaded definition; does
    /// nothing while a definition is being loaded.
    pub fn refresh_all_request_dirty_parts(&mut self)
        ensures
            *final(self) == (ApiTester { request_dirty: final(self).request_dirty, ..*old(self) }),
            old(self).request_dirty.hydrating ==> final(self).request_dirty == old(self).request_dirty,
            !old(self).request_dirty.hydrating ==> final(self).request_dirty == old(self).editor.dirty_against(
                old(self).loaded_request_baseline@,
            ),
    {
        if self.request_dirty.is_hydrating() {
            return;
        }
        let dirty = RequestDirty {
            method: self.request_part_is_dirty(RequestDirtyPart::Method),
            url: self.request_part_is_dirty(RequestDirtyPart::Url),
            headers: self.request_part_is_dirty(RequestDirtyPart::Headers),
            raw_body: self.request_part_is_dirty(RequestDirtyPart::RawBody),
            body_mode: self.request_part_is_dirty(RequestDirtyPart::BodyMode),
            raw_body_language: self.request_part_is_dirty(RequestDirtyPart::RawBodyLanguage),
            body_fields: self.request_part_is_dirty(RequestDirtyPart::BodyFields),
            pre_script: self.request_part_is_dirty(RequestDirtyPart::PreScript),
            post_script: self.request_part_is_dirty(RequestDirtyPart::PostScript),
            hydrating: false,
        };
        self.request_dirty = dirty;
    }

    /// `self` is `before` after its active tab was put back into the editor:
    /// the tab's definition is loaded, its collection and folder are selected
    /// where `before`'s workspace holds them (otherwise the prior selection
    /// stands), its saved state is the baseline, and every part's flag is
    /// recomputed against it.
    pub open spec fn restored_from(
        self,
        before: ApiTester,
        prior_collection: Option<Seq<char>>,
        prior_folder: Option<Seq<char>>,
        redacted: Seq<char>,
    ) -> bool {
        let record = before.request_tabs.tabs@[before.request_tabs.active as int];
        let restored = before.workspace.restored_collection(record.association);
        &&& self.editor.loaded_from(before.editor, record.template, redacted, false)
        &&& opt_view(self.selected_collection_id) == if restored is Some {
            restored
        } else {
            prior_collection
        }
        &&& opt_view(self.selected_folder_id) == if restored is Some {
            before.workspace.restored_folder(record.association)
        } else {
            prior_folder
        }
        &&& opt_view(self.active_saved_request_id) == record.association@.2
        &&& self.loaded_request_baseline@ == record.baseline_template@
        &&& self.detached_request_dirty == record.detached
        &&& self.request_dirty == self.editor.dirty_against(self.loaded_request_baseline@)
        &&& self == (ApiTester {
            editor: self.editor,
            selected_collection_id: self.selected_collection_id,
            selected_folder_id: self.selected_folder_id,
            active_saved_request_id: self.active_saved_request_id,
            loaded_request_baseline: self.loaded_request_baseline,
            detached_request_dirty: self.detached_request_dirty,
            request_dirty: self.request_dirty,
            has_response: false,
            request_error: None,
            preview_error: None,
            pending_request_load_key: None,
            request_notice: None,
            ..before
        })
    }

    /// Puts the active tab back into the editor: its definition is loaded,
    /// its collection and folder are selected where the workspace still holds
    /// them (otherwise the selection stays), its saved state becomes the
    /// baseline, and every part's flag is recomputed against it. Gives back
    /// the text for the name input: empty for an unsaved tab that still has
    /// the default title, otherwise the tab's title.
    #[verifier::spinoff_prover]
    #[verifier::rlimit(80)]
    pub fn restore_active_request_tab(&mut self, redacted: &str) -> (name_input: String)
        requires
            old(self).request_tabs.wf(),
        ensures
            final(self).restored_from(
                *old(self),
                opt_view(old(self).selected_collection_id),
                opt_view(old(self).selected_folder_id),
                redacted@,
            ),
            ({
                let record = old(self).request_tabs.tabs@[old(self).request_tabs.active as int];
                name_input@ == if record.association@.2 is None && record.title@ == default_tab_title() {
                    Seq::<char>::empty()
                } else {
                    record.title@
                }
            }),
    {
        let record = self.request_tabs.active();
        let template = record.template().clone();
        let baseline = record.baseline_template().clone();
        let title = owned(record.title());
        let detached = record.is_detached();
        let association = record.association();
        let saved_request_id = match association.saved_request_id() {
            Some(id) => Some(owned(id)),
            None => None,
        };
        let folder_id = match association.folder_id() {
            Some(id) => Some(owned(id)),
            None => None,
        };
        let mut restored_collection_id: Option<String> = None;
        let mut restored_folder_id: Option<String> = None;
        if let Some(collection_id) = association.collection_id() {
            if let Some(collection) = self.workspace.collection(collection_id) {
                restored_collection_id = Some(owned(collection_id));
                if let Some(folder) = &folder_id {
                    if collection.folder(folder.as_str()).is_some() {
                        restored_folder_id = Some(owned(folder.as_str()));
                    }
                }
            }
        }
        let name_input = if saved_request_id.is_none() && str_eq(title.as_str(), "Untitled request") {
            String::new()
        } else {
            title
        };
        proof {
            reveal_strlit("Untitled request");
        }
        let collection_for_load = match &restored_collection_id {
            Some(c) => Some(owned(c.as_str())),
            None => None,
        };
        let saved_for_load = match &saved_request_id {
            Some(id) => Some(owned(id.as_str())),
            None => None,
        };
        let _ = self.load_template_unchecked(template, collection_for_load, saved_for_load, redacted);
        if restored_collection_id.is_some() {
            self.selected_collection_id = restored_collection_id;
            self.selected_folder_id = restored_folder_id;
        }
        self.active_saved_request_id = saved_request_id;
        self.loaded_request_baseline = baseline;
        self.detached_request_dirty = detached;
        self.refresh_all_request_dirty_parts();
        name_input
    }
}

/// Once a definition is loaded its baseline is what the editor describes,
/// so recomputing every part's flag finds nothing that differs.
pub proof fn lemma_loaded_request_is_clean(editor: RequestEditor)
    ensures
        editor.dirty_against(editor.drafted()) == clean_dirty(),
{
    let m = trimmed(editor.method@);
    assert forall|k: int| 0 <= k < m.len() implies ascii_folded(#[trigger] m[k]) == ascii_folded(
        ascii_upper(m)[k],
    ) by {
        let c = m[k];
        if 'a' <= c <= 'z' {
            assert(ascii_upper(m)[k] == ((c as u32) - 32) as char);
        }
    }
    assert(same_ignoring_ascii_case(m, ascii_upper(m)));
}

} // verus!
