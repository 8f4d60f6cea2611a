use vstd::prelude::*;

use crate::api_tester::ApiTester;
use crate::pane_tree::{PaneId, first_index, is_first, lemma_first_index_facts, lemma_first_index_unique};
use crate::request_editor::{
    EditorRow, RequestEditor, RowView, blank_row, remove_rows, row_index, rows_view,
    update_row_enabled, update_row_kind, update_row_shared, without_row,
};
use crate::request_model::{BodyFieldKind, BodyMode, RawBodyLanguage};
use crate::request_pane::RequestPane;
use crate::workspace_tab::RequestTabId;
use vstd::pervasive::VecAdditionalExecFns;

verus! {

/// The tabs of a response panel.
#[derive(Clone, Copy, Debug, PartialEq, Eq, Structural)]
pub enum ResponseTab {
    Body,
    Headers,
    Scripts,
    Preview,
}

impl ResponseTab {
    /// The tab at a position in the response tab bar; any other position
    /// falls back to the body.
    pub open spec fn at_position(index: int) -> ResponseTab {
        if index == 1 {
            ResponseTab::Headers
        } else if index == 2 {
            ResponseTab::Scripts
        } else if index == 3 {
            ResponseTab::Preview
        } else {
            ResponseTab::Body
        }
    }

    pub fn from_index(index: usize) -> (r: ResponseTab)
        ensures
            r == ResponseTab::at_position(index as int),
    {
        match index {
            1 => ResponseTab::Headers,
            2 => ResponseTab::Scripts,
            3 => ResponseTab::Preview,
            _ => ResponseTab::Body,
        }
    }
}

/// The request editor of a secondary pane: what its editors hold, its query
/// parameter rows, and what its panels show.
#[derive(Debug, PartialEq, Eq)]
pub struct PaneEditorState {
    pub pane_id: PaneId,
    pub active_tab_id: Option<RequestTabId>,
    pub editor: RequestEditor,
    pub query_params: Vec<EditorRow>,
    pub next_query_param_id: usize,
    pub request_pane: RequestPane,
    pub response_tab: ResponseTab,
    pub pretty_body: bool,
    pub copied: bool,
}

/// Sessions that belong to this pane.
pub open spec fn session_of(pane_id: PaneId) -> spec_fn(PaneEditorState) -> bool {
    |s: PaneEditorState| s.pane_id == pane_id
}

/// The position of the first session of this pane, or -1.
pub open spec fn session_index(sessions: Seq<PaneEditorState>, pane_id: PaneId) -> int {
    first_index(sessions, session_of(pane_id))
}

/// `after` is `before` with only the session at `i` replaced.
pub open spec fn only_session_changed(before: Seq<PaneEditorState>, after: Seq<PaneEditorState>, i: int) -> bool {
    &&& after.len() == before.len()
    &&& forall|j: int| 0 <= j < before.len() && j != i ==> after[j] == before[j]
    &&& after[i].pane_id == before[i].pane_id
}

impl PaneEditorState {
    /// A session for a pane showing a tab, with a blank editor.
    pub fn new(pane_id: PaneId, active_tab_id: RequestTabId) -> (s: PaneEditorState)
        ensures
            s.pane_id == pane_id,
            s.active_tab_id == Some(active_tab_id),
            rows_view(s.query_params@) == seq![blank_row(0)],
            s.next_query_param_id == 1,
            s.request_pane == RequestPane::Params,
            s.response_tab == ResponseTab::Body,
            s.pretty_body,
            !s.copied,
            s.editor.next_header_id == 1,
            s.editor.next_body_field_id == 0,
    {
        let mut query_params = Vec::new();
        query_params.push(
            EditorRow::new(0, String::new(), String::new(), true, false, BodyFieldKind::Text),
        );
        assert(rows_view(query_params@) =~= seq![blank_row(0)]);
        PaneEditorState {
            pane_id,
            active_tab_id: Some(active_tab_id),
            editor: RequestEditor::new(),
            query_params,
            next_query_param_id: 1,
            request_pane: RequestPane::Params,
            response_tab: ResponseTab::Body,
            pretty_body: true,
            copied: false,
        }
    }

    /// A session of no pane that shows nothing: a blank editor and no rows.
    pub(crate) fn vacant() -> (s: PaneEditorState)
        ensures
            s.pane_id == PaneId(0),
            s.active_tab_id is None,
            s.editor.method@ == "GET"@,
            s.editor.url@.len() == 0,
            rows_view(s.editor.headers@) == seq![blank_row(0)],
            s.editor.next_header_id == 1,
            s.editor.body_fields@.len() == 0,
            s.editor.next_body_field_id == 0,
            s.query_params@.len() == 0,
            s.next_query_param_id == 0,
            s.request_pane == RequestPane::Params,
            s.response_tab == ResponseTab::Body,
            s.pretty_body,
            !s.copied,
    {
        PaneEditorState {
            pane_id: PaneId(0),
            active_tab_id: None,
            editor: RequestEditor::new(),
            query_params: Vec::new(),
            next_query_param_id: 0,
            request_pane: RequestPane::Params,
            response_tab: ResponseTab::Body,
            pretty_body: true,
            copied: false,
        }
    }
}

impl ApiTester {
    pub(crate) fn pane_session(&self, pane_id: PaneId) -> (r: Option<usize>)
        ensures
            match r {
                Some(i) => i < self.pane_editors@.len() && session_index(self.pane_editors@, pane_id) == i,
                None => session_index(self.pane_editors@, pane_id) == -1,
            },
    {
        let mut k: usize = 0;
        while k < self.pane_editors.len()
            invariant
                0 <= k <= self.pane_editors@.len(),
                forall|m: int| 0 <= m < k ==> self.pane_editors@[m].pane_id != pane_id,
            decreases self.pane_editors@.len() - k,
        {
            if self.pane_editors[k].pane_id == pane_id {
                proof {
                    assert(is_first(self.pane_editors@, session_of(pane_id), k as int));
                    lemma_first_index_unique(self.pane_editors@, session_of(pane_id), k as int);
                }
                return Some(k);
            }
            k = k + 1;
        }
        proof {
            lemma_first_index_facts(self.pane_editors@, session_of(pane_id));
            assert forall|j: int| 0 <= j < self.pane_editors@.len() implies !session_of(pane_id)(
                self.pane_editors@[j],
            ) by {}
        }
        None
    }

    pub(crate) fn take_session(&mut self, i: usize) -> (s: PaneEditorState)
        requires
            i < old(self).pane_editors@.len(),
        ensures
            s == old(self).pane_editors@[i as int],
            final(self).pane_editors@.len() == old(self).pane_editors@.len(),
            forall|j: int| 0 <= j < old(self).pane_editors@.len() && j != i ==> final(self).pane_editors@[j] == old(self).pane_editors@[j],
            *final(self) == (ApiTester { pane_editors: final(self).pane_editors, ..*old(self) }),
    {
        let mut s = PaneEditorState::vacant();
        self.pane_editors.set_and_swap(i, &mut s);
        s
    }

    pub(crate) fn put_session(&mut self, i: usize, s: PaneEditorState)
        requires
            i < old(self).pane_editors@.len(),
        ensures
            final(self).pane_editors@ == old(self).pane_editors@.update(i as int, s),
            *final(self) == (ApiTester { pane_editors: final(self).pane_editors, ..*old(self) }),
    {
        self.pane_editors.set(i, s);
    }

    /// Shows one section of the request editor in a pane.
    pub fn pane_set_request_pane(&mut self, pane_id: PaneId, pane: RequestPane)
        ensures
            *final(self) == (ApiTester { pane_editors: final(self).pane_editors, ..*old(self) }),
            ({
                let i = session_index(old(self).pane_editors@, pane_id);
                if i < 0 {
                    final(self).pane_editors == old(self).pane_editors
                } else {
                    final(self).pane_editors@ == old(self).pane_editors@.update(
                        i,
                        PaneEditorState { request_pane: pane, ..old(self).pane_editors@[i] },
                    )
                }
            }),
    {
        if let Some(i) = self.pane_session(pane_id) {
            let mut s = self.take_session(i);
            s.request_pane = pane;
            self.put_session(i, s);
            assert(self.pane_editors@ =~= old(self).pane_editors@.update(
                i as int,
                PaneEditorState { request_pane: pane, ..old(self).pane_editors@[i as int] },
            ));
        }
    }

    /// Shows the response tab at a position in a pane; the copy marker is
    /// cleared.
    pub fn pane_set_response_tab(&mut self, pane_id: PaneId, index: usize)
        ensures
            *final(self) == (ApiTester { pane_editors: final(self).pane_editors, ..*old(self) }),
            ({
                let i = session_index(old(self).pane_editors@, pane_id);
                if i < 0 {
                    final(self).pane_editors == old(self).pane_editors
                } else {
                    final(self).pane_editors@ == old(self).pane_editors@.update(
                        i,
                        PaneEditorState {
                            response_tab: ResponseTab::at_position(index as int),
                            copied: false,
                            ..old(self).pane_editors@[i]
                        },
                    )
                }
            }),
    {
        if let Some(i) = self.pane_session(pane_id) {
            let mut s = self.take_session(i);
            s.response_tab = ResponseTab::from_index(index);
            s.copied = false;
            self.put_session(i, s);
            assert(self.pane_editors@ =~= old(self).pane_editors@.update(
                i as int,
                PaneEditorState {
                    response_tab: ResponseTab::at_position(index as int),
                    copied: false,
                    ..old(self).pane_editors@[i as int]
                },
            ));
        }
    }

    /// Chooses how the body of a pane's request is written.
    pub fn pane_select_body_mode(&mut self, pane_id: PaneId, mode: BodyMode)
        ensures
            *final(self) == (ApiTester { pane_editors: final(self).pane_editors, ..*old(self) }),
            ({
                let i = session_index(old(self).pane_editors@, pane_id);
                if i < 0 {
                    final(self).pane_editors == old(self).pane_editors
                } else {
                    final(self).pane_editors@ == old(self).pane_editors@.update(
                        i,
                        PaneEditorState {
                            editor: RequestEditor { body_mode: mode, ..old(self).pane_editors@[i].editor },
                            ..old(self).pane_editors@[i]
                        },
                    )
                }
            }),
    {
        if let Some(i) = self.pane_session(pane_id) {
            let mut s = self.take_session(i);
            s.editor.body_mode = mode;
            self.put_session(i, s);
            assert(self.pane_editors@ =~= old(self).pane_editors@.update(
                i as int,
                PaneEditorState {
                    editor: RequestEditor { body_mode: mode, ..old(self).pane_editors@[i as int].editor },
                    ..old(self).pane_editors@[i as int]
                },
            ));
        }
    }

    /// Chooses the language of a pane's raw body.
    pub fn pane_select_raw_language(&mut self, pane_id: PaneId, language: RawBodyLanguage)
        ensures
            *final(self) == (ApiTester { pane_editors: final(self).pane_editors, ..*old(self) }),
            ({
                let i = session_index(old(self).pane_editors@, pane_id);
                if i < 0 {
                    final(self).pane_editors == old(self).pane_editors
                } else {
                    final(self).pane_editors@ == old(self).pane_editors@.update(
                        i,
                        PaneEditorState {
                            editor: RequestEditor { raw_body_language: language, ..old(self).pane_editors@[i].editor },
                            ..old(self).pane_editors@[i]
                        },
                    )
                }
            }),
    {
        if let Some(i) = self.pane_session(pane_id) {
            let mut s = self.take_session(i);
            s.editor.raw_body_language = language;
            self.put_session(i, s);
            assert(self.pane_editors@ =~= old(self).pane_editors@.update(
                i as int,
                PaneEditorState {
                    editor: RequestEditor { raw_body_language: language, ..old(self).pane_editors@[i as int].editor },
                    ..old(self).pane_editors@[i as int]
                },
            ));
        }
    }

    /// Appends a blank query parameter row to a pane.
    pub fn pane_push_query_param(&mut self, pane_id: PaneId)
        ensures
            *final(self) == (ApiTester { pane_editors: final(self).pane_editors, ..*old(self) }),
            ({
                let i = session_index(old(self).pane_editors@, pane_id);
                if i < 0 {
                    final(self).pane_editors == old(self).pane_editors
                } else {
                    let before = old(self).pane_editors@[i];
                    let after = final(self).pane_editors@[i];
                    &&& only_session_changed(old(self).pane_editors@, final(self).pane_editors@, i)
                    &&& after == PaneEditorState { query_params: after.query_params, next_query_param_id: after.next_query_param_id, ..before }
                    &&& rows_view(after.query_params@) == rows_view(before.query_params@).push(blank_row(before.next_query_param_id))
                    &&& after.next_query_param_id == before.next_query_param_id.wrapping_add(1)
                }
            }),
    {
        if let Some(i) = self.pane_session(pane_id) {
            let mut s = self.take_session(i);
            let id = s.next_query_param_id;
            s.next_query_param_id = s.next_query_param_id.wrapping_add(1);
            s.query_params.push(EditorRow::new(id, String::new(), String::new(), true, false, BodyFieldKind::Text));
            assert(rows_view(s.query_params@) =~= rows_view(old(self).pane_editors@[i as int].query_params@).push(blank_row(id)));
            self.put_session(i, s);
        }
    }

    /// Removes the query parameter rows with this identity from a pane,
    /// keeping one blank row when none is left. The pane's URL is then
    /// rebuilt from its parameters by the caller.
    #[verifier::rlimit(40)]
    pub fn pane_remove_query_param(&mut self, pane_id: PaneId, row_id: usize)
        ensures
            *final(self) == (ApiTester { pane_editors: final(self).pane_editors, ..*old(self) }),
            ({
                let i = session_index(old(self).pane_editors@, pane_id);
                if i < 0 {
                    final(self).pane_editors == old(self).pane_editors
                } else {
                    let before = old(self).pane_editors@[i];
                    let after = final(self).pane_editors@[i];
                    let left = without_row(rows_view(before.query_params@), row_id);
                    &&& only_session_changed(old(self).pane_editors@, final(self).pane_editors@, i)
                    &&& after == PaneEditorState { query_params: after.query_params, next_query_param_id: after.next_query_param_id, ..before }
                    &&& left.len() > 0 ==> rows_view(after.query_params@) == left && after.next_query_param_id == before.next_query_param_id
                    &&& left.len() == 0 ==> rows_view(after.query_params@) == seq![blank_row(before.next_query_param_id)]
                        && after.next_query_param_id == before.next_query_param_id.wrapping_add(1)
                }
            }),
    {
        if let Some(i) = self.pane_session(pane_id) {
            let mut s = self.take_session(i);
            remove_rows(&mut s.query_params, row_id);
            if s.query_params.len() == 0 {
                let id = s.next_query_param_id;
                s.next_query_param_id = s.next_query_param_id.wrapping_add(1);
                s.query_params.push(EditorRow::new(id, String::new(), String::new(), true, false, BodyFieldKind::Text));
                assert(rows_view(s.query_params@) =~= seq![blank_row(id)]);
            }
            self.put_session(i, s);
        }
    }

    /// Turns a query parameter of a pane on or off. The pane's URL is then
    /// rebuilt from its parameters by the caller.
    pub fn pane_toggle_query_param(&mut self, pane_id: PaneId, row_id: usize, enabled: bool)
        ensures
            *final(self) == (ApiTester { pane_editors: final(self).pane_editors, ..*old(self) }),
            ({
                let i = session_index(old(self).pane_editors@, pane_id);
                if i < 0 {
                    final(self).pane_editors == old(self).pane_editors
                } else {
                    let before = old(self).pane_editors@[i];
                    let after = final(self).pane_editors@[i];
                    let rows = rows_view(before.query_params@);
                    let k = row_index(rows, row_id);
                    &&& only_session_changed(old(self).pane_editors@, final(self).pane_editors@, i)
                    &&& after == PaneEditorState { query_params: after.query_params, ..before }
                    &&& rows_view(after.query_params@) == if k < 0 {
                        rows
                    } else {
                        rows.update(k, RowView { enabled, ..rows[k] })
                    }
                }
            }),
    {
        if let Some(i) = self.pane_session(pane_id) {
            let mut s = self.take_session(i);
            update_row_enabled(&mut s.query_params, row_id, enabled);
            self.put_session(i, s);
        }
    }

    /// Appends a blank, shared header row to a pane.
    pub fn pane_push_header(&mut self, pane_id: PaneId)
        ensures
            *final(self) == (ApiTester { pane_editors: final(self).pane_editors, ..*old(self) }),
            ({
                let i = session_index(old(self).pane_editors@, pane_id);
                if i < 0 {
                    final(self).pane_editors == old(self).pane_editors
                } else {
                    let before = old(self).pane_editors@[i];
                    let after = final(self).pane_editors@[i];
                    &&& only_session_changed(old(self).pane_editors@, final(self).pane_editors@, i)
                    &&& after == PaneEditorState { editor: after.editor, ..before }
                    &&& after.editor == RequestEditor { headers: after.editor.headers, next_header_id: after.editor.next_header_id, ..before.editor }
                    &&& rows_view(after.editor.headers@) == rows_view(before.editor.headers@).push(
                        RowView { shared: true, ..blank_row(before.editor.next_header_id) },
                    )
                    &&& after.editor.next_header_id == before.editor.next_header_id.wrapping_add(1)
                }
            }),
    {
        if let Some(i) = self.pane_session(pane_id) {
            let mut s = self.take_session(i);
            s.editor.push_header(String::new(), String::new(), true, true);
            self.put_session(i, s);
        }
    }

    /// Removes the header rows with this identity from a pane.
    pub fn pane_remove_header(&mut self, pane_id: PaneId, row_id: usize)
        ensures
            *final(self) == (ApiTester { pane_editors: final(self).pane_editors, ..*old(self) }),
            ({
                let i = session_index(old(self).pane_editors@, pane_id);
                if i < 0 {
                    final(self).pane_editors == old(self).pane_editors
                } else {
                    let before = old(self).pane_editors@[i];
                    let after = final(self).pane_editors@[i];
                    &&& only_session_changed(old(self).pane_editors@, final(self).pane_editors@, i)
                    &&& after == PaneEditorState { editor: after.editor, ..before }
                    &&& after.editor == RequestEditor { headers: after.editor.headers, ..before.editor }
                    &&& rows_view(after.editor.headers@) == without_row(rows_view(before.editor.headers@), row_id)
                }
            }),
    {
        if let Some(i) = self.pane_session(pane_id) {
            let mut s = self.take_session(i);
            remove_rows(&mut s.editor.headers, row_id);
            self.put_session(i, s);
        }
    }

    /// Turns a header of a pane on or off.
    pub fn pane_toggle_header(&mut self, pane_id: PaneId, row_id: usize, enabled: bool)
        ensures
            *final(self) == (ApiTester { pane_editors: final(self).pane_editors, ..*old(self) }),
            ({
                let i = session_index(old(self).pane_editors@, pane_id);
                if i < 0 {
                    final(self).pane_editors == old(self).pane_editors
                } else {
                    let before = old(self).pane_editors@[i];
                    let after = final(self).pane_editors@[i];
                    let rows = rows_view(before.editor.headers@);
                    let k = row_index(rows, row_id);
                    &&& only_session_changed(old(self).pane_editors@, final(self).pane_editors@, i)
                    &&& after == PaneEditorState { editor: after.editor, ..before }
                    &&& after.editor == RequestEditor { headers: after.editor.headers, ..before.editor }
                    &&& rows_view(after.editor.headers@) == if k < 0 {
                        rows
                    } else {
                        rows.update(k, RowView { enabled, ..rows[k] })
                    }
                }
            }),
    {
        if let Some(i) = self.pane_session(pane_id) {
            let mut s = self.take_session(i);
            update_row_enabled(&mut s.editor.headers, row_id, enabled);
            self.put_session(i, s);
        }
    }

    /// Marks a header of a pane as shared with the other panes, or not.
    pub fn pane_toggle_header_sharing(&mut self, pane_id: PaneId, row_id: usize, shared: bool)
        ensures
            *final(self) == (ApiTester { pane_editors: final(self).pane_editors, ..*old(self) }),
            ({
                let i = session_index(old(self).pane_editors@, pane_id);
                if i < 0 {
                    final(self).pane_editors == old(self).pane_editors
                } else {
                    let before = old(self).pane_editors@[i];
                    let after = final(self).pane_editors@[i];
                    let rows = rows_view(before.editor.headers@);
                    let k = row_index(rows, row_id);
                    &&& only_session_changed(old(self).pane_editors@, final(self).pane_editors@, i)
                    &&& after == PaneEditorState { editor: after.editor, ..before }
                    &&& after.editor == RequestEditor { headers: after.editor.headers, ..before.editor }
                    &&& rows_view(after.editor.headers@) == if k < 0 {
                        rows
                    } else {
                        rows.update(k, RowView { shared, ..rows[k] })
                    }
                }
            }),
    {
        if let Some(i) = self.pane_session(pane_id) {
            let mut s = self.take_session(i);
            update_row_shared(&mut s.editor.headers, row_id, shared);
            self.put_session(i, s);
        }
    }

    /// Appends a blank text field to a pane's form body.
    pub fn pane_push_body_field(&mut self, pane_id: PaneId)
        ensures
            *final(self) == (ApiTester { pane_editors: final(self).pane_editors, ..*old(self) }),
            ({
                let i = session_index(old(self).pane_editors@, pane_id);
                if i < 0 {
                    final(self).pane_editors == old(self).pane_editors
                } else {
                    let before = old(self).pane_editors@[i];
                    let after = final(self).pane_editors@[i];
                    &&& only_session_changed(old(self).pane_editors@, final(self).pane_editors@, i)
                    &&& after == PaneEditorState { editor: after.editor, ..before }
                    &&& after.editor == RequestEditor { body_fields: after.editor.body_fields, next_body_field_id: after.editor.next_body_field_id, ..before.editor }
                    &&& rows_view(after.editor.body_fields@) == rows_view(before.editor.body_fields@).push(
                        blank_row(before.editor.next_body_field_id),
                    )
                    &&& after.editor.next_body_field_id == before.editor.next_body_field_id.wrapping_add(1)
                }
            }),
    {
        if let Some(i) = self.pane_session(pane_id) {
            let mut s = self.take_session(i);
            s.editor.push_body_field(String::new(), String::new(), true, BodyFieldKind::Text);
            self.put_session(i, s);
        }
    }

    /// Removes the form-field rows with this identity from a pane.
    pub fn pane_remove_body_field(&mut self, pane_id: PaneId, row_id: usize)
        ensures
            *final(self) == (ApiTester { pane_editors: final(self).pane_editors, ..*old(self) }),
            ({
                let i = session_index(old(self).pane_editors@, pane_id);
                if i < 0 {
                    final(self).pane_editors == old(self).pane_editors
                } else {
                    let before = old(self).pane_editors@[i];
                    let after = final(self).pane_editors@[i];
                    &&& only_session_changed(old(self).pane_editors@, final(self).pane_editors@, i)
                    &&& after == PaneEditorState { editor: after.editor, ..before }
                    &&& after.editor == RequestEditor { body_fields: after.editor.body_fields, ..before.editor }
                    &&& rows_view(after.editor.body_fields@) == without_row(rows_view(before.editor.body_fields@), row_id)
                }
            }),
    {
        if let Some(i) = self.pane_session(pane_id) {
            let mut s = self.take_session(i);
            remove_rows(&mut s.editor.body_fields, row_id);
            self.put_session(i, s);
        }
    }

    /// Turns a form field of a pane on or off.
    pub fn pane_toggle_body_field(&mut self, pane_id: PaneId, row_id: usize, enabled: bool)
        ensures
            *final(self) == (ApiTester { pane_editors: final(self).pane_editors, ..*old(self) }),
            ({
                let i = session_index(old(self).pane_editors@, pane_id);
                if i < 0 {
                    final(self).pane_editors == old(self).pane_editors
                } else {
                    let before = old(self).pane_editors@[i];
                    let after = final(self).pane_editors@[i];
                    let rows = rows_view(before.editor.body_fields@);
                    let k = row_index(rows, row_id);
                    &&& only_session_changed(old(self).pane_editors@, final(self).pane_editors@, i)
                    &&& after == PaneEditorState { editor: after.editor, ..before }
                    &&& after.editor == RequestEditor { body_fields: after.editor.body_fields, ..before.editor }
                    &&& rows_view(after.editor.body_fields@) == if k < 0 {
                        rows
                    } else {
                        rows.update(k, RowView { enabled, ..rows[k] })
                    }
                }
            }),
    {
        if let Some(i) = self.pane_session(pane_id) {
            let mut s = self.take_session(i);
            update_row_enabled(&mut s.editor.body_fields, row_id, enabled);
            self.put_session(i, s);
        }
    }

    /// Changes whether a form field of a pane carries text or a file.
    pub fn pane_set_body_field_kind(&mut self, pane_id: PaneId, row_id: usize, kind: BodyFieldKind)
        ensures
            *final(self) == (ApiTester { pane_editors: final(self).pane_editors, ..*old(self) }),
            ({
                let i = session_index(old(self).pane_editors@, pane_id);
                if i < 0 {
                    final(self).pane_editors == old(self).pane_editors
                } else {
                    let before = old(self).pane_editors@[i];
                    let after = final(self).pane_editors@[i];
                    let rows = rows_view(before.editor.body_fields@);
                    let k = row_index(rows, row_id);
                    &&& only_session_changed(old(self).pane_editors@, final(self).pane_editors@, i)
                    &&& after == PaneEditorState { editor: after.editor, ..before }
                    &&& after.editor == RequestEditor { body_fields: after.editor.body_fields, ..before.editor }
                    &&& rows_view(after.editor.body_fields@) == if k < 0 {
                        rows
                    } else {
                        rows.update(k, RowView { kind, ..rows[k] })
                    }
                }
            }),
    {
        if let Some(i) = self.pane_session(pane_id) {
            let mut s = self.take_session(i);
            update_row_kind(&mut s.editor.body_fields, row_id, kind);
            self.put_session(i, s);
        }
    }
}

} // verus!
