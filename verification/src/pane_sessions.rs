use vstd::prelude::*;

use crate::api_tester::ApiTester;
use crate::pane_editor::{PaneEditorState, session_index, session_of};
use crate::pane_tree::{
    Pane, PaneId, PaneRoot, PaneView, is_first, lemma_first_index_facts, lemma_first_index_unique, views_of,
};
use crate::request_editor::{EditorRow, RowView, blank_row, id_after, rows_as_fields, rows_as_headers, rows_view};
use crate::request_model::{
    BodyFieldKind, HeaderEntry, RequestDraft, RequestScripts, RequestTemplate, TemplateView, headers_view,
};
use crate::request_tab_runtime::RequestTabRuntime;
use crate::text::{trim, trimmed};
use crate::request_tabs::{RequestTabs, TabView};
use crate::workspace_tab::{RequestTabId, WorkspaceTab};
use vstd::pervasive::VecAdditionalExecFns;

verus! {

/// One query parameter of a request: its key, its value, and whether it is
/// sent.
#[derive(Debug, PartialEq, Eq)]
pub struct QueryParam {
    pub key: String,
    pub value: String,
    pub enabled: bool,
}

/// The query-parameter rows a list of parameters loads as, identities
/// continuing from `start`; no parameter gives one blank row.
pub open spec fn loaded_query_rows(params: Seq<QueryParam>, start: usize) -> Seq<RowView> {
    if params.len() == 0 {
        seq![blank_row(start)]
    } else {
        Seq::new(
            params.len(),
            |i: int|
                RowView {
                    id: id_after(start, i as nat),
                    name: params[i].key@,
                    value: params[i].value@,
                    enabled: params[i].enabled,
                    shared: false,
                    kind: BodyFieldKind::Text,
                },
        )
    }
}

/// The query parameters a pane's rows stand for: every row whose key or
/// value is not blank, in order.
pub open spec fn normalized_params(rows: Seq<RowView>) -> Seq<(Seq<char>, Seq<char>, bool)>
    decreases rows.len(),
{
    if rows.len() == 0 {
        Seq::empty()
    } else {
        let rest = normalized_params(rows.drop_last());
        let r = rows.last();
        if trimmed(r.name).len() == 0 && trimmed(r.value).len() == 0 {
            rest
        } else {
            rest.push((r.name, r.value, r.enabled))
        }
    }
}

/// The contents of a list of query parameters.
pub open spec fn params_view(params: Seq<QueryParam>) -> Seq<(Seq<char>, Seq<char>, bool)> {
    params.map_values(|p: QueryParam| (p.key@, p.value@, p.enabled))
}

impl PaneEditorState {
    /// Appends a query-parameter row with the next identity.
    pub fn push_query_param_row(&mut self, key: String, value: String, enabled: bool)
        ensures
            rows_view(final(self).query_params@) == rows_view(old(self).query_params@).push(
                RowView {
                    id: old(self).next_query_param_id,
                    name: key@,
                    value: value@,
                    enabled,
                    shared: false,
                    kind: BodyFieldKind::Text,
                },
            ),
            final(self).next_query_param_id == old(self).next_query_param_id.wrapping_add(1),
            *final(self) == (PaneEditorState {
                query_params: final(self).query_params,
                next_query_param_id: final(self).next_query_param_id,
                ..*old(self)
            }),
    {
        let row = EditorRow::new(self.next_query_param_id, key, value, enabled, false, BodyFieldKind::Text);
        let ghost prev = self.query_params@;
        self.query_params.push(row);
        assert(self.query_params@ == prev.push(row));
        assert(rows_view(self.query_params@) =~= rows_view(prev).push(row@));
        self.next_query_param_id = self.next_query_param_id.wrapping_add(1);
    }

    /// The query parameters this pane's rows stand for: rows whose key and
    /// value are both blank are left out.
    pub fn normalized_query_params(&self) -> (params: Vec<QueryParam>)
        ensures
            params_view(params@) == normalized_params(rows_view(self.query_params@)),
    {
        let rows = &self.query_params;
        let ghost view = rows_view(rows@);
        let mut params: Vec<QueryParam> = Vec::new();
        let mut k: usize = 0;
        while k < rows.len()
            invariant
                view == rows_view(rows@),
                0 <= k <= rows@.len(),
                params_view(params@) == normalized_params(view.take(k as int)),
            decreases rows@.len() - k,
        {
            proof {
                assert(view.take(k + 1).drop_last() =~= view.take(k as int));
                assert(view.take(k + 1).last() == view[k as int]);
            }
            let row = &rows[k];
            let blank_key = trim(row.name.as_str()).unicode_len() == 0;
            let blank_value = trim(row.value.as_str()).unicode_len() == 0;
            if !(blank_key && blank_value) {
                let param = QueryParam { key: row.name.clone(), value: row.value.clone(), enabled: row.enabled };
                let ghost prev = params@;
                params.push(param);
                assert(params@ == prev.push(param));
                assert(params_view(params@) =~= params_view(prev).push((param.key@, param.value@, param.enabled)));
            }
            k = k + 1;
        }
        assert(view.take(rows@.len() as int) =~= view);
        params
    }

    /// Loads a request into this pane's editor: its definition (headers keep
    /// whether they are shared), the query parameters read from it, and what
    /// the tab last showed.
    pub fn load_template(
        &mut self,
        template: &RequestTemplate,
        params: &Vec<QueryParam>,
        runtime: RequestTabRuntime,
        redacted: &str,
    )
        ensures
            final(self).editor.loaded_from(old(self).editor, *template, redacted@, true),
            rows_view(final(self).query_params@) == loaded_query_rows(params@, old(self).next_query_param_id),
            final(self).next_query_param_id == id_after(
                old(self).next_query_param_id,
                final(self).query_params@.len(),
            ),
            final(self).request_pane == runtime.request_pane,
            final(self).response_tab == runtime.response_tab,
            final(self).pretty_body == runtime.pretty_body,
            final(self).copied == runtime.copied,
            final(self).pane_id == old(self).pane_id,
            final(self).active_tab_id == old(self).active_tab_id,
    {
        let start = self.next_query_param_id;
        self.query_params = Vec::new();
        let mut k: usize = 0;
        while k < params.len()
            invariant
                0 <= k <= params@.len(),
                self.next_query_param_id == id_after(start, k as nat),
                self.pane_id == old(self).pane_id,
                self.active_tab_id == old(self).active_tab_id,
                self.editor == old(self).editor,
                rows_view(self.query_params@) == Seq::new(
                    k as nat,
                    |i: int|
                        RowView {
                            id: id_after(start, i as nat),
                            name: params@[i].key@,
                            value: params@[i].value@,
                            enabled: params@[i].enabled,
                            shared: false,
                            kind: BodyFieldKind::Text,
                        },
                ),
            decreases params@.len() - k,
        {
            let param = &params[k];
            self.push_query_param_row(param.key.clone(), param.value.clone(), param.enabled);
            assert(rows_view(self.query_params@) =~= Seq::new(
                (k + 1) as nat,
                |i: int|
                    RowView {
                        id: id_after(start, i as nat),
                        name: params@[i].key@,
                        value: params@[i].value@,
                        enabled: params@[i].enabled,
                        shared: false,
                        kind: BodyFieldKind::Text,
                    },
            ));
            k = k + 1;
        }
        if params.len() == 0 {
            self.push_query_param_row(String::new(), String::new(), true);
            assert(rows_view(self.query_params@) =~= seq![blank_row(start)]);
        }
        assert(rows_view(self.query_params@) =~= loaded_query_rows(params@, start));
        self.editor.load_template(template, redacted, true);
        self.request_pane = runtime.request_pane;
        self.response_tab = runtime.response_tab;
        self.pretty_body = runtime.pretty_body;
        self.copied = runtime.copied;
    }

    /// What this pane's request shows besides its definition.
    pub fn runtime_snapshot(&self) -> (r: RequestTabRuntime)
        ensures
            r == (RequestTabRuntime {
                request_pane: self.request_pane,
                response_tab: self.response_tab,
                pretty_body: self.pretty_body,
                copied: self.copied,
            }),
    {
        RequestTabRuntime {
            request_pane: self.request_pane,
            response_tab: self.response_tab,
            pretty_body: self.pretty_body,
            copied: self.copied,
        }
    }

    /// The definition this pane's editor describes: its method as typed, the
    /// given URL (built from the URL input and the query parameters), every
    /// header row with whether it is shared, the body, the form fields and
    /// the scripts.
    pub open spec fn snapshot_view(self, url: Seq<char>) -> TemplateView {
        TemplateView {
            method: self.editor.method@,
            url,
            headers: rows_as_headers(rows_view(self.editor.headers@)),
            body: self.editor.body@,
            body_mode: self.editor.body_mode,
            raw_body_language: self.editor.raw_body_language,
            body_fields: rows_as_fields(rows_view(self.editor.body_fields@)),
            pre_request: self.editor.pre_request_script@,
            post_response: self.editor.post_response_script@,
        }
    }

    /// Snapshots this pane's editor as a definition.
    pub fn snapshot_template(&self, url: String) -> (t: RequestTemplate)
        ensures
            t@ == self.snapshot_view(url@),
            t.request.headers@.len() == self.editor.headers@.len(),
            forall|k: int|
                0 <= k < t.request.headers@.len() ==> (#[trigger] t.request.headers@[k]).shared
                    == self.editor.headers@[k].shared,
    {
        let rows = &self.editor.headers;
        let mut headers: Vec<HeaderEntry> = Vec::new();
        let mut k: usize = 0;
        while k < rows.len()
            invariant
                *rows == self.editor.headers,
                0 <= k <= rows@.len(),
                headers@.len() == k,
                headers_view(headers@) == rows_as_headers(rows_view(rows@)).take(k as int),
                forall|m: int| 0 <= m < k ==> (#[trigger] headers@[m]).shared == rows@[m].shared,
            decreases rows@.len() - k,
        {
            let row = &rows[k];
            let entry = HeaderEntry {
                name: row.name.clone(),
                value: row.value.clone(),
                enabled: row.enabled,
                shared: row.shared,
            };
            let ghost prev = headers@;
            headers.push(entry);
            assert(headers@ == prev.push(entry));
            assert(headers_view(headers@) =~= headers_view(prev).push(entry@));
            assert(headers_view(headers@) =~= rows_as_headers(rows_view(rows@)).take(k + 1));
            k = k + 1;
        }
        assert(rows_as_headers(rows_view(rows@)).take(rows@.len() as int) =~= rows_as_headers(
            rows_view(rows@),
        ));
        let drafted = self.editor.draft();
        RequestTemplate {
            request: RequestDraft {
                method: self.editor.method.clone(),
                url,
                headers,
                body: drafted.body,
                body_mode: drafted.body_mode,
                raw_body_language: drafted.raw_body_language,
                body_fields: drafted.body_fields,
            },
            scripts: RequestScripts {
                pre_request: self.editor.pre_request_script.clone(),
                post_response: self.editor.post_response_script.clone(),
            },
        }
    }
}

/// The theme colour a response status is shown in.
#[derive(Clone, Copy, Debug, PartialEq, Eq, Structural)]
pub enum StatusTone {
    Success,
    Warning,
    Danger,
}

/// Success for 2xx, warning for 4xx, danger for everything else.
pub fn status_color(status: u16) -> (tone: StatusTone)
    ensures
        tone == if 200 <= status <= 299 {
            StatusTone::Success
        } else if 400 <= status <= 499 {
            StatusTone::Warning
        } else {
            StatusTone::Danger
        },
{
    if 200 <= status && status <= 299 {
        StatusTone::Success
    } else if 400 <= status && status <= 499 {
        StatusTone::Warning
    } else {
        StatusTone::Danger
    }
}

/// Whether some pane of the layout has this identity.
pub open spec fn pane_is_live(panes: Seq<PaneView>, id: PaneId) -> bool {
    exists|k: int| 0 <= k < panes.len() && (#[trigger] panes[k]).id == id
}

/// A session survives reconciling when its pane still exists and is not the
/// primary one, whose editor is the window's own.
pub open spec fn keeps_session(panes: Seq<PaneView>, primary: Option<PaneId>) -> spec_fn(PaneEditorState) -> bool {
    |s: PaneEditorState| primary != Some(s.pane_id) && pane_is_live(panes, s.pane_id)
}

/// The request a pane's session should show: the active tab of a pane other
/// than the primary one, when that tab is a request.
pub open spec fn session_target(pane: PaneView, primary: Option<PaneId>) -> Option<RequestTabId> {
    if primary == Some(pane.id) {
        None
    } else {
        match pane.active_tab() {
            Some(WorkspaceTab::Request(t)) => Some(t),
            _ => None,
        }
    }
}

/// The panes that need a session, with the request each should show, in
/// layout order.
pub open spec fn session_targets(panes: Seq<PaneView>, primary: Option<PaneId>) -> Seq<(PaneId, RequestTabId)>
    decreases panes.len(),
{
    if panes.len() == 0 {
        Seq::empty()
    } else {
        let rest = session_targets(panes.drop_last(), primary);
        match session_target(panes.last(), primary) {
            Some(t) => rest.push((panes.last().id, t)),
            None => rest,
        }
    }
}

fn live_pane(panes: &Vec<&Pane>, id: PaneId) -> (r: bool)
    ensures
        r == pane_is_live(views_of(panes@), id),
{
    let ghost views = views_of(panes@);
    let mut k: usize = 0;
    while k < panes.len()
        invariant
            views == views_of(panes@),
            0 <= k <= panes@.len(),
            forall|m: int| 0 <= m < k ==> views[m].id != id,
        decreases panes@.len() - k,
    {
        if panes[k].id() == id {
            assert(views[k as int].id == id);
            return true;
        }
        k = k + 1;
    }
    false
}

impl ApiTester {
    /// Switches pretty-printing of a pane's response body; the copy marker is
    /// cleared.
    pub fn pane_toggle_pretty(&mut self, pane_id: PaneId)
        ensures
            *final(self) == (ApiTester { pane_editors: final(self).pane_editors, ..*old(self) }),
            ({
                let i = session_index(old(self).pane_editors@, pane_id);
                if i < 0 {
                    final(self).pane_editors == old(self).pane_editors
                } else {
                    final(self).pane_editors@ == old(self).pane_editors@.update(
                        i,
                        PaneEditorState {
                            pretty_body: !old(self).pane_editors@[i].pretty_body,
                            copied: false,
                            ..old(self).pane_editors@[i]
                        },
                    )
                }
            }),
    {
        if let Some(i) = self.pane_session(pane_id) {
            let mut s = self.take_session(i);
            s.pretty_body = !s.pretty_body;
            s.copied = false;
            self.put_session(i, s);
            assert(self.pane_editors@ =~= old(self).pane_editors@.update(
                i as int,
                PaneEditorState {
                    pretty_body: !old(self).pane_editors@[i as int].pretty_body,
                    copied: false,
                    ..old(self).pane_editors@[i as int]
                },
            ));
        }
    }

    /// Drops the sessions of the primary pane and of panes that no longer
    /// exist, and gives back, in layout order, each other pane whose active
    /// tab is a request together with that request: the sessions to make
    /// sure of next.
    pub fn reconcile_pane_editors(&mut self, panes: &PaneRoot, primary_pane_id: Option<PaneId>) -> (targets: Vec<(PaneId, RequestTabId)>)
        ensures
            *final(self) == (ApiTester { pane_editors: final(self).pane_editors, ..*old(self) }),
            final(self).pane_editors@ == old(self).pane_editors@.filter(keeps_session(panes.panes_of(), primary_pane_id)),
            targets@ == session_targets(panes.panes_of(), primary_pane_id),
    {
        let list = panes.panes();
        let ghost views = views_of(list@);
        let mut targets: Vec<(PaneId, RequestTabId)> = Vec::new();
        let mut k: usize = 0;
        while k < list.len()
            invariant
                views == views_of(list@),
                views == panes.panes_of(),
                0 <= k <= list@.len(),
                targets@ == session_targets(views.take(k as int), primary_pane_id),
            decreases list@.len() - k,
        {
            let pane = list[k];
            let id = pane.id();
            proof {
                assert(views.take(k + 1).drop_last() =~= views.take(k as int));
                assert(views.take(k + 1).last() == views[k as int]);
            }
            let is_primary = match primary_pane_id {
                Some(p) => p == id,
                None => false,
            };
            if !is_primary {
                if let Some(WorkspaceTab::Request(t)) = pane.active_tab() {
                    targets.push((id, t));
                }
            }
            k = k + 1;
        }
        assert(views.take(list@.len() as int) =~= views);

        let ghost before = self.pane_editors@;
        let ghost keep = keeps_session(views, primary_pane_id);
        let mut taken: Vec<PaneEditorState> = Vec::new();
        std::mem::swap(&mut taken, &mut self.pane_editors);
        let mut kept: Vec<PaneEditorState> = Vec::new();
        let mut j: usize = 0;
        while j < taken.len()
            invariant
                views == views_of(list@),
                before.len() == taken@.len(),
                0 <= j <= taken@.len(),
                forall|m: int| j <= m < taken@.len() ==> taken@[m] == before[m],
                kept@ == before.take(j as int).filter(keep),
                keep == keeps_session(views, primary_pane_id),
            decreases taken@.len() - j,
        {
            let mut s = PaneEditorState::vacant();
            taken.set_and_swap(j, &mut s);
            proof {
                reveal(Seq::filter);
                assert(before.take(j + 1).drop_last() =~= before.take(j as int));
                assert(before.take(j + 1).last() == before[j as int]);
            }
            let is_primary = match primary_pane_id {
                Some(p) => p == s.pane_id,
                None => false,
            };
            let live = live_pane(&list, s.pane_id);
            if !is_primary && live {
                kept.push(s);
            }
            assert(kept@ =~= before.take(j + 1).filter(keep));
            j = j + 1;
        }
        assert(before.take(before.len() as int) =~= before);
        self.pane_editors = kept;
        targets
    }
}

/// A session newly made for a pane showing a request: a fresh editor holding
/// the request's definition (row identities counting from a fresh editor's),
/// the query parameters, and what the tab last showed.
pub open spec fn fresh_session_for(
    s: PaneEditorState,
    pane_id: PaneId,
    tab_id: RequestTabId,
    template: RequestTemplate,
    params: Seq<QueryParam>,
    runtime: RequestTabRuntime,
    redacted: Seq<char>,
) -> bool {
    &&& s.pane_id == pane_id
    &&& s.active_tab_id == Some(tab_id)
    &&& s.editor.loaded_with(1, 0, template, redacted, true)
    &&& rows_view(s.query_params@) == loaded_query_rows(params, 1)
    &&& s.next_query_param_id == id_after(1, s.query_params@.len())
    &&& s.request_pane == runtime.request_pane
    &&& s.response_tab == runtime.response_tab
    &&& s.pretty_body == runtime.pretty_body
    &&& s.copied == runtime.copied
}

/// `after` is `before` with the definition of the first tab with this
/// identity replaced, when there is one.
pub open spec fn template_written(before: RequestTabs, after: RequestTabs, id: RequestTabId, template: TemplateView) -> bool {
    match before.position_of(id) {
        Some(q) => {
            &&& after.tabs@.len() == before.tabs@.len()
            &&& after.active == before.active
            &&& after.groups == before.groups
            &&& after@.tabs == before@.tabs.update(q, TabView { template, ..before@.tabs[q] })
        },
        None => after == before,
    }
}

/// `after` is `before` once pane `pane_id`'s session was replaced by a fresh
/// session showing request `tab_id`, the tab at position `p`: the new
/// session stands where the pane's old one stood, or after all sessions; the
/// old session's request, if it had one, was written back into its tab with
/// the URL `url`, and comes back in `outgoing` with what it showed.
pub open spec fn session_replaced(
    before: ApiTester,
    after: ApiTester,
    pane_id: PaneId,
    tab_id: RequestTabId,
    p: int,
    params: Seq<QueryParam>,
    runtime: RequestTabRuntime,
    url: Seq<char>,
    redacted: Seq<char>,
    outgoing: Option<(RequestTabId, RequestTabRuntime)>,
) -> bool {
    let sessions = before.pane_editors@;
    let i = session_index(sessions, pane_id);
    let j = if i >= 0 { i } else { sessions.len() as int };
    let s = after.pane_editors@[j];
    &&& fresh_session_for(s, pane_id, tab_id, before.request_tabs.tabs@[p].template, params, runtime, redacted)
    &&& after.pane_editors@ == if i >= 0 { sessions.update(i, s) } else { sessions.push(s) }
    &&& session_index(after.pane_editors@, pane_id) == j
    &&& if i >= 0 && sessions[i].active_tab_id is Some {
        let old_session = sessions[i];
        let old_id = old_session.active_tab_id->0;
        &&& outgoing == Some(
            (
                old_id,
                RequestTabRuntime {
                    request_pane: old_session.request_pane,
                    response_tab: old_session.response_tab,
                    pretty_body: old_session.pretty_body,
                    copied: old_session.copied,
                },
            ),
        )
        &&& template_written(before.request_tabs, after.request_tabs, old_id, old_session.snapshot_view(url))
    } else {
        outgoing is None && after.request_tabs == before.request_tabs
    }
    &&& after == (ApiTester { pane_editors: after.pane_editors, request_tabs: after.request_tabs, ..before })
}

/// Putting a pane's session over its first session, or after all sessions
/// when it has none, makes it the pane's session.
proof fn lemma_session_installed(before: Seq<PaneEditorState>, after: Seq<PaneEditorState>, i: int, s: PaneEditorState)
    requires
        i == session_index(before, s.pane_id),
        i >= 0 ==> i < before.len() && after == before.update(i, s),
        i < 0 ==> after == before.push(s),
    ensures
        session_index(after, s.pane_id) == if i >= 0 { i } else { before.len() as int },
{
    lemma_first_index_facts(before, session_of(s.pane_id));
    if i >= 0 {
        assert(is_first(after, session_of(s.pane_id), i));
        lemma_first_index_unique(after, session_of(s.pane_id), i);
    } else {
        assert(is_first(after, session_of(s.pane_id), before.len() as int));
        lemma_first_index_unique(after, session_of(s.pane_id), before.len() as int);
    }
}

impl ApiTester {
    /// Writes what the session at `i` holds back into its request tab, the
    /// URL built by the caller from its inputs, and gives back the tab with
    /// what it showed.
    fn write_back_session(&mut self, i: usize, url: String) -> (outgoing: Option<(RequestTabId, RequestTabRuntime)>)
        requires
            i < old(self).pane_editors@.len(),
        ensures
            *final(self) == (ApiTester { request_tabs: final(self).request_tabs, ..*old(self) }),
            ({
                let s = old(self).pane_editors@[i as int];
                match s.active_tab_id {
                    Some(old_id) => {
                        &&& outgoing == Some(
                            (
                                old_id,
                                RequestTabRuntime {
                                    request_pane: s.request_pane,
                                    response_tab: s.response_tab,
                                    pretty_body: s.pretty_body,
                                    copied: s.copied,
                                },
                            ),
                        )
                        &&& template_written(old(self).request_tabs, final(self).request_tabs, old_id, s.snapshot_view(url@))
                    },
                    None => outgoing is None && final(self).request_tabs == old(self).request_tabs,
                }
            }),
    {
        match self.pane_editors[i].active_tab_id {
            Some(old_id) => {
                let template = self.pane_editors[i].snapshot_template(url);
                let runtime = self.pane_editors[i].runtime_snapshot();
                if let Some(q) = self.request_tabs.find(&old_id) {
                    self.request_tabs.set_template_at(q, template);
                }
                Some((old_id, runtime))
            },
            None => None,
        }
    }

    /// Replaces pane `pane_id`'s session (at `i`, or none) by a fresh one
    /// showing the tab at position `p`, after writing the old session's
    /// request back into its tab.
    #[verifier::spinoff_prover]
    #[verifier::rlimit(60)]
    fn replace_pane_session(
        &mut self,
        i: Option<usize>,
        p: usize,
        pane_id: PaneId,
        tab_id: RequestTabId,
        params: &Vec<QueryParam>,
        runtime: RequestTabRuntime,
        outgoing_url: String,
        redacted: &str,
    ) -> (outgoing: Option<(RequestTabId, RequestTabRuntime)>)
        requires
            p < old(self).request_tabs.tabs@.len(),
            match i {
                Some(k) => k < old(self).pane_editors@.len() && session_index(old(self).pane_editors@, pane_id) == k,
                None => session_index(old(self).pane_editors@, pane_id) == -1,
            },
        ensures
            session_replaced(*old(self), *final(self), pane_id, tab_id, p as int, params@, runtime, outgoing_url@, redacted@, outgoing),
    {
        let template = self.request_tabs.tabs()[p].template().clone();
        let outgoing = match i {
            Some(k) => self.write_back_session(k, outgoing_url),
            None => None,
        };
        let ghost sessions = self.pane_editors@;
        let mut session = PaneEditorState::new(pane_id, tab_id);
        session.load_template(&template, params, runtime, redacted);
        let ghost installed = session;
        match i {
            Some(k) => {
                self.put_session(k, session);
                proof {
                    lemma_session_installed(sessions, self.pane_editors@, k as int, installed);
                }
            },
            None => {
                self.pane_editors.push(session);
                proof {
                    lemma_session_installed(sessions, self.pane_editors@, -1, installed);
                }
            },
        }
        outgoing
    }

    /// Makes sure a pane's session shows a request. Nothing changes when the
    /// request is not open or the session already shows it. Otherwise the
    /// session's current request (if any) is written back into its tab, with
    /// the URL the caller built from the session's inputs, and the pane gets
    /// a fresh session holding the request, the given query parameters and
    /// what the tab last showed. Gives back the request the session showed
    /// before, with what it showed, for the caller to keep.
    pub fn ensure_pane_editor_for(
        &mut self,
        pane_id: PaneId,
        tab_id: RequestTabId,
        params: &Vec<QueryParam>,
        runtime: RequestTabRuntime,
        outgoing_url: String,
        redacted: &str,
    ) -> (outgoing: Option<(RequestTabId, RequestTabRuntime)>)
        ensures
            ({
                let i = session_index(old(self).pane_editors@, pane_id);
                let showing = i >= 0 && old(self).pane_editors@[i].active_tab_id == Some(tab_id);
                match old(self).request_tabs.position_of(tab_id) {
                    None => outgoing is None && *final(self) == *old(self),
                    Some(p) => if showing {
                        outgoing is None && *final(self) == *old(self)
                    } else {
                        session_replaced(*old(self), *final(self), pane_id, tab_id, p, params@, runtime, outgoing_url@, redacted@, outgoing)
                    },
                }
            }),
            old(self).request_tabs.position_of(tab_id) is Some ==> ({
                let k = session_index(final(self).pane_editors@, pane_id);
                k >= 0 && final(self).pane_editors@[k].active_tab_id == Some(tab_id)
            }),
    {
        let p = match self.request_tabs.find(&tab_id) {
            Some(p) => p,
            None => return None,
        };
        let i = self.pane_session(pane_id);
        if let Some(k) = i {
            if let Some(current) = self.pane_editors[k].active_tab_id {
                if current == tab_id {
                    return None;
                }
            }
        }
        self.replace_pane_session(i, p, pane_id, tab_id, params, runtime, outgoing_url, redacted)
    }
}

} // verus!
