use vstd::prelude::*;

use crate::pane_tree::{first_index, is_first, lemma_first_index_facts, lemma_first_index_unique};
use crate::request_model::{
    BodyField, BodyFieldKind, BodyFieldView, BodyMode, HeaderEntry, HeaderView, RawBodyLanguage,
    RequestDraft, RequestScripts, RequestTemplate, TemplateView, fields_view, headers_view,
};
use crate::text::{
    eq_ignore_ascii_case, is_space, owned, push_char, push_str, same_ignoring_ascii_case, str_eq, trim,
    trimmed,
};
use vstd::pervasive::VecAdditionalExecFns;

verus! {

/// One row of a key/value editor: a header, a form field or a query
/// parameter. `shared` only matters for headers, `kind` only for form fields.
#[derive(Debug, PartialEq, Eq)]
pub struct EditorRow {
    pub id: usize,
    pub name: String,
    pub value: String,
    pub enabled: bool,
    pub shared: bool,
    pub kind: BodyFieldKind,
}

/// The content of an editor row.
pub struct RowView {
    pub id: usize,
    pub name: Seq<char>,
    pub value: Seq<char>,
    pub enabled: bool,
    pub shared: bool,
    pub kind: BodyFieldKind,
}

impl View for EditorRow {
    type V = RowView;

    open spec fn view(&self) -> RowView {
        RowView {
            id: self.id,
            name: self.name@,
            value: self.value@,
            enabled: self.enabled,
            shared: self.shared,
            kind: self.kind,
        }
    }
}

/// The contents of a list of rows.
pub open spec fn rows_view(rows: Seq<EditorRow>) -> Seq<RowView> {
    rows.map_values(|r: EditorRow| r@)
}

/// Rows that carry this identity.
pub open spec fn row_has_id(id: usize) -> spec_fn(RowView) -> bool {
    |r: RowView| r.id == id
}

/// The position of the first row with this identity, or -1.
pub open spec fn row_index(rows: Seq<RowView>, id: usize) -> int {
    first_index(rows, row_has_id(id))
}

/// Rows that do not carry this identity.
pub open spec fn row_lacks_id(id: usize) -> spec_fn(RowView) -> bool {
    |r: RowView| r.id != id
}

/// The rows without those that carry this identity.
pub open spec fn without_row(rows: Seq<RowView>, id: usize) -> Seq<RowView> {
    rows.filter(row_lacks_id(id))
}

/// A blank row: enabled, not shared, text.
pub open spec fn blank_row(id: usize) -> RowView {
    RowView { id, name: Seq::empty(), value: Seq::empty(), enabled: true, shared: false, kind: BodyFieldKind::Text }
}

impl EditorRow {
    pub fn new(id: usize, name: String, value: String, enabled: bool, shared: bool, kind: BodyFieldKind) -> (r: EditorRow)
        ensures
            r.id == id,
            r.name == name,
            r.value == value,
            r.enabled == enabled,
            r.shared == shared,
            r.kind == kind,
    {
        EditorRow { id, name, value, enabled, shared, kind }
    }

    fn blank(id: usize) -> (r: EditorRow)
        ensures
            r@ == blank_row(id),
    {
        EditorRow {
            id,
            name: String::new(),
            value: String::new(),
            enabled: true,
            shared: false,
            kind: BodyFieldKind::Text,
        }
    }

    fn copy_with_id(&self, id: usize) -> (r: EditorRow)
        ensures
            r@ == (RowView { id, ..self@ }),
    {
        EditorRow {
            id,
            name: self.name.clone(),
            value: self.value.clone(),
            enabled: self.enabled,
            shared: self.shared,
            kind: self.kind,
        }
    }
}

/// The position of the first row with this identity.
pub fn find_row(rows: &Vec<EditorRow>, id: usize) -> (r: Option<usize>)
    ensures
        match r {
            Some(k) => k < rows@.len() && row_index(rows_view(rows@), id) == k,
            None => row_index(rows_view(rows@), id) == -1,
        },
{
    let ghost view = rows_view(rows@);
    let mut k: usize = 0;
    while k < rows.len()
        invariant
            view == rows_view(rows@),
            0 <= k <= rows@.len(),
            forall|m: int| 0 <= m < k ==> view[m].id != id,
        decreases rows@.len() - k,
    {
        if rows[k].id == id {
            proof {
                assert(is_first(view, row_has_id(id), k as int));
                lemma_first_index_unique(view, row_has_id(id), k as int);
            }
            return Some(k);
        }
        k = k + 1;
    }
    proof {
        lemma_first_index_facts(view, row_has_id(id));
        assert forall|j: int| 0 <= j < view.len() implies !row_has_id(id)(view[j]) by {
        }
    }
    None
}

/// Removes every row with this identity.
pub fn remove_rows(rows: &mut Vec<EditorRow>, id: usize)
    ensures
        rows_view(final(rows)@) == without_row(rows_view(old(rows)@), id),
{
    let ghost before = rows_view(rows@);
    let mut kept: Vec<EditorRow> = Vec::new();
    let mut taken = Vec::new();
    std::mem::swap(&mut taken, rows);
    let mut k: usize = 0;
    while k < taken.len()
        invariant
            before == rows_view(taken@),
            0 <= k <= taken@.len(),
            rows_view(kept@) == before.take(k as int).filter(row_lacks_id(id)),
        decreases taken@.len() - k,
    {
        let row = taken[k].copy_with_id(taken[k].id);
        proof {
            reveal(Seq::filter);
            assert(before.take(k + 1).drop_last() =~= before.take(k as int));
            assert(before.take(k + 1).last() == before[k as int]);
            assert(row@ == before[k as int]);
        }
        if row.id != id {
            kept.push(row);
            assert(rows_view(kept@) =~= before.take(k + 1).filter(row_lacks_id(id)));
        } else {
            assert(rows_view(kept@) =~= before.take(k + 1).filter(row_lacks_id(id)));
        }
        k = k + 1;
    }
    assert(before.take(taken@.len() as int) =~= before);
    *rows = kept;
}

/// Replaces the row at a position.
pub fn set_row(rows: &mut Vec<EditorRow>, k: usize, row: EditorRow)
    requires
        k < old(rows)@.len(),
    ensures
        rows_view(final(rows)@) == rows_view(old(rows)@).update(k as int, row@),
{
    rows.set(k, row);
    assert(rows_view(rows@) =~= rows_view(old(rows)@).update(k as int, row@));
}

/// Changes the first row with this identity, if there is one.
pub fn update_row_enabled(rows: &mut Vec<EditorRow>, id: usize, enabled: bool)
    ensures
        row_index(rows_view(old(rows)@), id) == -1 ==> rows_view(final(rows)@) == rows_view(old(rows)@),
        row_index(rows_view(old(rows)@), id) >= 0 ==> rows_view(final(rows)@) == rows_view(old(rows)@).update(
            row_index(rows_view(old(rows)@), id),
            RowView { enabled, ..rows_view(old(rows)@)[row_index(rows_view(old(rows)@), id)] },
        ),
{
    if let Some(k) = find_row(rows, id) {
        let row = EditorRow { enabled, ..rows[k].copy_with_id(rows[k].id) };
        set_row(rows, k, row);
    }
}

pub fn update_row_shared(rows: &mut Vec<EditorRow>, id: usize, shared: bool)
    ensures
        row_index(rows_view(old(rows)@), id) == -1 ==> rows_view(final(rows)@) == rows_view(old(rows)@),
        row_index(rows_view(old(rows)@), id) >= 0 ==> rows_view(final(rows)@) == rows_view(old(rows)@).update(
            row_index(rows_view(old(rows)@), id),
            RowView { shared, ..rows_view(old(rows)@)[row_index(rows_view(old(rows)@), id)] },
        ),
{
    if let Some(k) = find_row(rows, id) {
        let row = EditorRow { shared, ..rows[k].copy_with_id(rows[k].id) };
        set_row(rows, k, row);
    }
}

pub fn update_row_kind(rows: &mut Vec<EditorRow>, id: usize, kind: BodyFieldKind)
    ensures
        row_index(rows_view(old(rows)@), id) == -1 ==> rows_view(final(rows)@) == rows_view(old(rows)@),
        row_index(rows_view(old(rows)@), id) >= 0 ==> rows_view(final(rows)@) == rows_view(old(rows)@).update(
            row_index(rows_view(old(rows)@), id),
            RowView { kind, ..rows_view(old(rows)@)[row_index(rows_view(old(rows)@), id)] },
        ),
{
    if let Some(k) = find_row(rows, id) {
        let row = EditorRow { kind, ..rows[k].copy_with_id(rows[k].id) };
        set_row(rows, k, row);
    }
}

/// The parts of a request whose edits are tracked separately.
#[derive(Clone, Copy, Debug, PartialEq, Eq, Structural)]
pub enum RequestDirtyPart {
    Method,
    Url,
    Headers,
    RawBody,
    BodyMode,
    RawBodyLanguage,
    BodyFields,
    PreScript,
    PostScript,
}

/// Which parts of the request differ from the loaded definition, and whether
/// a definition is being loaded (while it is, nothing is tracked).
#[derive(Clone, Copy, Debug, PartialEq, Eq, Structural)]
pub struct RequestDirty {
    pub method: bool,
    pub url: bool,
    pub headers: bool,
    pub raw_body: bool,
    pub body_mode: bool,
    pub raw_body_language: bool,
    pub body_fields: bool,
    pub pre_script: bool,
    pub post_script: bool,
    pub hydrating: bool,
}

impl RequestDirty {
    pub open spec fn part(self, part: RequestDirtyPart) -> bool {
        match part {
            RequestDirtyPart::Method => self.method,
            RequestDirtyPart::Url => self.url,
            RequestDirtyPart::Headers => self.headers,
            RequestDirtyPart::RawBody => self.raw_body,
            RequestDirtyPart::BodyMode => self.body_mode,
            RequestDirtyPart::RawBodyLanguage => self.raw_body_language,
            RequestDirtyPart::BodyFields => self.body_fields,
            RequestDirtyPart::PreScript => self.pre_script,
            RequestDirtyPart::PostScript => self.post_script,
        }
    }

    /// The flags with one part set.
    pub open spec fn with_part(self, part: RequestDirtyPart, dirty: bool) -> RequestDirty {
        match part {
            RequestDirtyPart::Method => RequestDirty { method: dirty, ..self },
            RequestDirtyPart::Url => RequestDirty { url: dirty, ..self },
            RequestDirtyPart::Headers => RequestDirty { headers: dirty, ..self },
            RequestDirtyPart::RawBody => RequestDirty { raw_body: dirty, ..self },
            RequestDirtyPart::BodyMode => RequestDirty { body_mode: dirty, ..self },
            RequestDirtyPart::RawBodyLanguage => RequestDirty { raw_body_language: dirty, ..self },
            RequestDirtyPart::BodyFields => RequestDirty { body_fields: dirty, ..self },
            RequestDirtyPart::PreScript => RequestDirty { pre_script: dirty, ..self },
            RequestDirtyPart::PostScript => RequestDirty { post_script: dirty, ..self },
        }
    }

    /// Some part differs.
    pub open spec fn any_part(self) -> bool {
        self.method || self.url || self.headers || self.raw_body || self.body_mode
            || self.raw_body_language || self.body_fields || self.pre_script || self.post_script
    }

    pub fn clean() -> (r: RequestDirty)
        ensures
            !r.any_part(),
            !r.hydrating,
    {
        RequestDirty {
            method: false,
            url: false,
            headers: false,
            raw_body: false,
            body_mode: false,
            raw_body_language: false,
            body_fields: false,
            pre_script: false,
            post_script: false,
            hydrating: false,
        }
    }

    pub fn any(&self) -> (r: bool)
        ensures
            r == self.any_part(),
    {
        self.method || self.url || self.headers || self.raw_body || self.body_mode
            || self.raw_body_language || self.body_fields || self.pre_script || self.post_script
    }

    pub fn is_hydrating(&self) -> (r: bool)
        ensures
            r == self.hydrating,
    {
        self.hydrating
    }

    /// Records whether one part differs; the other parts are kept.
    pub fn set(&mut self, part: RequestDirtyPart, dirty: bool)
        ensures
            *final(self) == old(self).with_part(part, dirty),
    {
        match part {
            RequestDirtyPart::Method => self.method = dirty,
            RequestDirtyPart::Url => self.url = dirty,
            RequestDirtyPart::Headers => self.headers = dirty,
            RequestDirtyPart::RawBody => self.raw_body = dirty,
            RequestDirtyPart::BodyMode => self.body_mode = dirty,
            RequestDirtyPart::RawBodyLanguage => self.raw_body_language = dirty,
            RequestDirtyPart::BodyFields => self.body_fields = dirty,
            RequestDirtyPart::PreScript => self.pre_script = dirty,
            RequestDirtyPart::PostScript => self.post_script = dirty,
        }
    }
}

/// What sits in the request editor right now: the method and URL inputs,
/// the header and form-field rows, the raw body, the scripts.
#[derive(Debug, PartialEq, Eq)]
pub struct RequestEditor {
    pub method: String,
    pub url: String,
    pub headers: Vec<EditorRow>,
    pub next_header_id: usize,
    pub body: String,
    pub body_mode: BodyMode,
    pub raw_body_language: RawBodyLanguage,
    pub body_fields: Vec<EditorRow>,
    pub next_body_field_id: usize,
    pub pre_request_script: String,
    pub post_response_script: String,
}

/// A list of rows read as headers.
pub open spec fn rows_as_headers(rows: Seq<RowView>) -> Seq<HeaderView> {
    rows.map_values(|r: RowView| (r.name, r.value, r.enabled))
}

/// A list of rows read as form fields.
pub open spec fn rows_as_fields(rows: Seq<RowView>) -> Seq<BodyFieldView> {
    rows.map_values(|r: RowView| (r.enabled, r.name, r.value, r.kind))
}

/// ASCII letters in upper case, everything else unchanged.
pub open spec fn ascii_upper(s: Seq<char>) -> Seq<char> {
    s.map_values(|c: char| if 'a' <= c <= 'z' {
        ((c as u32) - 32) as char
    } else {
        c
    })
}

/// A lower-case ASCII letter in upper case; every other character is
/// unchanged.
fn upper_char(c: char) -> (r: char)
    ensures
        r == (if 'a' <= c <= 'z' {
            ((c as u32) - 32) as char
        } else {
            c
        }),
{
    if 'a' <= c && c <= 'z' {
        ((c as u8) - 32) as char
    } else {
        c
    }
}

fn to_ascii_uppercase(s: &str) -> (r: String)
    ensures
        r@ == ascii_upper(s@),
{
    let n = s.unicode_len();
    let mut out = String::new();
    let mut k: usize = 0;
    while k < n
        invariant
            n == s@.len(),
            0 <= k <= n,
            out@ == ascii_upper(s@.take(k as int)),
        decreases n - k,
    {
        push_char(&mut out, upper_char(s.get_char(k)));
        assert(ascii_upper(s@.take(k + 1)) =~= ascii_upper(s@.take(k as int)).push(
            ascii_upper(s@.take(k + 1))[k as int],
        ));
        k = k + 1;
    }
    assert(s@.take(n as int) =~= s@);
    out
}

impl RequestEditor {
    /// The request that the editor describes: the method without white space
    /// and in upper case, and the rows as headers and form fields.
    pub open spec fn drafted(self) -> TemplateView {
        TemplateView {
            method: ascii_upper(trimmed(self.method@)),
            url: self.url@,
            headers: rows_as_headers(rows_view(self.headers@)),
            body: self.body@,
            body_mode: self.body_mode,
            raw_body_language: self.raw_body_language,
            body_fields: rows_as_fields(rows_view(self.body_fields@)),
            pre_request: self.pre_request_script@,
            post_response: self.post_response_script@,
        }
    }

    /// Whether one part of the editor differs from a definition.
    pub open spec fn differs(self, baseline: TemplateView, part: RequestDirtyPart) -> bool {
        match part {
            RequestDirtyPart::Method => !same_ignoring_ascii_case(trimmed(self.method@), baseline.method),
            RequestDirtyPart::Url => self.url@ != baseline.url,
            RequestDirtyPart::Headers => rows_as_headers(rows_view(self.headers@)) != baseline.headers,
            RequestDirtyPart::RawBody => self.body@ != baseline.body,
            RequestDirtyPart::BodyMode => self.body_mode != baseline.body_mode,
            RequestDirtyPart::RawBodyLanguage => self.raw_body_language != baseline.raw_body_language,
            RequestDirtyPart::BodyFields => rows_as_fields(rows_view(self.body_fields@)) != baseline.body_fields,
            RequestDirtyPart::PreScript => self.pre_request_script@ != baseline.pre_request,
            RequestDirtyPart::PostScript => self.post_response_script@ != baseline.post_response,
        }
    }

    /// An editor holding a blank `GET` request with one blank header row.
    pub fn new() -> (e: RequestEditor)
        ensures
            e.method@ == "GET"@,
            e.url@.len() == 0,
            rows_view(e.headers@) == seq![blank_row(0)],
            e.next_header_id == 1,
            e.body@.len() == 0,
            e.body_mode == BodyMode::NoBody,
            e.body_fields@.len() == 0,
            e.next_body_field_id == 0,
    {
        let mut headers = Vec::new();
        headers.push(EditorRow::blank(0));
        assert(rows_view(headers@) =~= seq![blank_row(0)]);
        RequestEditor {
            method: owned("GET"),
            url: String::new(),
            headers,
            next_header_id: 1,
            body: String::new(),
            body_mode: BodyMode::NoBody,
            raw_body_language: RawBodyLanguage::Json,
            body_fields: Vec::new(),
            next_body_field_id: 0,
            pre_request_script: String::new(),
            post_response_script: String::new(),
        }
    }

    /// Appends a header row with the next identity.
    pub fn push_header(&mut self, name: String, value: String, enabled: bool, shared: bool)
        ensures
            rows_view(final(self).headers@) == rows_view(old(self).headers@).push(
                RowView { id: old(self).next_header_id, name: name@, value: value@, enabled, shared, kind: BodyFieldKind::Text },
            ),
            final(self).next_header_id == old(self).next_header_id.wrapping_add(1),
            *final(self) == (RequestEditor { headers: final(self).headers, next_header_id: final(self).next_header_id, ..*old(self) }),
    {
        let id = self.next_header_id;
        self.next_header_id = self.next_header_id.wrapping_add(1);
        self.headers.push(EditorRow::new(id, name, value, enabled, shared, BodyFieldKind::Text));
        assert(rows_view(self.headers@) =~= rows_view(old(self).headers@).push(
            RowView { id, name: name@, value: value@, enabled, shared, kind: BodyFieldKind::Text },
        ));
    }

    /// Appends a form-field row with the next identity.
    pub fn push_body_field(&mut self, name: String, value: String, enabled: bool, kind: BodyFieldKind)
        ensures
            rows_view(final(self).body_fields@) == rows_view(old(self).body_fields@).push(
                RowView { id: old(self).next_body_field_id, name: name@, value: value@, enabled, shared: false, kind },
            ),
            final(self).next_body_field_id == old(self).next_body_field_id.wrapping_add(1),
            *final(self) == (RequestEditor { body_fields: final(self).body_fields, next_body_field_id: final(self).next_body_field_id, ..*old(self) }),
    {
        let id = self.next_body_field_id;
        self.next_body_field_id = self.next_body_field_id.wrapping_add(1);
        self.body_fields.push(EditorRow::new(id, name, value, enabled, false, kind));
        assert(rows_view(self.body_fields@) =~= rows_view(old(self).body_fields@).push(
            RowView { id, name: name@, value: value@, enabled, shared: false, kind },
        ));
    }

    /// The request that the editor describes.
    pub fn draft(&self) -> (d: RequestDraft)
        ensures
            d.method@ == self.drafted().method,
            d.url@ == self.drafted().url,
            headers_view(d.headers@) == self.drafted().headers,
            d.body@ == self.drafted().body,
            d.body_mode == self.body_mode,
            d.raw_body_language == self.raw_body_language,
            fields_view(d.body_fields@) == self.drafted().body_fields,
    {
        let mut headers: Vec<HeaderEntry> = Vec::new();
        let mut k: usize = 0;
        while k < self.headers.len()
            invariant
                0 <= k <= self.headers@.len(),
                headers_view(headers@) == rows_as_headers(rows_view(self.headers@)).take(k as int),
            decreases self.headers@.len() - k,
        {
            let row = &self.headers[k];
            let entry = HeaderEntry { name: row.name.clone(), value: row.value.clone(), enabled: row.enabled, shared: true };
            assert(entry@ == rows_as_headers(rows_view(self.headers@))[k as int]);
            let ghost prev = headers@;
            headers.push(entry);
            assert(headers@ == prev.push(entry));
            assert(headers_view(headers@) =~= headers_view(prev).push(entry@));
            assert(headers_view(headers@) =~= rows_as_headers(rows_view(self.headers@)).take(k + 1));
            k = k + 1;
        }
        let mut fields: Vec<BodyField> = Vec::new();
        let mut j: usize = 0;
        while j < self.body_fields.len()
            invariant
                0 <= j <= self.body_fields@.len(),
                fields_view(fields@) == rows_as_fields(rows_view(self.body_fields@)).take(j as int),
            decreases self.body_fields@.len() - j,
        {
            let row = &self.body_fields[j];
            let field = BodyField {
                enabled: row.enabled,
                name: row.name.clone(),
                value: row.value.clone(),
                kind: row.kind,
            };
            assert(field@ == rows_as_fields(rows_view(self.body_fields@))[j as int]);
            let ghost prev = fields@;
            fields.push(field);
            assert(fields@ == prev.push(field));
            assert(fields_view(fields@) =~= fields_view(prev).push(field@));
            assert(fields_view(fields@) =~= rows_as_fields(rows_view(self.body_fields@)).take(j + 1));
            j = j + 1;
        }
        assert(rows_as_headers(rows_view(self.headers@)).take(self.headers@.len() as int) =~= rows_as_headers(rows_view(self.headers@)));
        assert(rows_as_fields(rows_view(self.body_fields@)).take(self.body_fields@.len() as int) =~= rows_as_fields(rows_view(self.body_fields@)));
        RequestDraft {
            method: to_ascii_uppercase(trim(self.method.as_str())),
            url: self.url.clone(),
            headers,
            body: self.body.clone(),
            body_mode: self.body_mode,
            raw_body_language: self.raw_body_language,
            body_fields: fields,
        }
    }

    /// The definition that the editor describes: its request and scripts.
    pub fn template(&self) -> (t: RequestTemplate)
        ensures
            t@ == self.drafted(),
    {
        RequestTemplate {
            request: self.draft(),
            scripts: RequestScripts {
                pre_request: self.pre_request_script.clone(),
                post_response: self.post_response_script.clone(),
            },
        }
    }

    /// Whether one part of the editor differs from a definition.
    pub fn part_differs(&self, baseline: &RequestTemplate, part: RequestDirtyPart) -> (r: bool)
        ensures
            r == self.differs(baseline@, part),
    {
        match part {
            RequestDirtyPart::Method => !eq_ignore_ascii_case(
                trim(self.method.as_str()),
                baseline.request.method.as_str(),
            ),
            RequestDirtyPart::Url => !(self.url == baseline.request.url),
            RequestDirtyPart::Headers => {
                let rows = &self.headers;
                let saved = &baseline.request.headers;
                if rows.len() != saved.len() {
                    assert(rows_as_headers(rows_view(rows@)).len() != headers_view(saved@).len());
                    return true;
                }
                let mut k: usize = 0;
                while k < rows.len()
                    invariant
                        *rows == self.headers,
                        *saved == baseline.request.headers,
                        part == RequestDirtyPart::Headers,
                        rows@.len() == saved@.len(),
                        0 <= k <= rows@.len(),
                        forall|m: int| 0 <= m < k ==> rows_as_headers(rows_view(rows@))[m] == headers_view(saved@)[m],
                    decreases rows@.len() - k,
                {
                    if rows[k].enabled != saved[k].enabled || !(rows[k].name == saved[k].name)
                        || !(rows[k].value == saved[k].value) {
                        assert(rows_as_headers(rows_view(rows@))[k as int] != headers_view(saved@)[k as int]);
                        return true;
                    }
                    k = k + 1;
                }
                assert(rows_as_headers(rows_view(rows@)) =~= headers_view(saved@));
                false
            },
            RequestDirtyPart::RawBody => !(self.body == baseline.request.body),
            RequestDirtyPart::BodyMode => self.body_mode != baseline.request.body_mode,
            RequestDirtyPart::RawBodyLanguage => self.raw_body_language != baseline.request.raw_body_language,
            RequestDirtyPart::BodyFields => {
                let rows = &self.body_fields;
                let saved = &baseline.request.body_fields;
                if rows.len() != saved.len() {
                    assert(rows_as_fields(rows_view(rows@)).len() != fields_view(saved@).len());
                    return true;
                }
                let mut k: usize = 0;
                while k < rows.len()
                    invariant
                        *rows == self.body_fields,
                        *saved == baseline.request.body_fields,
                        part == RequestDirtyPart::BodyFields,
                        rows@.len() == saved@.len(),
                        0 <= k <= rows@.len(),
                        forall|m: int| 0 <= m < k ==> rows_as_fields(rows_view(rows@))[m] == fields_view(saved@)[m],
                    decreases rows@.len() - k,
                {
                    if rows[k].enabled != saved[k].enabled || rows[k].kind != saved[k].kind || !(
                    rows[k].name == saved[k].name) || !(rows[k].value == saved[k].value) {
                        assert(rows_as_fields(rows_view(rows@))[k as int] != fields_view(saved@)[k as int]);
                        return true;
                    }
                    k = k + 1;
                }
                assert(rows_as_fields(rows_view(rows@)) =~= fields_view(saved@));
                false
            },
            RequestDirtyPart::PreScript => !(self.pre_request_script == baseline.scripts.pre_request),
            RequestDirtyPart::PostScript => !(self.post_response_script == baseline.scripts.post_response),
        }
    }
}

/// Moves the last row to a position.
pub fn move_last_to(rows: &mut Vec<EditorRow>, k: usize)
    requires
        old(rows)@.len() > 0,
        k < old(rows)@.len(),
    ensures
        rows_view(final(rows)@) == rows_view(old(rows)@).drop_last().insert(k as int, rows_view(old(rows)@).last()),
{
    let row = rows.pop().unwrap();
    rows.insert(k, row);
    assert(rows_view(rows@) =~= rows_view(old(rows)@).drop_last().insert(k as int, rows_view(old(rows)@).last()));
}

/// A copy of a row under another identity, as the duplicate actions make it:
/// not shared, and a text field unless `keep_kind`.
pub open spec fn duplicated_row(r: RowView, id: usize, keep_kind: bool) -> RowView {
    RowView {
        id,
        shared: false,
        kind: if keep_kind {
            r.kind
        } else {
            BodyFieldKind::Text
        },
        ..r
    }
}


/// The identity the editor gives to a row after `n` more rows were added,
/// counting from `start`.
pub open spec fn id_after(start: usize, n: nat) -> usize
    decreases n,
{
    if n == 0 {
        start
    } else {
        id_after(start, (n - 1) as nat).wrapping_add(1)
    }
}

/// The row a stored header loads as. A value equal to the redaction marker
/// stands for a secret that was not stored: it loads empty and disabled.
/// Headers keep their sharing only where the editor tracks it.
pub open spec fn loaded_header(h: HeaderEntry, id: usize, redacted: Seq<char>, track_sharing: bool) -> RowView {
    let was_redacted = h.value@ == redacted;
    RowView {
        id,
        name: h.name@,
        value: if was_redacted { Seq::empty() } else { h.value@ },
        enabled: h.enabled && !was_redacted,
        shared: track_sharing && h.shared,
        kind: BodyFieldKind::Text,
    }
}

/// The header rows a definition loads as: one row per stored header, or a
/// single blank row when there is none.
pub open spec fn loaded_header_rows(headers: Seq<HeaderEntry>, start: usize, redacted: Seq<char>, track_sharing: bool) -> Seq<RowView> {
    if headers.len() == 0 {
        seq![RowView { shared: track_sharing, ..blank_row(start) }]
    } else {
        Seq::new(headers.len(), |i: int| loaded_header(headers[i], id_after(start, i as nat), redacted, track_sharing))
    }
}

/// The row a stored form field loads as.
pub open spec fn loaded_field(f: BodyField, id: usize) -> RowView {
    RowView { id, name: f.name@, value: f.value@, enabled: f.enabled, shared: false, kind: f.kind }
}

/// Whether a body mode edits its body as form fields.
pub open spec fn is_form_mode(mode: BodyMode) -> bool {
    mode == BodyMode::FormUrlEncoded || mode == BodyMode::MultipartFormData
}

/// The form-field rows a definition loads as: one row per stored field; a
/// form body with no field gets one blank row.
pub open spec fn loaded_field_rows(fields: Seq<BodyField>, start: usize, mode: BodyMode) -> Seq<RowView> {
    if fields.len() == 0 && is_form_mode(mode) {
        seq![blank_row(start)]
    } else {
        Seq::new(fields.len(), |i: int| loaded_field(fields[i], id_after(start, i as nat)))
    }
}

impl RequestEditor {
    /// The editor holds a loaded definition: every input takes the stored
    /// text as it is, and the rows are rebuilt from the stored headers and
    /// form fields, their identities counting from the given starts.
    pub open spec fn loaded_with(self, header_start: usize, field_start: usize, t: RequestTemplate, redacted: Seq<char>, track_sharing: bool) -> bool {
        &&& self.method@ == t.request.method@
        &&& self.url@ == t.request.url@
        &&& self.body@ == t.request.body@
        &&& self.body_mode == t.request.body_mode
        &&& self.raw_body_language == t.request.raw_body_language
        &&& self.pre_request_script@ == t.scripts.pre_request@
        &&& self.post_response_script@ == t.scripts.post_response@
        &&& rows_view(self.headers@) == loaded_header_rows(t.request.headers@, header_start, redacted, track_sharing)
        &&& self.next_header_id == id_after(header_start, self.headers@.len())
        &&& rows_view(self.body_fields@) == loaded_field_rows(t.request.body_fields@, field_start, t.request.body_mode)
        &&& self.next_body_field_id == id_after(field_start, self.body_fields@.len())
    }

    /// The editor `self` is `before` after loading a definition: the row
    /// identities continue from the counters of `before`.
    pub open spec fn loaded_from(self, before: RequestEditor, t: RequestTemplate, redacted: Seq<char>, track_sharing: bool) -> bool {
        self.loaded_with(before.next_header_id, before.next_body_field_id, t, redacted, track_sharing)
    }

    /// Replaces what the editor holds with a stored definition. A header
    /// whose value is the redaction marker loads empty and disabled; with
    /// `track_sharing` the header rows keep whether they are shared.
    pub fn load_template(&mut self, template: &RequestTemplate, redacted: &str, track_sharing: bool)
        ensures
            final(self).loaded_from(*old(self), *template, redacted@, track_sharing),
    {
        let request = &template.request;
        let start = self.next_header_id;
        let headers = &request.headers;
        self.headers = Vec::new();
        let mut k: usize = 0;
        while k < headers.len()
            invariant
                *headers == template.request.headers,
                0 <= k <= headers@.len(),
                self.next_header_id == id_after(start, k as nat),
                self.next_body_field_id == old(self).next_body_field_id,
                rows_view(self.headers@) == Seq::new(
                    k as nat,
                    |i: int| loaded_header(headers@[i], id_after(start, i as nat), redacted@, track_sharing),
                ),
            decreases headers@.len() - k,
        {
            let header = &headers[k];
            let was_redacted = str_eq(header.value.as_str(), redacted);
            let value = if was_redacted { String::new() } else { header.value.clone() };
            let ghost prev = rows_view(self.headers@);
            self.push_header(header.name.clone(), value, header.enabled && !was_redacted, track_sharing && header.shared);
            assert(rows_view(self.headers@) =~= Seq::new(
                (k + 1) as nat,
                |i: int| loaded_header(headers@[i], id_after(start, i as nat), redacted@, track_sharing),
            ));
            k = k + 1;
        }
        if headers.len() == 0 {
            self.push_header(String::new(), String::new(), true, track_sharing);
            assert(rows_view(self.headers@) =~= seq![RowView { shared: track_sharing, ..blank_row(start) }]);
        }
        assert(rows_view(self.headers@) =~= loaded_header_rows(headers@, start, redacted@, track_sharing));
        let ghost header_rows = rows_view(self.headers@);
        let ghost next_header = self.next_header_id;

        let field_start = self.next_body_field_id;
        let fields = &request.body_fields;
        self.body_fields = Vec::new();
        let mut j: usize = 0;
        while j < fields.len()
            invariant
                *fields == template.request.body_fields,
                0 <= j <= fields@.len(),
                self.next_body_field_id == id_after(field_start, j as nat),
                rows_view(self.headers@) == header_rows,
                self.next_header_id == next_header,
                rows_view(self.body_fields@) == Seq::new(
                    j as nat,
                    |i: int| loaded_field(fields@[i], id_after(field_start, i as nat)),
                ),
            decreases fields@.len() - j,
        {
            let field = &fields[j];
            self.push_body_field(field.name.clone(), field.value.clone(), field.enabled, field.kind);
            assert(rows_view(self.body_fields@) =~= Seq::new(
                (j + 1) as nat,
                |i: int| loaded_field(fields@[i], id_after(field_start, i as nat)),
            ));
            j = j + 1;
        }
        let form = match request.body_mode {
            BodyMode::FormUrlEncoded | BodyMode::MultipartFormData => true,
            _ => false,
        };
        if fields.len() == 0 && form {
            self.push_body_field(String::new(), String::new(), true, BodyFieldKind::Text);
            assert(rows_view(self.body_fields@) =~= seq![blank_row(field_start)]);
        }
        assert(rows_view(self.body_fields@) =~= loaded_field_rows(fields@, field_start, request.body_mode));
        self.method = request.method.clone();
        self.url = request.url.clone();
        self.body = request.body.clone();
        self.body_mode = request.body_mode;
        self.raw_body_language = request.raw_body_language;
        self.pre_request_script = template.scripts.pre_request.clone();
        self.post_response_script = template.scripts.post_response.clone();
    }
}

} // verus!
