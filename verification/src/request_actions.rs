use vstd::prelude::*;

use crate::api_tester::ApiTester;
use crate::pane_tree::{lemma_first_index_facts};
use crate::request_editor::{
    EditorRow, RequestDirty, RequestDirtyPart, RowView, blank_row, duplicated_row, find_row,
    move_last_to, remove_rows, row_index, rows_as_fields, rows_as_headers, rows_view,
    without_row,
};
use crate::request_model::TemplateView;
use crate::request_model::{BodyFieldKind, BodyMode, RawBodyLanguage, RequestDraft, RequestTemplate};
use crate::text::{owned, push_str, trim, trimmed};

verus! {

/// A row counts as a sent header when it is enabled and its name is not
/// blank.
pub open spec fn counts_as_header(r: RowView) -> bool {
    r.enabled && trimmed(r.name).len() > 0
}

/// How many of the first `n` rows count as sent headers.
pub open spec fn header_count(rows: Seq<RowView>, n: int) -> nat
    decreases n,
{
    if n <= 0 {
        0
    } else {
        header_count(rows, n - 1) + if counts_as_header(rows[n - 1]) {
            1nat
        } else {
            0nat
        }
    }
}

/// The text copied for a header row: `name: value`, or the value alone when
/// the name is blank.
pub open spec fn header_clipboard_text(r: RowView) -> Seq<char> {
    if trimmed(r.name).len() == 0 {
        r.value
    } else {
        r.name + ": "@ + r.value
    }
}

impl ApiTester {
    /// The editor's dirty flags after recomputing one part: while a
    /// definition is being loaded nothing changes.
    pub open spec fn refreshed_dirty(self, part: RequestDirtyPart) -> crate::request_editor::RequestDirty {
        if self.request_dirty.hydrating {
            self.request_dirty
        } else {
            self.request_dirty.with_part(part, self.editor.differs(self.loaded_request_baseline@, part))
        }
    }

    /// How many headers the request sends.
    pub fn request_header_count(&self) -> (r: usize)
        ensures
            r == header_count(rows_view(self.editor.headers@), self.editor.headers@.len() as int),
    {
        let rows = &self.editor.headers;
        let ghost view = rows_view(rows@);
        let mut count: usize = 0;
        let mut k: usize = 0;
        while k < rows.len()
            invariant
                view == rows_view(rows@),
                0 <= k <= rows@.len(),
                count == header_count(view, k as int),
                count <= k,
            decreases rows@.len() - k,
        {
            if rows[k].enabled && trim(rows[k].name.as_str()).unicode_len() > 0 {
                count = count + 1;
            }
            k = k + 1;
        }
        count
    }

    /// Whether one part of the request differs from the loaded definition.
    pub fn request_part_is_dirty(&self, part: RequestDirtyPart) -> (r: bool)
        ensures
            r == self.editor.differs(self.loaded_request_baseline@, part),
    {
        self.editor.part_differs(&self.loaded_request_baseline, part)
    }

    /// Whether the request holds changes that are not saved.
    pub fn request_is_dirty(&self) -> (r: bool)
        ensures
            r == (self.detached_request_dirty || self.request_dirty.any_part()),
    {
        self.detached_request_dirty || self.request_dirty.any()
    }

    /// Recomputes whether one part differs from the loaded definition; does
    /// nothing while a definition is being loaded.
    pub fn refresh_request_dirty_part(&mut self, part: RequestDirtyPart)
        ensures
            final(self).request_dirty == old(self).refreshed_dirty(part),
            final(self).editor == old(self).editor,
            final(self).loaded_request_baseline == old(self).loaded_request_baseline,
            final(self).request_tabs == old(self).request_tabs,
            final(self).detached_request_dirty == old(self).detached_request_dirty,
            final(self).request_notice == old(self).request_notice,
    {
        if self.request_dirty.is_hydrating() {
            return;
        }
        let dirty = self.request_part_is_dirty(part);
        self.request_dirty.set(part, dirty);
    }

    /// The request that the editor describes.
    pub fn draft(&self) -> (d: RequestDraft)
        ensures
            d.method@ == self.editor.drafted().method,
            d.url@ == self.editor.drafted().url,
            crate::request_model::headers_view(d.headers@) == self.editor.drafted().headers,
            d.body@ == self.editor.drafted().body,
            d.body_mode == self.editor.body_mode,
            d.raw_body_language == self.editor.raw_body_language,
            crate::request_model::fields_view(d.body_fields@) == self.editor.drafted().body_fields,
    {
        self.editor.draft()
    }

    /// The definition that the editor describes.
    pub fn request_template(&self) -> (t: RequestTemplate)
        ensures
            t@ == self.editor.drafted(),
    {
        self.editor.template()
    }

    /// Appends a header row and recomputes whether the headers changed.
    pub fn push_header_row(&mut self, name: String, value: String, enabled: bool)
        ensures
            rows_view(final(self).editor.headers@) == rows_view(old(self).editor.headers@).push(
                RowView { id: old(self).editor.next_header_id, name: name@, value: value@, enabled, shared: false, kind: BodyFieldKind::Text },
            ),
            final(self).editor.next_header_id == old(self).editor.next_header_id.wrapping_add(1),
            final(self).editor == (crate::request_editor::RequestEditor { headers: final(self).editor.headers, next_header_id: final(self).editor.next_header_id, ..old(self).editor }),
            final(self).request_dirty == (ApiTester { editor: final(self).editor, ..*old(self) }).refreshed_dirty(RequestDirtyPart::Headers),
            final(self).loaded_request_baseline == old(self).loaded_request_baseline,
            final(self).request_notice == old(self).request_notice,
    {
        self.editor.push_header(name, value, enabled, false);
        self.refresh_request_dirty_part(RequestDirtyPart::Headers);
    }

    /// Appends a form-field row and recomputes whether the fields changed.
    pub fn push_body_field_row(&mut self, name: String, value: String, enabled: bool, kind: BodyFieldKind)
        ensures
            rows_view(final(self).editor.body_fields@) == rows_view(old(self).editor.body_fields@).push(
                RowView { id: old(self).editor.next_body_field_id, name: name@, value: value@, enabled, shared: false, kind },
            ),
            final(self).editor.next_body_field_id == old(self).editor.next_body_field_id.wrapping_add(1),
            final(self).editor == (crate::request_editor::RequestEditor { body_fields: final(self).editor.body_fields, next_body_field_id: final(self).editor.next_body_field_id, ..old(self).editor }),
            final(self).request_dirty == (ApiTester { editor: final(self).editor, ..*old(self) }).refreshed_dirty(RequestDirtyPart::BodyFields),
            final(self).loaded_request_baseline == old(self).loaded_request_baseline,
            final(self).request_notice == old(self).request_notice,
    {
        self.editor.push_body_field(name, value, enabled, kind);
        self.refresh_request_dirty_part(RequestDirtyPart::BodyFields);
    }
}

/// The dirty flags once one part is recomputed with a given outcome; while a
/// definition is being loaded nothing changes.
pub open spec fn dirty_after(d: RequestDirty, part: RequestDirtyPart, differs: bool) -> RequestDirty {
    if d.hydrating {
        d
    } else {
        d.with_part(part, differs)
    }
}

/// Whether header rows differ from the headers of a definition.
pub open spec fn headers_differ(rows: Seq<RowView>, baseline: TemplateView) -> bool {
    rows_as_headers(rows) != baseline.headers
}

/// Whether form-field rows differ from the fields of a definition.
pub open spec fn fields_differ(rows: Seq<RowView>, baseline: TemplateView) -> bool {
    rows_as_fields(rows) != baseline.body_fields
}

impl ApiTester {
    /// The identity of the header row after `row_id`, to move the focus to;
    /// a blank row is added when `row_id` is the last one.
    pub fn focus_next_header_row(&mut self, row_id: usize) -> (next: Option<usize>)
        ensures
            final(self).loaded_request_baseline == old(self).loaded_request_baseline,
            final(self).editor.body_fields == old(self).editor.body_fields,
            ({
                let rows = rows_view(old(self).editor.headers@);
                let i = row_index(rows, row_id);
                if i < 0 {
                    next is None && final(self).editor == old(self).editor
                        && final(self).request_dirty == old(self).request_dirty
                } else if i + 1 == rows.len() {
                    &&& next == Some(old(self).editor.next_header_id)
                    &&& rows_view(final(self).editor.headers@) == rows.push(blank_row(old(self).editor.next_header_id))
                    &&& final(self).request_dirty == dirty_after(
                        old(self).request_dirty,
                        RequestDirtyPart::Headers,
                        headers_differ(rows.push(blank_row(old(self).editor.next_header_id)), old(self).loaded_request_baseline@),
                    )
                } else {
                    next == Some(rows[i + 1].id) && final(self).editor == old(self).editor
                        && final(self).request_dirty == old(self).request_dirty
                }
            }),
    {
        let Some(index) = find_row(&self.editor.headers, row_id) else {
            return None;
        };
        let n = self.editor.headers.len();
        if index + 1 == n {
            self.push_header_row(String::new(), String::new(), true);
        }
        assert(rows_view(self.editor.headers@)[index + 1] == self.editor.headers@[index + 1]@);
        Some(self.editor.headers[index + 1].id)
    }

    /// Inserts a copy of a header row right after it, under a new identity.
    pub fn duplicate_header_row(&mut self, row_id: usize)
        ensures
            final(self).loaded_request_baseline == old(self).loaded_request_baseline,
            final(self).editor.body_fields == old(self).editor.body_fields,
            ({
                let rows = rows_view(old(self).editor.headers@);
                let i = row_index(rows, row_id);
                let copy = duplicated_row(rows[i], old(self).editor.next_header_id, false);
                if i < 0 {
                    final(self).editor == old(self).editor && final(self).request_dirty == old(self).request_dirty
                } else {
                    &&& rows_view(final(self).editor.headers@) == rows.insert(i + 1, copy)
                    &&& final(self).editor.next_header_id == old(self).editor.next_header_id.wrapping_add(1)
                    &&& final(self).request_dirty == dirty_after(
                        old(self).request_dirty,
                        RequestDirtyPart::Headers,
                        headers_differ(rows.push(copy), old(self).loaded_request_baseline@),
                    )
                }
            }),
    {
        let Some(index) = find_row(&self.editor.headers, row_id) else {
            return;
        };
        let name = self.editor.headers[index].name.clone();
        let value = self.editor.headers[index].value.clone();
        let enabled = self.editor.headers[index].enabled;
        let n = self.editor.headers.len();
        assert(rows_view(old(self).editor.headers@)[index as int] == old(self).editor.headers@[index as int]@);
        self.push_header_row(name, value, enabled);
        move_last_to(&mut self.editor.headers, index + 1);
        assert(rows_view(old(self).editor.headers@).push(duplicated_row(rows_view(old(self).editor.headers@)[index as int], old(self).editor.next_header_id, false)).drop_last() =~= rows_view(old(self).editor.headers@));
    }

    /// The text of a header row for the clipboard; records a notice.
    pub fn copy_header_row(&mut self, row_id: usize) -> (text: Option<String>)
        ensures
            final(self).editor == old(self).editor,
            final(self).request_dirty == old(self).request_dirty,
            ({
                let rows = rows_view(old(self).editor.headers@);
                let i = row_index(rows, row_id);
                if i < 0 {
                    text is None && final(self).request_notice == old(self).request_notice
                } else {
                    &&& text is Some
                    &&& text->0@ == header_clipboard_text(rows[i])
                    &&& final(self).request_notice is Some
                    &&& final(self).request_notice->0@ == "Copied header."@
                }
            }),
    {
        let Some(index) = find_row(&self.editor.headers, row_id) else {
            return None;
        };
        let row = &self.editor.headers[index];
        assert(rows_view(self.editor.headers@)[index as int] == row@);
        let text = if trim(row.name.as_str()).unicode_len() == 0 {
            row.value.clone()
        } else {
            let mut t = row.name.clone();
            push_str(&mut t, ": ");
            push_str(&mut t, row.value.as_str());
            t
        };
        self.request_notice = Some(owned("Copied header."));
        Some(text)
    }

    /// Removes the header rows with this identity, keeping one blank row
    /// when none is left.
    pub fn remove_header_row(&mut self, row_id: usize)
        ensures
            final(self).loaded_request_baseline == old(self).loaded_request_baseline,
            final(self).editor.body_fields == old(self).editor.body_fields,
            ({
                let left = without_row(rows_view(old(self).editor.headers@), row_id);
                let rows = if left.len() == 0 {
                    seq![blank_row(old(self).editor.next_header_id)]
                } else {
                    left
                };
                &&& rows_view(final(self).editor.headers@) == rows
                &&& final(self).request_dirty == dirty_after(
                    old(self).request_dirty,
                    RequestDirtyPart::Headers,
                    headers_differ(rows, old(self).loaded_request_baseline@),
                )
            }),
    {
        remove_rows(&mut self.editor.headers, row_id);
        if self.editor.headers.len() == 0 {
            self.push_header_row(String::new(), String::new(), true);
            assert(rows_view(self.editor.headers@) =~= seq![blank_row(old(self).editor.next_header_id)]);
        }
        self.refresh_request_dirty_part(RequestDirtyPart::Headers);
    }

    /// The identity of the form-field row after `row_id`, to move the focus
    /// to; a blank text field is added when `row_id` is the last one.
    pub fn focus_next_body_field_row(&mut self, row_id: usize) -> (next: Option<usize>)
        ensures
            final(self).loaded_request_baseline == old(self).loaded_request_baseline,
            final(self).editor.headers == old(self).editor.headers,
            ({
                let rows = rows_view(old(self).editor.body_fields@);
                let i = row_index(rows, row_id);
                if i < 0 {
                    next is None && final(self).editor == old(self).editor
                        && final(self).request_dirty == old(self).request_dirty
                } else if i + 1 == rows.len() {
                    &&& next == Some(old(self).editor.next_body_field_id)
                    &&& rows_view(final(self).editor.body_fields@) == rows.push(blank_row(old(self).editor.next_body_field_id))
                    &&& final(self).request_dirty == dirty_after(
                        old(self).request_dirty,
                        RequestDirtyPart::BodyFields,
                        fields_differ(rows.push(blank_row(old(self).editor.next_body_field_id)), old(self).loaded_request_baseline@),
                    )
                } else {
                    next == Some(rows[i + 1].id) && final(self).editor == old(self).editor
                        && final(self).request_dirty == old(self).request_dirty
                }
            }),
    {
        let Some(index) = find_row(&self.editor.body_fields, row_id) else {
            return None;
        };
        let n = self.editor.body_fields.len();
        if index + 1 == n {
            self.push_body_field_row(String::new(), String::new(), true, BodyFieldKind::Text);
        }
        assert(rows_view(self.editor.body_fields@)[index + 1] == self.editor.body_fields@[index + 1]@);
        Some(self.editor.body_fields[index + 1].id)
    }

    /// Inserts a copy of a form-field row right after it, under a new
    /// identity.
    pub fn duplicate_body_field_row(&mut self, row_id: usize)
        ensures
            final(self).loaded_request_baseline == old(self).loaded_request_baseline,
            final(self).editor.headers == old(self).editor.headers,
            ({
                let rows = rows_view(old(self).editor.body_fields@);
                let i = row_index(rows, row_id);
                let copy = duplicated_row(rows[i], old(self).editor.next_body_field_id, true);
                if i < 0 {
                    final(self).editor == old(self).editor && final(self).request_dirty == old(self).request_dirty
                } else {
                    &&& rows_view(final(self).editor.body_fields@) == rows.insert(i + 1, copy)
                    &&& final(self).editor.next_body_field_id == old(self).editor.next_body_field_id.wrapping_add(1)
                    &&& final(self).request_dirty == dirty_after(
                        old(self).request_dirty,
                        RequestDirtyPart::BodyFields,
                        fields_differ(rows.push(copy), old(self).loaded_request_baseline@),
                    )
                }
            }),
    {
        let Some(index) = find_row(&self.editor.body_fields, row_id) else {
            return;
        };
        let name = self.editor.body_fields[index].name.clone();
        let value = self.editor.body_fields[index].value.clone();
        let enabled = self.editor.body_fields[index].enabled;
        let kind = self.editor.body_fields[index].kind;
        let n = self.editor.body_fields.len();
        assert(rows_view(old(self).editor.body_fields@)[index as int] == old(self).editor.body_fields@[index as int]@);
        self.push_body_field_row(name, value, enabled, kind);
        move_last_to(&mut self.editor.body_fields, index + 1);
        assert(rows_view(old(self).editor.body_fields@).push(duplicated_row(rows_view(old(self).editor.body_fields@)[index as int], old(self).editor.next_body_field_id, true)).drop_last() =~= rows_view(old(self).editor.body_fields@));
    }

    /// Removes the form-field rows with this identity, keeping one blank
    /// field when none is left.
    pub fn remove_body_field_row(&mut self, row_id: usize)
        ensures
            final(self).loaded_request_baseline == old(self).loaded_request_baseline,
            final(self).editor.headers == old(self).editor.headers,
            ({
                let left = without_row(rows_view(old(self).editor.body_fields@), row_id);
                let rows = if left.len() == 0 {
                    seq![blank_row(old(self).editor.next_body_field_id)]
                } else {
                    left
                };
                &&& rows_view(final(self).editor.body_fields@) == rows
                &&& final(self).request_dirty == dirty_after(
                    old(self).request_dirty,
                    RequestDirtyPart::BodyFields,
                    fields_differ(rows, old(self).loaded_request_baseline@),
                )
            }),
    {
        remove_rows(&mut self.editor.body_fields, row_id);
        if self.editor.body_fields.len() == 0 {
            self.push_body_field_row(String::new(), String::new(), true, BodyFieldKind::Text);
            assert(rows_view(self.editor.body_fields@) =~= seq![blank_row(old(self).editor.next_body_field_id)]);
        }
        self.refresh_request_dirty_part(RequestDirtyPart::BodyFields);
    }

    /// Changes whether a form field carries text or a file.
    pub fn set_body_field_kind(&mut self, row_id: usize, kind: BodyFieldKind)
        ensures
            final(self).loaded_request_baseline == old(self).loaded_request_baseline,
            final(self).editor.headers == old(self).editor.headers,
            ({
                let rows = rows_view(old(self).editor.body_fields@);
                let i = row_index(rows, row_id);
                if i < 0 {
                    final(self).editor == old(self).editor && final(self).request_dirty == old(self).request_dirty
                } else {
                    &&& rows_view(final(self).editor.body_fields@) == rows.update(i, RowView { kind, ..rows[i] })
                    &&& final(self).request_dirty == dirty_after(
                        old(self).request_dirty,
                        RequestDirtyPart::BodyFields,
                        fields_differ(rows.update(i, RowView { kind, ..rows[i] }), old(self).loaded_request_baseline@),
                    )
                }
            }),
    {
        let Some(index) = find_row(&self.editor.body_fields, row_id) else {
            return;
        };
        crate::request_editor::update_row_kind(&mut self.editor.body_fields, row_id, kind);
        self.refresh_request_dirty_part(RequestDirtyPart::BodyFields);
    }

    /// Chooses how the body is written; a form body starts with one blank
    /// field when it has none.
    pub fn select_body_mode(&mut self, mode: BodyMode)
        ensures
            final(self).editor.body_mode == mode,
            final(self).editor.headers == old(self).editor.headers,
            final(self).loaded_request_baseline == old(self).loaded_request_baseline,
            ((mode == BodyMode::FormUrlEncoded || mode == BodyMode::MultipartFormData)
                && old(self).editor.body_fields@.len() == 0) ==> rows_view(final(self).editor.body_fields@)
                == seq![blank_row(old(self).editor.next_body_field_id)],
            !((mode == BodyMode::FormUrlEncoded || mode == BodyMode::MultipartFormData)
                && old(self).editor.body_fields@.len() == 0) ==> final(self).editor.body_fields
                == old(self).editor.body_fields,
            final(self).request_dirty.part(RequestDirtyPart::BodyMode) == (if old(self).request_dirty.hydrating {
                old(self).request_dirty.part(RequestDirtyPart::BodyMode)
            } else {
                mode != old(self).loaded_request_baseline@.body_mode
            }),
    {
        self.editor.body_mode = mode;
        if (mode == BodyMode::FormUrlEncoded || mode == BodyMode::MultipartFormData)
            && self.editor.body_fields.len() == 0 {
            self.push_body_field_row(String::new(), String::new(), true, BodyFieldKind::Text);
            assert(rows_view(self.editor.body_fields@) =~= seq![blank_row(old(self).editor.next_body_field_id)]);
        }
        self.refresh_request_dirty_part(RequestDirtyPart::BodyMode);
    }

    /// Chooses the language of a raw body.
    pub fn select_raw_body_language(&mut self, language: RawBodyLanguage)
        ensures
            final(self).editor == (crate::request_editor::RequestEditor { raw_body_language: language, ..old(self).editor }),
            final(self).request_dirty == dirty_after(
                old(self).request_dirty,
                RequestDirtyPart::RawBodyLanguage,
                language != old(self).loaded_request_baseline@.raw_body_language,
            ),
    {
        self.editor.raw_body_language = language;
        self.refresh_request_dirty_part(RequestDirtyPart::RawBodyLanguage);
    }
}

} // verus!
