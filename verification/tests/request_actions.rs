use api_tester::api_tester::ApiTester;
use api_tester::request_editor::RequestDirtyPart;
use api_tester::request_model::{BodyFieldKind, BodyMode, RawBodyLanguage};

fn header_ids(app: &ApiTester) -> Vec<usize> {
    app.editor.headers.iter().map(|row| row.id).collect()
}

#[test]
fn header_rows_are_counted_when_enabled_and_named() {
    let mut app = ApiTester::new();
    assert_eq!(app.request_header_count(), 0);
    app.push_header_row("Accept".to_owned(), "*/*".to_owned(), true);
    app.push_header_row("  ".to_owned(), "x".to_owned(), true);
    app.push_header_row("X-Off".to_owned(), "1".to_owned(), false);
    assert_eq!(app.request_header_count(), 1);
    assert!(app.request_part_is_dirty(RequestDirtyPart::Headers));
    assert!(app.request_is_dirty());
}

#[test]
fn focus_moves_to_the_next_row_and_adds_one_at_the_end() {
    let mut app = ApiTester::new();
    let first = app.editor.headers[0].id;
    let next = app.focus_next_header_row(first).expect("the row exists");
    assert_eq!(app.editor.headers.len(), 2);
    assert_eq!(app.editor.headers[1].id, next);
    assert_eq!(app.focus_next_header_row(first), Some(next));
    assert_eq!(app.editor.headers.len(), 2);
    assert_eq!(app.focus_next_header_row(9999), None);
}

#[test]
fn duplicates_land_right_after_their_source() {
    let mut app = ApiTester::new();
    app.push_header_row("A".to_owned(), "1".to_owned(), true);
    app.push_header_row("B".to_owned(), "2".to_owned(), false);
    let a = app.editor.headers[1].id;
    app.duplicate_header_row(a);
    let names: Vec<&str> = app.editor.headers.iter().map(|row| row.name.as_str()).collect();
    assert_eq!(names, vec!["", "A", "A", "B"]);
    assert_ne!(app.editor.headers[2].id, a);
    assert!(app.editor.headers[2].enabled);
}

#[test]
fn copying_a_header_formats_it_for_the_clipboard() {
    let mut app = ApiTester::new();
    app.push_header_row("Accept".to_owned(), "text/plain".to_owned(), true);
    let id = app.editor.headers[1].id;
    assert_eq!(app.copy_header_row(id), Some("Accept: text/plain".to_owned()));
    assert_eq!(app.request_notice.as_deref(), Some("Copied header."));
    let blank = app.editor.headers[0].id;
    assert_eq!(app.copy_header_row(blank), Some(String::new()));
}

#[test]
fn removing_the_last_header_leaves_a_blank_row() {
    let mut app = ApiTester::new();
    let only = app.editor.headers[0].id;
    app.remove_header_row(only);
    assert_eq!(app.editor.headers.len(), 1);
    assert_ne!(app.editor.headers[0].id, only);
    assert_eq!(app.editor.headers[0].name, "");
    assert!(app.request_dirty.headers);
    assert!(app.request_part_is_dirty(RequestDirtyPart::Headers));
}

#[test]
fn form_modes_start_with_a_field_and_fields_can_change_kind() {
    let mut app = ApiTester::new();
    app.select_body_mode(BodyMode::MultipartFormData);
    assert_eq!(app.editor.body_fields.len(), 1);
    assert!(app.request_dirty.body_mode);
    let field = app.editor.body_fields[0].id;
    app.set_body_field_kind(field, BodyFieldKind::File);
    assert_eq!(app.editor.body_fields[0].kind, BodyFieldKind::File);
    app.duplicate_body_field_row(field);
    assert_eq!(app.editor.body_fields.len(), 2);
    assert_eq!(app.editor.body_fields[1].kind, BodyFieldKind::File);
    let next = app.focus_next_body_field_row(app.editor.body_fields[1].id);
    assert_eq!(app.editor.body_fields.len(), 3);
    assert_eq!(next, Some(app.editor.body_fields[2].id));
    app.remove_body_field_row(field);
    assert_eq!(app.editor.body_fields.len(), 2);
    app.select_raw_body_language(RawBodyLanguage::Xml);
    assert!(app.request_dirty.raw_body_language);
    app.select_body_mode(BodyMode::NoBody);
    assert!(!app.request_dirty.body_mode);
}

#[test]
fn the_draft_trims_and_upper_cases_the_method() {
    let mut app = ApiTester::new();
    app.editor.method = "  patch ".to_owned();
    app.editor.url = "https://example.test".to_owned();
    let draft = app.draft();
    assert_eq!(draft.method, "PATCH");
    assert_eq!(draft.url, "https://example.test");
    assert_eq!(draft.headers.len(), 1);
    let template = app.request_template();
    assert_eq!(template.request.method, "PATCH");
    assert!(app.request_part_is_dirty(RequestDirtyPart::Url));
}

#[test]
fn dirty_parts_are_not_tracked_while_loading() {
    let mut app = ApiTester::new();
    app.request_dirty.hydrating = true;
    app.editor.url = "https://changed.test".to_owned();
    app.refresh_request_dirty_part(RequestDirtyPart::Url);
    assert!(!app.request_dirty.url);
    app.request_dirty.hydrating = false;
    app.refresh_request_dirty_part(RequestDirtyPart::Url);
    assert!(app.request_dirty.url);
    app.editor.method = " get ".to_owned();
    assert!(!app.request_part_is_dirty(RequestDirtyPart::Method));
    assert_eq!(header_ids(&app).len(), 1);
}
