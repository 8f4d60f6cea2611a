use api_tester::api_tester::ApiTester;
use api_tester::local_execution_limits::{
    Bound, CollectionLimitScopes, EffectiveLimit, LimitOverride, LimitScope, ScopedOverrides,
};

fn over(key: &str, bound: Bound) -> LimitOverride {
    LimitOverride {
        key: key.to_owned(),
        bound,
    }
}

#[test]
fn scopes_read_the_overrides_saved_for_them() {
    let mut app = ApiTester::new();
    app.execution_limits.application = vec![over("http.redirects", Bound::limited(3))];
    app.execution_limits.workspaces = vec![ScopedOverrides {
        scope_id: "w1".to_owned(),
        overrides: vec![over("script.timeout_ms", Bound::unlimited())],
    }];
    app.execution_limits.collections = vec![CollectionLimitScopes {
        workspace_id: "w1".to_owned(),
        scopes: vec![ScopedOverrides {
            scope_id: "folder-1".to_owned(),
            overrides: vec![over("chain.max_depth", Bound::limited(2))],
        }],
    }];
    let application = LimitScope { workspace: None, collection: None, folder: None };
    assert_eq!(app.local_limit_overrides(&application), vec![over("http.redirects", Bound::limited(3))]);
    let workspace = LimitScope { workspace: Some("w1".to_owned()), collection: None, folder: None };
    assert_eq!(app.local_limit_overrides(&workspace), vec![over("script.timeout_ms", Bound::unlimited())]);
    let folder = LimitScope {
        workspace: Some("w1".to_owned()),
        collection: Some("c1".to_owned()),
        folder: Some("folder-1".to_owned()),
    };
    assert_eq!(app.local_limit_overrides(&folder), vec![over("chain.max_depth", Bound::limited(2))]);
    let missing = LimitScope { workspace: Some("w2".to_owned()), collection: None, folder: None };
    assert!(app.local_limit_overrides(&missing).is_empty());
}

#[test]
fn a_freshly_opened_scope_is_clean_until_an_input_changes() {
    let mut app = ApiTester::new();
    assert!(!app.local_limit_scope_dirty());
    app.execution_limits.application = vec![
        over("http.redirects", Bound::limited(3)),
        over("script.timeout_ms", Bound::unlimited()),
    ];
    app.select_local_limit_scope(LimitScope { workspace: None, collection: None, folder: None });
    let editor = app.local_execution_limit_editor.as_ref().unwrap();
    assert_eq!(editor.inputs.len(), 25);
    let text = |key: &str| {
        editor
            .inputs
            .iter()
            .find(|input| input.key == key)
            .map(|input| input.text.clone())
            .unwrap()
    };
    assert_eq!(text("http.redirects"), "3");
    assert_eq!(text("script.timeout_ms"), "Unlimited");
    assert_eq!(text("http.timeout_ms"), "");
    assert!(!app.local_limit_scope_dirty());
    let editor = app.local_execution_limit_editor.as_mut().unwrap();
    editor.inputs[0].text = "abc".to_owned();
    assert!(app.local_limit_scope_dirty());
    let editor = app.local_execution_limit_editor.as_mut().unwrap();
    editor.inputs[0].text = " inherit ".to_owned();
    assert!(!app.local_limit_scope_dirty());
}

fn effective(key: &str, bound: Bound, source: Option<&str>) -> EffectiveLimit {
    EffectiveLimit {
        key: key.to_owned(),
        bound,
        source: source.map(|s| s.to_owned()),
    }
}

#[test]
fn the_http_section_shows_its_local_limits_with_drafts_and_saved_values() {
    let mut app = ApiTester::new();
    app.execution_limits.application = vec![over("http.redirects", Bound::limited(3))];
    app.select_local_limit_scope(LimitScope { workspace: None, collection: None, folder: None });
    let editor = app.local_execution_limit_editor.as_mut().unwrap();
    editor.inputs[0].text = "abc".to_owned();
    let saved = vec![
        effective("http.timeout_ms", Bound::limited(30000), None),
        effective("http.redirects", Bound::limited(3), Some("Application")),
    ];
    let rows = app.local_limit_rows(&saved);
    let keys: Vec<&str> = rows.iter().map(|row| row.key.as_str()).collect();
    assert_eq!(
        keys,
        vec![
            "http.timeout_ms",
            "http.connect_timeout_ms",
            "http.request_bytes",
            "http.response_bytes",
            "http.redirects",
            "http.header_count",
            "http.url_bytes",
        ]
    );
    assert_eq!(rows[0].label, "Request timeout");
    assert_eq!(rows[0].text, "abc");
    assert_eq!(rows[0].draft, Err("Enter a non-negative integer, Inherit or Unlimited".to_owned()));
    assert!(rows[0].dirty);
    assert_eq!(
        rows[0].saved.as_deref(),
        Some("Saved effective: 30000 ms (30.00 s) \u{b7} From Built-in default")
    );
    assert_eq!(rows[4].label, "Redirects");
    assert_eq!(rows[4].draft, Ok(Some(Bound::limited(3))));
    assert!(!rows[4].dirty);
    assert_eq!(rows[4].saved.as_deref(), Some("Saved effective: 3 \u{b7} From Application"));
    assert_eq!(rows[1].draft, Ok(None));
    assert_eq!(rows[1].saved, None);
}

#[test]
fn the_chain_section_and_the_footer_follow_the_edits() {
    let mut app = ApiTester::new();
    app.select_local_limit_scope(LimitScope { workspace: None, collection: None, folder: None });
    app.local_execution_limit_editor.as_mut().unwrap().section = 3;
    let rows = app.local_limit_rows(&Vec::new());
    let keys: Vec<&str> = rows.iter().map(|row| row.key.as_str()).collect();
    assert_eq!(keys, vec!["chain.max_depth", "chain.max_requests"]);
    let actions = app.local_limit_actions(true);
    assert!(!actions.save_enabled && !actions.discard_enabled);
    assert!(actions.reset_enabled && actions.change_scope_enabled);
    assert_eq!(
        actions.status,
        "Saved limits apply to new executions. More specific scopes take precedence."
    );
    app.local_execution_limit_editor.as_mut().unwrap().inputs[23].text = "5".to_owned();
    let actions = app.local_limit_actions(true);
    assert!(actions.save_enabled && actions.discard_enabled && !actions.change_scope_enabled);
    assert_eq!(actions.status, "Unsaved changes \u{2014} save or discard before switching scope.");
    let actions = app.local_limit_actions(false);
    assert!(!actions.save_enabled && !actions.reset_enabled);
    assert_eq!(actions.status, "Read only \u{2014} settings cannot be saved.");
}
