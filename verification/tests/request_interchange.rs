use api_tester::request_interchange::{
    ExportLanguage, InterchangeFormat, RequestInterchangeState, RequestInterchangeTab,
    export_code_language, safe_export_file_name,
};

#[test]
fn export_file_names_are_safe_and_stable() {
    assert_eq!(safe_export_file_name("Create user / v1"), "create-user-v1");
    assert_eq!(safe_export_file_name("###"), "request");
}

#[test]
fn export_file_names_keep_dashes_and_drop_trailing_ones() {
    assert_eq!(safe_export_file_name("  Leading spaces"), "leading-spaces");
    assert_eq!(safe_export_file_name("keep_under-score"), "keep_under-score");
    assert_eq!(safe_export_file_name("ends--"), "ends");
    assert_eq!(safe_export_file_name("Ünïcode Name!"), "n-code-name");
    assert_eq!(safe_export_file_name(""), "request");
}

#[test]
fn export_languages_follow_the_format() {
    assert_eq!(export_code_language(InterchangeFormat::Curl), ExportLanguage::Shell);
    assert_eq!(export_code_language(InterchangeFormat::Wget), ExportLanguage::Shell);
    assert_eq!(export_code_language(InterchangeFormat::OpenApi), ExportLanguage::Yaml);
    assert_eq!(export_code_language(InterchangeFormat::KotlinKtor), ExportLanguage::Kotlin);
    assert_eq!(export_code_language(InterchangeFormat::IntelliJHttp), ExportLanguage::Http);
    let state = RequestInterchangeState::new();
    assert!(!state.open);
    assert_eq!(state.tab, RequestInterchangeTab::Import);
    assert_eq!(state.selected_format, InterchangeFormat::Curl);
}

#[test]
fn an_export_file_name_is_its_own_export_file_name() {
    for title in ["Create user / v1", "###", "ends--", "Ünïcode Name!", "keep_under-score"] {
        let once = safe_export_file_name(title);
        assert_eq!(safe_export_file_name(&once), once);
        assert!(once
            .chars()
            .all(|c| c.is_ascii_lowercase() || c.is_ascii_digit() || c == '-' || c == '_'));
        assert!(!once.is_empty() && !once.ends_with('-'));
    }
}
