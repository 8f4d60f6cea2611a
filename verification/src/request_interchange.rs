use vstd::prelude::*;

use crate::api_tester::{ApiTester, WorkspaceSwitch};
use crate::request_import::{build_import_workspace, bundle_error, import_saved, ImportBundle};
use crate::text::{decimal, owned, push_char, push_decimal, push_str};
use crate::workspace::{Collection, Workspace};

verus! {

/// The formats a request can be imported from or exported to.
#[derive(Clone, Copy, Debug, PartialEq, Eq, Structural)]
pub enum InterchangeFormat {
    Curl,
    Wget,
    PowerShell,
    IntelliJHttp,
    OpenApi,
    AsyncApi,
    JavaScriptFetch,
    JavaScriptAxios,
    JavaScriptJquery,
    JavaHttpClient,
    JavaOkHttp,
    GoNetHttp,
    GoResty,
    CSharpHttpClient,
    CSharpRestSharp,
    RustReqwest,
    RustUreq,
    CppBoostBeast,
    CppLibcurl,
    PhpCurl,
    PhpGuzzle,
    KotlinKtor,
    KotlinOkHttp,
    KotlinJavaHttpClient,
}

/// The syntax an exported request is highlighted with.
#[derive(Clone, Copy, Debug, PartialEq, Eq, Structural)]
pub enum ExportLanguage {
    Shell,
    PowerShell,
    Yaml,
    Http,
    JavaScript,
    Java,
    Go,
    CSharp,
    Rust,
    Cpp,
    Php,
    Kotlin,
}

/// The syntax of each export format.
pub open spec fn export_language_of(format: InterchangeFormat) -> ExportLanguage {
    match format {
        InterchangeFormat::Curl | InterchangeFormat::Wget => ExportLanguage::Shell,
        InterchangeFormat::PowerShell => ExportLanguage::PowerShell,
        InterchangeFormat::OpenApi | InterchangeFormat::AsyncApi => ExportLanguage::Yaml,
        InterchangeFormat::IntelliJHttp => ExportLanguage::Http,
        InterchangeFormat::JavaScriptFetch | InterchangeFormat::JavaScriptAxios
        | InterchangeFormat::JavaScriptJquery => ExportLanguage::JavaScript,
        InterchangeFormat::JavaHttpClient | InterchangeFormat::JavaOkHttp => ExportLanguage::Java,
        InterchangeFormat::GoNetHttp | InterchangeFormat::GoResty => ExportLanguage::Go,
        InterchangeFormat::CSharpHttpClient | InterchangeFormat::CSharpRestSharp => ExportLanguage::CSharp,
        InterchangeFormat::RustReqwest | InterchangeFormat::RustUreq => ExportLanguage::Rust,
        InterchangeFormat::CppBoostBeast | InterchangeFormat::CppLibcurl => ExportLanguage::Cpp,
        InterchangeFormat::PhpCurl | InterchangeFormat::PhpGuzzle => ExportLanguage::Php,
        InterchangeFormat::KotlinKtor | InterchangeFormat::KotlinOkHttp
        | InterchangeFormat::KotlinJavaHttpClient => ExportLanguage::Kotlin,
    }
}

pub fn export_code_language(format: InterchangeFormat) -> (r: ExportLanguage)
    ensures
        r == export_language_of(format),
{
    match format {
        InterchangeFormat::Curl | InterchangeFormat::Wget => ExportLanguage::Shell,
        InterchangeFormat::PowerShell => ExportLanguage::PowerShell,
        InterchangeFormat::OpenApi | InterchangeFormat::AsyncApi => ExportLanguage::Yaml,
        InterchangeFormat::IntelliJHttp => ExportLanguage::Http,
        InterchangeFormat::JavaScriptFetch | InterchangeFormat::JavaScriptAxios
        | InterchangeFormat::JavaScriptJquery => ExportLanguage::JavaScript,
        InterchangeFormat::JavaHttpClient | InterchangeFormat::JavaOkHttp => ExportLanguage::Java,
        InterchangeFormat::GoNetHttp | InterchangeFormat::GoResty => ExportLanguage::Go,
        InterchangeFormat::CSharpHttpClient | InterchangeFormat::CSharpRestSharp => ExportLanguage::CSharp,
        InterchangeFormat::RustReqwest | InterchangeFormat::RustUreq => ExportLanguage::Rust,
        InterchangeFormat::CppBoostBeast | InterchangeFormat::CppLibcurl => ExportLanguage::Cpp,
        InterchangeFormat::PhpCurl | InterchangeFormat::PhpGuzzle => ExportLanguage::Php,
        InterchangeFormat::KotlinKtor | InterchangeFormat::KotlinOkHttp
        | InterchangeFormat::KotlinJavaHttpClient => ExportLanguage::Kotlin,
    }
}

/// The side of the import/export panel that is shown.
#[derive(Clone, Copy, Debug, PartialEq, Eq, Structural)]
pub enum RequestInterchangeTab {
    Import,
    Export,
}

/// The import/export panel: whether it is open, which side, the chosen
/// export format, the last export error, whether an import is loaded, and
/// the error shown in place of the import preview.
#[derive(Debug, PartialEq, Eq)]
pub struct RequestInterchangeState {
    pub open: bool,
    pub tab: RequestInterchangeTab,
    pub selected_format: InterchangeFormat,
    pub export_error: Option<String>,
    pub import_loaded: bool,
    pub import_error: Option<String>,
}

impl RequestInterchangeState {
    /// A closed panel on its import side with cURL selected for export.
    pub fn new() -> (s: RequestInterchangeState)
        ensures
            !s.open,
            s.tab == RequestInterchangeTab::Import,
            s.selected_format == InterchangeFormat::Curl,
            s.export_error is None,
            !s.import_loaded,
            s.import_error is None,
    {
        RequestInterchangeState {
            open: false,
            tab: RequestInterchangeTab::Import,
            selected_format: InterchangeFormat::Curl,
            export_error: None,
            import_loaded: false,
            import_error: None,
        }
    }
}

/// A character kept in an export file name: ASCII letters and digits, `-`
/// and `_`.
pub open spec fn kept_in_file_name(c: char) -> bool {
    ('a' <= c && c <= 'z') || ('A' <= c && c <= 'Z') || ('0' <= c && c <= '9') || c == '-' || c == '_'
}

/// An ASCII letter in lower case.
pub open spec fn ascii_lower(c: char) -> char {
    if 'A' <= c && c <= 'Z' {
        ((c as u32) + 32) as char
    } else {
        c
    }
}

/// The file name built from a title, before trailing dashes are dropped:
/// kept characters in lower case; a run of other characters becomes one
/// dash, except at the start. The flag says whether the last step wrote a
/// separating dash.
pub open spec fn file_name_steps(s: Seq<char>) -> (Seq<char>, bool)
    decreases s.len(),
{
    if s.len() == 0 {
        (Seq::empty(), false)
    } else {
        let (out, separated) = file_name_steps(s.drop_last());
        let c = s.last();
        if kept_in_file_name(c) {
            (out.push(ascii_lower(c)), false)
        } else if !separated && out.len() > 0 {
            (out.push('-'), true)
        } else {
            (out, separated)
        }
    }
}

/// The text without its trailing dashes.
pub open spec fn without_trailing_dashes(s: Seq<char>) -> Seq<char>
    decreases s.len(),
{
    if s.len() > 0 && s.last() == '-' {
        without_trailing_dashes(s.drop_last())
    } else {
        s
    }
}

/// The export file name of a title: `request` when nothing is left.
pub open spec fn export_file_name(title: Seq<char>) -> Seq<char> {
    let name = without_trailing_dashes(file_name_steps(title).0);
    if name.len() == 0 {
        "request"@
    } else {
        name
    }
}

/// An upper-case ASCII letter in lower case; every other character is
/// unchanged.
fn lower_char(c: char) -> (r: char)
    ensures
        r == ascii_lower(c),
{
    if 'A' <= c && c <= 'Z' {
        ((c as u8) + 32) as char
    } else {
        c
    }
}

pub fn safe_export_file_name(value: &str) -> (r: String)
    ensures
        r@ == export_file_name(value@),
{
    let n = value.unicode_len();
    let mut result = String::new();
    let mut previous_separator = false;
    let mut k: usize = 0;
    while k < n
        invariant
            n == value@.len(),
            0 <= k <= n,
            (result@, previous_separator) == file_name_steps(value@.take(k as int)),
        decreases n - k,
    {
        let c = value.get_char(k);
        assert(value@.take(k + 1).drop_last() =~= value@.take(k as int));
        assert(value@.take(k + 1).last() == c);
        if ('a' <= c && c <= 'z') || ('A' <= c && c <= 'Z') || ('0' <= c && c <= '9') || c == '-' || c == '_' {
            push_char(&mut result, lower_char(c));
            previous_separator = false;
        } else if !previous_separator && result.unicode_len() > 0 {
            push_char(&mut result, '-');
            previous_separator = true;
        }
        k = k + 1;
    }
    assert(value@.take(n as int) =~= value@);
    let ghost built = result@;
    let mut end = result.unicode_len();
    assert(built.take(end as int) =~= built);
    while end > 0 && result.get_char(end - 1) == '-'
        invariant
            end <= result@.len(),
            result@ == built,
            without_trailing_dashes(built) == without_trailing_dashes(built.take(end as int)),
        decreases end,
    {
        assert(built.take(end as int).drop_last() =~= built.take(end - 1));
        end = end - 1;
    }
    proof {
        if end > 0 {
            assert(built.take(end as int).last() == built[end - 1]);
        }
    }
    if end == 0 {
        return owned("request");
    }
    owned(result.as_str().substring_char(0, end))
}

/// A character an export file name may hold: lower-case ASCII letters,
/// digits, `-` and `_`.
pub open spec fn safe_file_name_char(c: char) -> bool {
    ('a' <= c && c <= 'z') || ('0' <= c && c <= '9') || c == '-' || c == '_'
}

proof fn lemma_steps_safe(s: Seq<char>)
    ensures
        forall|k: int| 0 <= k < file_name_steps(s).0.len() ==> safe_file_name_char(#[trigger] file_name_steps(s).0[k]),
    decreases s.len(),
{
    if s.len() > 0 {
        lemma_steps_safe(s.drop_last());
        let (out, separated) = file_name_steps(s.drop_last());
        let c = s.last();
        let next = file_name_steps(s).0;
        assert forall|k: int| 0 <= k < next.len() implies safe_file_name_char(#[trigger] next[k]) by {
            if k < out.len() {
                assert(next[k] == out[k]);
            }
        }
    }
}

proof fn lemma_without_trailing_dashes(s: Seq<char>)
    ensures
        without_trailing_dashes(s).len() <= s.len(),
        without_trailing_dashes(s) == s.take(without_trailing_dashes(s).len() as int),
        without_trailing_dashes(s).len() > 0 ==> without_trailing_dashes(s).last() != '-',
    decreases s.len(),
{
    if s.len() > 0 && s.last() == '-' {
        lemma_without_trailing_dashes(s.drop_last());
        assert(s.drop_last().take(without_trailing_dashes(s).len() as int) =~= s.take(without_trailing_dashes(s).len() as int));
    } else {
        assert(s.take(s.len() as int) =~= s);
    }
}

/// An export file name is never empty, holds only lower-case ASCII letters,
/// digits, `-` and `_`, and does not end with `-`.
pub proof fn lemma_export_file_name_safe(title: Seq<char>)
    ensures
        export_file_name(title).len() > 0,
        forall|k: int| 0 <= k < export_file_name(title).len() ==> safe_file_name_char(#[trigger] export_file_name(title)[k]),
        export_file_name(title).last() != '-',
{
    let built = file_name_steps(title).0;
    lemma_steps_safe(title);
    lemma_without_trailing_dashes(built);
    let name = without_trailing_dashes(built);
    if name.len() == 0 {
        reveal_strlit("request");
    } else {
        assert forall|k: int| 0 <= k < name.len() implies safe_file_name_char(#[trigger] name[k]) by {
            assert(name[k] == built.take(name.len() as int)[k]);
        }
    }
}

proof fn lemma_steps_keep_safe_text(s: Seq<char>)
    requires
        forall|k: int| 0 <= k < s.len() ==> safe_file_name_char(#[trigger] s[k]),
    ensures
        file_name_steps(s) == (s, false),
    decreases s.len(),
{
    if s.len() > 0 {
        assert forall|k: int| 0 <= k < s.drop_last().len() implies safe_file_name_char(#[trigger] s.drop_last()[k]) by {
            assert(s.drop_last()[k] == s[k]);
        }
        lemma_steps_keep_safe_text(s.drop_last());
        assert(safe_file_name_char(s[s.len() - 1]));
        assert(s.drop_last().push(s.last()) =~= s);
    }
}

/// Making an export file name of an export file name changes nothing.
pub proof fn lemma_export_file_name_idempotent(title: Seq<char>)
    ensures
        export_file_name(export_file_name(title)) == export_file_name(title),
{
    let name = export_file_name(title);
    lemma_export_file_name_safe(title);
    lemma_steps_keep_safe_text(name);
}

/// An ASCII letter or digit, or `_`: a character of a title that its export
/// file name keeps.
pub open spec fn word_char(c: char) -> bool {
    ('a' <= c && c <= 'z') || ('A' <= c && c <= 'Z') || ('0' <= c && c <= '9') || c == '_'
}

/// The ASCII letters, digits and `_` of a text, in order and in lower case.
pub open spec fn lowered_word_chars(s: Seq<char>) -> Seq<char>
    decreases s.len(),
{
    if s.len() == 0 {
        Seq::empty()
    } else if word_char(s.last()) {
        lowered_word_chars(s.drop_last()).push(ascii_lower(s.last()))
    } else {
        lowered_word_chars(s.drop_last())
    }
}

proof fn lemma_word_chars_push(s: Seq<char>, c: char)
    ensures
        lowered_word_chars(s.push(c)) == if word_char(c) {
            lowered_word_chars(s).push(ascii_lower(c))
        } else {
            lowered_word_chars(s)
        },
{
    assert(s.push(c).drop_last() =~= s);
}

proof fn lemma_steps_keep_word_chars(s: Seq<char>)
    ensures
        lowered_word_chars(file_name_steps(s).0) == lowered_word_chars(s),
    decreases s.len(),
{
    if s.len() > 0 {
        lemma_steps_keep_word_chars(s.drop_last());
        let out = file_name_steps(s.drop_last()).0;
        let c = s.last();
        lemma_word_chars_push(out, ascii_lower(c));
        lemma_word_chars_push(out, '-');
    }
}

proof fn lemma_trailing_dashes_keep_word_chars(s: Seq<char>)
    ensures
        lowered_word_chars(without_trailing_dashes(s)) == lowered_word_chars(s),
    decreases s.len(),
{
    if s.len() > 0 && s.last() == '-' {
        lemma_trailing_dashes_keep_word_chars(s.drop_last());
    }
}

proof fn lemma_no_word_chars(s: Seq<char>)
    requires
        lowered_word_chars(s).len() == 0,
    ensures
        forall|k: int| 0 <= k < s.len() ==> !word_char(#[trigger] s[k]),
    decreases s.len(),
{
    if s.len() > 0 {
        lemma_no_word_chars(s.drop_last());
        assert forall|k: int| 0 <= k < s.len() implies !word_char(#[trigger] s[k]) by {
            if k < s.len() - 1 {
                assert(s[k] == s.drop_last()[k]);
            }
        }
    }
}

/// An export file name keeps the ASCII letters, digits and `_` of the title,
/// in order and in lower case; a title without any is named `request`.
pub proof fn lemma_export_file_name_keeps_word_chars(title: Seq<char>)
    ensures
        lowered_word_chars(title).len() > 0 ==> lowered_word_chars(export_file_name(title)) == lowered_word_chars(title),
        lowered_word_chars(title).len() == 0 ==> export_file_name(title) == "request"@,
{
    let built = file_name_steps(title).0;
    let name = without_trailing_dashes(built);
    lemma_steps_keep_word_chars(title);
    lemma_trailing_dashes_keep_word_chars(built);
    lemma_steps_safe(title);
    lemma_without_trailing_dashes(built);
    if lowered_word_chars(title).len() > 0 {
        if name.len() == 0 {
            assert(lowered_word_chars(name) =~= Seq::<char>::empty());
        }
    } else if name.len() > 0 {
        lemma_no_word_chars(name);
        let last = name.last();
        assert(last == built[name.len() - 1]);
        assert(safe_file_name_char(last));
        assert(!word_char(last));
    }
}

impl ApiTester {
    /// Opens the panel on its import side; refused with a notice while a
    /// request is being sent.
    #[verifier::spinoff_prover]
    #[verifier::rlimit(40)]
    pub fn open_request_import_panel(&mut self)
        ensures
            old(self).sending ==> final(self).request_notice is Some
                && final(self).request_notice->0@ == "Finish or cancel the active request before importing."@
                && *final(self) == (ApiTester { request_notice: final(self).request_notice, ..*old(self) }),
            !old(self).sending ==> *final(self) == (ApiTester {
                request_interchange: RequestInterchangeState {
                    open: true,
                    tab: RequestInterchangeTab::Import,
                    ..old(self).request_interchange
                },
                ..*old(self)
            }),
    {
        if self.sending {
            self.request_notice = Some(owned("Finish or cancel the active request before importing."));
            return;
        }
        self.request_interchange.open = true;
        self.request_interchange.tab = RequestInterchangeTab::Import;
    }

    /// Chooses the export format; reports whether the export shown on the
    /// open export side has to be rebuilt.
    pub fn select_request_export_format(&mut self, format: InterchangeFormat) -> (rebuild: bool)
        ensures
            rebuild == (old(self).request_interchange.open && old(self).request_interchange.tab
                == RequestInterchangeTab::Export),
            *final(self) == (ApiTester {
                request_interchange: RequestInterchangeState {
                    selected_format: format,
                    ..old(self).request_interchange
                },
                ..*old(self)
            }),
    {
        self.request_interchange.selected_format = format;
        self.request_interchange.open && self.request_interchange.tab == RequestInterchangeTab::Export
    }

    /// Closes the panel after imported requests were saved and reports how
    /// many.
    pub fn finish_request_import_save(&mut self, count: usize)
        ensures
            final(self).request_notice is Some,
            final(self).request_notice->0@ == "Saved "@ + decimal(count as nat)
                + " imported requests to collections."@,
            *final(self) == (ApiTester {
                request_interchange: RequestInterchangeState {
                    open: false,
                    import_loaded: false,
                    import_error: None,
                    ..old(self).request_interchange
                },
                request_notice: final(self).request_notice,
                ..*old(self)
            }),
    {
        self.request_interchange.open = false;
        self.request_interchange.import_loaded = false;
        self.request_interchange.import_error = None;
        let mut notice = owned("Saved ");
        push_decimal(&mut notice, count as u64);
        push_str(&mut notice, " imported requests to collections.");
        self.request_notice = Some(notice);
    }
}

/// How many saved requests the collections hold.
pub open spec fn requests_in(cs: Seq<Collection>) -> nat
    decreases cs.len(),
{
    if cs.len() == 0 {
        0
    } else {
        requests_in(cs.drop_last()) + cs.last().requests@.len()
    }
}

/// How a save of imported collections on the server ended.
#[derive(Debug, PartialEq, Eq)]
pub enum UpstreamImportEnd {
    /// A newer workspace switch or import started since, or the server
    /// workspace is no longer the active one: nothing changed.
    Superseded,
    /// Every collection was saved; the notice tells how many requests.
    Saved,
    /// The save failed with this message, to be reported as a failed write
    /// of the remote workspace.
    Failed(String),
}

/// The message for a save whose task did not come back.
pub open spec fn import_interrupted_message(error: Seq<char>) -> Seq<char> {
    "Import interrupted. Refresh the workspace before retrying: "@ + error
}

/// The message for a save that stopped part of the way.
pub open spec fn import_stopped_message(count: nat, error: Seq<char>) -> Seq<char> {
    "Import stopped after saving "@ + decimal(count)
        + " requests. Created collections remain saved; retrying creates new collections. "@ + error
}

impl ApiTester {
    /// Starts saving an import on the server: the collections are made from
    /// the import as for a local save and handed back, with the generation of
    /// the switch they belong to, for the server to create; the panel closes
    /// and the workspace shows as loading. An import that cannot be made
    /// leaves its reason in place of the preview and starts nothing.
    pub fn begin_request_import_on_upstream(&mut self, bundle: &ImportBundle) -> (r: Result<(u64, Workspace), String>)
        ensures
            match bundle_error(*bundle) {
                Some(e) => r matches Err(m) && m@ == e
                    && final(self).request_interchange.import_error == Some(m)
                    && *final(self) == (ApiTester {
                        request_interchange: RequestInterchangeState {
                            import_error: final(self).request_interchange.import_error,
                            ..old(self).request_interchange
                        },
                        ..*old(self)
                    }),
                None => r matches Ok((generation, made)) && {
                    &&& generation == old(self).workspace_switch.generation.wrapping_add(1)
                    &&& import_saved(*bundle, Seq::empty(), made.collections@)
                    &&& *final(self) == (ApiTester {
                        workspace_switch: WorkspaceSwitch { generation, loading: true },
                        request_interchange: RequestInterchangeState {
                            open: false,
                            ..old(self).request_interchange
                        },
                        ..*old(self)
                    })
                },
            },
    {
        let empty = Workspace::new();
        let ghost empty_collections = empty.collections@;
        match build_import_workspace(empty, bundle) {
            Err(e) => {
                self.request_interchange.import_error = Some(e.clone());
                Err(e)
            },
            Ok(made) => {
                assert(empty_collections =~= Seq::<Collection>::empty());
                self.workspace_switch.generation = self.workspace_switch.generation.wrapping_add(1);
                self.workspace_switch.loading = true;
                self.request_interchange.open = false;
                Ok((self.workspace_switch.generation, made))
            },
        }
    }

    /// Takes back what the server save of an import returned: `Err` when
    /// the task did not come back, else the collections it saved and how the
    /// save ended. A result of an older generation, or one that arrives
    /// when the target server workspace is no longer the active provider,
    /// is dropped. The saved
    /// collections join the workspace and the loading ends; a full save closes
    /// the import, a partial one reopens the panel with its message.
    #[verifier::spinoff_prover]
    #[verifier::rlimit(50)]
    pub fn finish_request_import_on_upstream(
        &mut self,
        generation: u64,
        target_is_active: bool,
        result: Result<(Vec<Collection>, Result<(), String>), String>,
    ) -> (end: UpstreamImportEnd)
        requires
            result is Ok ==> requests_in(result->Ok_0.0@) <= usize::MAX,
        ensures
            (generation != old(self).workspace_switch.generation || !target_is_active) ==> end
                == UpstreamImportEnd::Superseded && *final(self) == *old(self),
            generation == old(self).workspace_switch.generation && target_is_active ==> match result {
                Err(error) => end matches UpstreamImportEnd::Failed(m)
                    && m@ == import_interrupted_message(error@)
                    && *final(self) == *old(self),
                Ok((saved, Ok(()))) => end == UpstreamImportEnd::Saved && {
                    &&& final(self).workspace.collections@ == old(self).workspace.collections@ + saved@
                    &&& final(self).request_notice is Some
                    &&& final(self).request_notice->0@ == "Saved "@ + decimal(requests_in(saved@))
                        + " imported requests to collections."@
                    &&& *final(self) == (ApiTester {
                        workspace: final(self).workspace,
                        workspace_version: old(self).workspace_version.wrapping_add(1),
                        workspace_switch: WorkspaceSwitch { loading: false, ..old(self).workspace_switch },
                        request_interchange: RequestInterchangeState {
                            open: false,
                            import_loaded: false,
                            import_error: None,
                            ..old(self).request_interchange
                        },
                        request_notice: final(self).request_notice,
                        ..*old(self)
                    })
                },
                Ok((saved, Err(error))) => end matches UpstreamImportEnd::Failed(m) && {
                    &&& m@ == import_stopped_message(requests_in(saved@), error@)
                    &&& final(self).workspace.collections@ == old(self).workspace.collections@ + saved@
                    &&& *final(self) == (ApiTester {
                        workspace: final(self).workspace,
                        workspace_version: old(self).workspace_version.wrapping_add(1),
                        workspace_switch: WorkspaceSwitch { loading: false, ..old(self).workspace_switch },
                        request_interchange: RequestInterchangeState {
                            open: true,
                            import_error: Some(m),
                            ..old(self).request_interchange
                        },
                        ..*old(self)
                    })
                },
            },
    {
        if generation != self.workspace_switch.generation || !target_is_active {
            return UpstreamImportEnd::Superseded;
        }
        let (mut saved, outcome) = match result {
            Err(error) => {
                let mut message = owned("Import interrupted. Refresh the workspace before retrying: ");
                push_str(&mut message, error.as_str());
                return UpstreamImportEnd::Failed(message);
            },
            Ok(value) => value,
        };
        let ghost all = saved@;
        let mut count: usize = 0;
        let mut k: usize = 0;
        while k < saved.len()
            invariant
                all == saved@,
                requests_in(all) <= usize::MAX,
                0 <= k <= all.len(),
                count == requests_in(all.take(k as int)),
            decreases all.len() - k,
        {
            assert(all.take(k + 1).drop_last() =~= all.take(k as int));
            proof {
                lemma_requests_in_prefix(all, k + 1);
            }
            count = count + saved[k].requests.len();
            k = k + 1;
        }
        assert(all.take(all.len() as int) =~= all);
        self.workspace.collections.append(&mut saved);
        self.workspace_version = self.workspace_version.wrapping_add(1);
        self.workspace_switch.loading = false;
        match outcome {
            Ok(()) => {
                self.finish_request_import_save(count);
                UpstreamImportEnd::Saved
            },
            Err(error) => {
                let mut message = owned("Import stopped after saving ");
                push_decimal(&mut message, count as u64);
                push_str(&mut message, " requests. Created collections remain saved; retrying creates new collections. ");
                push_str(&mut message, error.as_str());
                self.request_interchange.open = true;
                self.request_interchange.import_error = Some(message.clone());
                UpstreamImportEnd::Failed(message)
            },
        }
    }
}

/// A prefix of the collections holds no more requests than all of them.
proof fn lemma_requests_in_prefix(cs: Seq<Collection>, n: int)
    requires
        0 <= n <= cs.len(),
    ensures
        requests_in(cs.take(n)) <= requests_in(cs),
    decreases cs.len(),
{
    if n < cs.len() {
        assert(cs.drop_last().take(n) =~= cs.take(n));
        lemma_requests_in_prefix(cs.drop_last(), n);
    } else {
        assert(cs.take(n) =~= cs);
    }
}

} // verus!
