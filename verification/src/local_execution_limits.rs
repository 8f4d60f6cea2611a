use vstd::prelude::*;

use crate::api_tester::ApiTester;
use crate::text::{
    decimal, eq_ignore_ascii_case, ends_with, has_suffix, owned, parse_non_negative,
    parsed_non_negative, push_char, push_decimal, push_signed_decimal, push_str,
    same_ignoring_ascii_case, signed_decimal, str_eq, trim, trimmed, digit_char, is_space,
    has_prefix, starts_with,
    lemma_decimal_digits, lemma_trimmed_plain, ascii_folded, all_digits, is_digit,
};

verus! {

/// One execution limit: a non-negative value, or no limit at all.
#[derive(Clone, Copy, Debug, PartialEq, Eq, Structural)]
pub struct Bound {
    pub value: i64,
    pub unlimited: bool,
}

impl Bound {
    pub fn limited(value: i64) -> (b: Bound)
        ensures
            b == (Bound { value, unlimited: false }),
    {
        Bound { value, unlimited: false }
    }

    pub fn unlimited() -> (b: Bound)
        ensures
            b == (Bound { value: 0, unlimited: true }),
    {
        Bound { value: 0, unlimited: true }
    }
}

/// The message shown for an override that is neither a number nor a keyword.
pub open spec fn override_error_text() -> Seq<char> {
    "Enter a non-negative integer, Inherit or Unlimited"@
}

/// What an override input means: `None` for text that is not accepted;
/// `Some(None)` for inherit (empty text or `inherit` in any ASCII case);
/// `Some(Some(b))` for `unlimited` or a non-negative integer. Surrounding
/// white space is ignored.
pub open spec fn limit_override(text: Seq<char>) -> Option<Option<Bound>> {
    let t = trimmed(text);
    if t.len() == 0 || same_ignoring_ascii_case(t, "inherit"@) {
        Some(None)
    } else if same_ignoring_ascii_case(t, "unlimited"@) {
        Some(Some(Bound { value: 0, unlimited: true }))
    } else {
        match parsed_non_negative(t) {
            Some(v) => Some(Some(Bound { value: v as i64, unlimited: false })),
            None => None,
        }
    }
}

/// Reads the text of an override input.
pub fn parse_limit_override(text: &str) -> (r: Result<Option<Bound>, String>)
    ensures
        match r {
            Ok(b) => limit_override(text@) == Some(b),
            Err(e) => limit_override(text@) is None && e@ == override_error_text(),
        },
{
    let text = trim(text);
    if text.unicode_len() == 0 || eq_ignore_ascii_case(text, "inherit") {
        return Ok(None);
    }
    if eq_ignore_ascii_case(text, "unlimited") {
        return Ok(Some(Bound::unlimited()));
    }
    match parse_non_negative(text) {
        Some(value) => Ok(Some(Bound::limited(value))),
        None => Err(owned("Enter a non-negative integer, Inherit or Unlimited")),
    }
}

/// Keys that only the server applies; local execution ignores them.
pub open spec fn server_only_limit(key: Seq<char>) -> bool {
    ||| key == "http.envelope_bytes"@
    ||| key == "websocket.opening_bytes"@
    ||| key == "http.tls_handshake_timeout_ms"@
}

pub fn is_local_limit(key: &str) -> (r: bool)
    ensures
        r == !server_only_limit(key@),
{
    !(str_eq(key, "http.envelope_bytes") || str_eq(key, "websocket.opening_bytes") || str_eq(
        key,
        "http.tls_handshake_timeout_ms",
    ))
}

/// The human label of a limit key; an unknown key is its own label.
pub open spec fn limit_label(key: Seq<char>) -> Seq<char> {
    if key == "http.timeout_ms"@ {
        "Request timeout"@
    } else if key == "http.connect_timeout_ms"@ {
        "Connect timeout"@
    } else if key == "http.request_bytes"@ {
        "Request size"@
    } else if key == "http.response_bytes"@ {
        "Response size"@
    } else if key == "http.redirects"@ {
        "Redirects"@
    } else if key == "http.header_count"@ {
        "Header count"@
    } else if key == "http.url_bytes"@ {
        "URL size"@
    } else if key == "websocket.handshake_timeout_ms"@ {
        "Handshake timeout"@
    } else if key == "websocket.message_bytes"@ {
        "Message size"@
    } else if key == "websocket.concurrent_sessions"@ {
        "Concurrent sessions"@
    } else if key == "websocket.script_source_bytes"@ {
        "Automation source size"@
    } else if key == "websocket.script_modules"@ {
        "Automation modules"@
    } else if key == "script.timeout_ms"@ {
        "Script timeout"@
    } else if key == "script.memory_bytes"@ {
        "Memory"@
    } else if key == "script.stack_bytes"@ {
        "Stack size"@
    } else if key == "script.source_bytes"@ {
        "Source size"@
    } else if key == "script.body_bytes"@ {
        "Body size"@
    } else if key == "script.result_bytes"@ {
        "Result size"@
    } else if key == "script.log_entries"@ {
        "Log entries"@
    } else if key == "script.log_bytes"@ {
        "Log size"@
    } else if key == "chain.max_depth"@ {
        "Maximum depth"@
    } else if key == "chain.max_requests"@ {
        "Maximum requests"@
    } else {
        key
    }
}

pub fn local_limit_label<'a>(key: &'a str) -> (r: &'a str)
    ensures
        r@ == limit_label(key@),
{
    if str_eq(key, "http.timeout_ms") {
        "Request timeout"
    } else if str_eq(key, "http.connect_timeout_ms") {
        "Connect timeout"
    } else if str_eq(key, "http.request_bytes") {
        "Request size"
    } else if str_eq(key, "http.response_bytes") {
        "Response size"
    } else if str_eq(key, "http.redirects") {
        "Redirects"
    } else if str_eq(key, "http.header_count") {
        "Header count"
    } else if str_eq(key, "http.url_bytes") {
        "URL size"
    } else if str_eq(key, "websocket.handshake_timeout_ms") {
        "Handshake timeout"
    } else if str_eq(key, "websocket.message_bytes") {
        "Message size"
    } else if str_eq(key, "websocket.concurrent_sessions") {
        "Concurrent sessions"
    } else if str_eq(key, "websocket.script_source_bytes") {
        "Automation source size"
    } else if str_eq(key, "websocket.script_modules") {
        "Automation modules"
    } else if str_eq(key, "script.timeout_ms") {
        "Script timeout"
    } else if str_eq(key, "script.memory_bytes") {
        "Memory"
    } else if str_eq(key, "script.stack_bytes") {
        "Stack size"
    } else if str_eq(key, "script.source_bytes") {
        "Source size"
    } else if str_eq(key, "script.body_bytes") {
        "Body size"
    } else if str_eq(key, "script.result_bytes") {
        "Result size"
    } else if str_eq(key, "script.log_entries") {
        "Log entries"
    } else if str_eq(key, "script.log_bytes") {
        "Log size"
    } else if str_eq(key, "chain.max_depth") {
        "Maximum depth"
    } else if str_eq(key, "chain.max_requests") {
        "Maximum requests"
    } else {
        key
    }
}

/// The unit of a limit, read from the key's suffix.
pub open spec fn limit_unit(key: Seq<char>) -> Seq<char> {
    if has_suffix(key, "_ms"@) {
        "ms"@
    } else if has_suffix(key, "_bytes"@) {
        "bytes"@
    } else {
        "count"@
    }
}

pub fn local_limit_unit(key: &str) -> (r: &'static str)
    ensures
        r@ == limit_unit(key@),
{
    if ends_with(key, "_ms") {
        "ms"
    } else if ends_with(key, "_bytes") {
        "bytes"
    } else {
        "count"
    }
}

/// Two decimal digits, with a leading zero below ten.
pub open spec fn two_digits(n: nat) -> Seq<char> {
    seq![digit_char((n / 10) % 10), digit_char(n % 10)]
}

/// A duration in milliseconds shown as seconds with two decimals, rounded
/// half up: `60000` reads `60.00 s`.
pub open spec fn seconds_text(ms: nat) -> Seq<char> {
    let centis = (ms + 5) / 10;
    decimal(centis / 100) + seq!['.'] + two_digits(centis % 100) + " s"@
}

/// The binary unit used for a byte count, with its size.
pub open spec fn byte_unit(b: nat) -> (nat, Seq<char>) {
    if b >= 0x100_0000_0000 {
        (0x100_0000_0000, "TiB"@)
    } else if b >= 0x4000_0000 {
        (0x4000_0000, "GiB"@)
    } else if b >= 0x10_0000 {
        (0x10_0000, "MiB"@)
    } else {
        (0x400, "KiB"@)
    }
}

/// A byte count shown in the largest binary unit it reaches, with one decimal
/// rounded half up: `67108864` reads `64.0 MiB`.
pub open spec fn bytes_text(b: nat) -> Seq<char> {
    let size = byte_unit(b).0;
    let tenths = (b * 10 + size / 2) / size;
    decimal(tenths / 10) + seq!['.', digit_char(tenths % 10), ' '] + byte_unit(b).1
}

/// The text that describes a saved limit: `Unlimited`; a bare number for
/// counts; otherwise the number and its unit, followed in brackets by the
/// same amount in seconds (from one second on) or in binary units (from one
/// KiB on).
pub open spec fn saved_limit_text(key: Seq<char>, bound: Bound) -> Seq<char> {
    if bound.unlimited {
        "Unlimited"@
    } else {
        let unit = limit_unit(key);
        let exact = signed_decimal(bound.value as int) + seq![' '] + unit;
        if unit == "ms"@ && bound.value >= 1000 {
            exact + " ("@ + seconds_text(bound.value as nat) + ")"@
        } else if unit == "bytes"@ && bound.value >= 1024 {
            exact + " ("@ + bytes_text(bound.value as nat) + ")"@
        } else if unit == "count"@ {
            signed_decimal(bound.value as int)
        } else {
            exact
        }
    }
}

fn push_seconds(s: &mut String, ms: u64)
    requires
        ms <= i64::MAX,
    ensures
        final(s)@ == old(s)@ + seconds_text(ms as nat),
{
    let centis = (ms + 5) / 10;
    push_decimal(s, centis / 100);
    push_char(s, '.');
    let rest = centis % 100;
    push_decimal_digit(s, (rest / 10) % 10);
    push_decimal_digit(s, rest % 10);
    push_str(s, " s");
    assert(final(s)@ =~= old(s)@ + seconds_text(ms as nat));
}

fn push_decimal_digit(s: &mut String, d: u64)
    requires
        d < 10,
    ensures
        final(s)@ == old(s)@.push(digit_char(d as nat)),
{
    proof {
        assert(decimal(d as nat) == seq![digit_char(d as nat)]);
    }
    push_decimal(s, d);
    assert(final(s)@ =~= old(s)@.push(digit_char(d as nat)));
}

#[verifier::spinoff_prover]
fn push_bytes(s: &mut String, b: u64)
    requires
        b <= i64::MAX,
    ensures
        final(s)@ == old(s)@ + bytes_text(b as nat),
{
    let (size, unit): (u64, &str) = if b >= 0x100_0000_0000 {
        (0x100_0000_0000, "TiB")
    } else if b >= 0x4000_0000 {
        (0x4000_0000, "GiB")
    } else if b >= 0x10_0000 {
        (0x10_0000, "MiB")
    } else {
        (0x400, "KiB")
    };
    assert(size == byte_unit(b as nat).0 && unit@ == byte_unit(b as nat).1);
    let wide: u128 = (b as u128) * 10 + (size as u128) / 2;
    let tenths: u128 = wide / (size as u128);
    assert(tenths <= wide);
    let tenths64: u64 = tenths as u64;
    push_decimal(s, tenths64 / 10);
    push_char(s, '.');
    push_decimal_digit(s, tenths64 % 10);
    push_char(s, ' ');
    push_str(s, unit);
    assert(final(s)@ =~= old(s)@ + bytes_text(b as nat));
}

pub fn saved_limit_label(key: &str, bound: Bound) -> (r: String)
    ensures
        r@ == saved_limit_text(key@, bound),
{
    if bound.unlimited {
        return owned("Unlimited");
    }
    let unit = local_limit_unit(key);
    let mut exact = String::new();
    push_signed_decimal(&mut exact, bound.value);
    push_char(&mut exact, ' ');
    push_str(&mut exact, unit);
    if str_eq(unit, "ms") && bound.value >= 1000 {
        push_str(&mut exact, " (");
        push_seconds(&mut exact, bound.value as u64);
        push_str(&mut exact, ")");
        exact
    } else if str_eq(unit, "bytes") && bound.value >= 1024 {
        push_str(&mut exact, " (");
        push_bytes(&mut exact, bound.value as u64);
        push_str(&mut exact, ")");
        exact
    } else if str_eq(unit, "count") {
        let mut bare = String::new();
        push_signed_decimal(&mut bare, bound.value);
        bare
    } else {
        exact
    }
}

/// The sections of the limits page: title, key prefix and description.
pub fn limit_sections() -> (r: Vec<(&'static str, &'static str, &'static str)>)
    ensures
        r@.len() == 4,
        r@[0].0@ == "HTTP"@ && r@[0].1@ == "http."@,
        r@[1].0@ == "WebSocket"@ && r@[1].1@ == "websocket."@,
        r@[2].0@ == "Scripts"@ && r@[2].1@ == "script."@,
        r@[3].0@ == "Chains"@ && r@[3].1@ == "chain."@,
{
    let mut r = Vec::new();
    r.push(
        (
            "HTTP",
            "http.",
            "Request timeouts and sizes. Connect timeout includes TLS; separate TLS timers and relay envelopes only apply to server execution.",
        ),
    );
    r.push(
        (
            "WebSocket",
            "websocket.",
            "Connection, message and automation budgets. Opening relay envelopes only apply to server execution.",
        ),
    );
    r.push(("Scripts", "script.", "Runtime, memory and output budgets for local scripts."));
    r.push(("Chains", "chain.", "Depth and request budgets for chained request execution."));
    r
}

/// Every limit key, local and server-only, in the order the editor lists them.
pub open spec fn limit_keys() -> Seq<Seq<char>> {
    seq![
        "http.timeout_ms"@,
        "http.connect_timeout_ms"@,
        "http.tls_handshake_timeout_ms"@,
        "http.request_bytes"@,
        "http.response_bytes"@,
        "http.redirects"@,
        "http.header_count"@,
        "http.url_bytes"@,
        "http.envelope_bytes"@,
        "websocket.handshake_timeout_ms"@,
        "websocket.message_bytes"@,
        "websocket.opening_bytes"@,
        "websocket.concurrent_sessions"@,
        "websocket.script_source_bytes"@,
        "websocket.script_modules"@,
        "script.timeout_ms"@,
        "script.memory_bytes"@,
        "script.stack_bytes"@,
        "script.source_bytes"@,
        "script.body_bytes"@,
        "script.result_bytes"@,
        "script.log_entries"@,
        "script.log_bytes"@,
        "chain.max_depth"@,
        "chain.max_requests"@,
    ]
}

pub fn default_limit_keys() -> (r: Vec<&'static str>)
    ensures
        r@.len() == limit_keys().len(),
        forall|i: int| 0 <= i < r@.len() ==> (#[trigger] r@[i])@ == limit_keys()[i],
{
    let r = vec![
        "http.timeout_ms",
        "http.connect_timeout_ms",
        "http.tls_handshake_timeout_ms",
        "http.request_bytes",
        "http.response_bytes",
        "http.redirects",
        "http.header_count",
        "http.url_bytes",
        "http.envelope_bytes",
        "websocket.handshake_timeout_ms",
        "websocket.message_bytes",
        "websocket.opening_bytes",
        "websocket.concurrent_sessions",
        "websocket.script_source_bytes",
        "websocket.script_modules",
        "script.timeout_ms",
        "script.memory_bytes",
        "script.stack_bytes",
        "script.source_bytes",
        "script.body_bytes",
        "script.result_bytes",
        "script.log_entries",
        "script.log_bytes",
        "chain.max_depth",
        "chain.max_requests",
    ];
    r
}

/// One override of a limit in a scope.
#[derive(Debug, PartialEq, Eq)]
pub struct LimitOverride {
    pub key: String,
    pub bound: Bound,
}

/// The overrides of one workspace, collection or folder.
#[derive(Debug, PartialEq, Eq)]
pub struct ScopedOverrides {
    pub scope_id: String,
    pub overrides: Vec<LimitOverride>,
}

/// The collection and folder overrides of one workspace.
#[derive(Debug, PartialEq, Eq)]
pub struct CollectionLimitScopes {
    pub workspace_id: String,
    pub scopes: Vec<ScopedOverrides>,
}

/// The local execution limit overrides at every level.
#[derive(Debug, PartialEq, Eq)]
pub struct ExecutionLimitSettings {
    pub application: Vec<LimitOverride>,
    pub workspaces: Vec<ScopedOverrides>,
    pub collections: Vec<CollectionLimitScopes>,
}

/// Which overrides the limits editor shows: the application's, a
/// workspace's, or those of a collection or folder of a workspace.
#[derive(Debug, PartialEq, Eq)]
pub struct LimitScope {
    pub workspace: Option<String>,
    pub collection: Option<String>,
    pub folder: Option<String>,
}

/// The text typed for one limit.
#[derive(Debug, PartialEq, Eq)]
pub struct LimitInput {
    pub key: String,
    pub text: String,
}

/// The limits editor: its scope, one input per limit, and the section shown.
#[derive(Debug, PartialEq, Eq)]
pub struct LocalExecutionLimitEditor {
    pub scope: LimitScope,
    pub inputs: Vec<LimitInput>,
    pub section: usize,
}

/// Overrides as key and bound.
pub open spec fn overrides_view(o: Seq<LimitOverride>) -> Seq<(Seq<char>, Bound)> {
    o.map_values(|x: LimitOverride| (x.key@, x.bound))
}

/// The value stored under the first entry with this key.
pub open spec fn keyed<V>(entries: Seq<(Seq<char>, V)>, key: Seq<char>) -> Option<V>
    decreases entries.len(),
{
    if entries.len() == 0 {
        None
    } else if entries[0].0 == key {
        Some(entries[0].1)
    } else {
        keyed(entries.drop_first(), key)
    }
}

/// Scoped overrides as scope and overrides.
pub open spec fn scopes_view(s: Seq<ScopedOverrides>) -> Seq<(Seq<char>, Seq<(Seq<char>, Bound)>)> {
    s.map_values(|x: ScopedOverrides| (x.scope_id@, overrides_view(x.overrides@)))
}

/// Collection scopes as workspace and scopes.
pub open spec fn collections_view(c: Seq<CollectionLimitScopes>) -> Seq<(Seq<char>, Seq<(Seq<char>, Seq<(Seq<char>, Bound)>)>)> {
    c.map_values(|x: CollectionLimitScopes| (x.workspace_id@, scopes_view(x.scopes@)))
}

/// The overrides saved for a scope: none where nothing is saved.
pub open spec fn saved_overrides(settings: ExecutionLimitSettings, scope: LimitScope) -> Seq<(Seq<char>, Bound)> {
    match scope.workspace {
        None => overrides_view(settings.application@),
        Some(w) => {
            let resource = if scope.folder is Some {
                scope.folder
            } else {
                scope.collection
            };
            match resource {
                None => match keyed(scopes_view(settings.workspaces@), w@) {
                    Some(o) => o,
                    None => Seq::empty(),
                },
                Some(r) => match keyed(collections_view(settings.collections@), w@) {
                    Some(scopes) => match keyed(scopes, r@) {
                        Some(o) => o,
                        None => Seq::empty(),
                    },
                    None => Seq::empty(),
                },
            }
        },
    }
}

/// `keyed` finds the entry at the first position holding the key.
proof fn lemma_keyed_first<V>(entries: Seq<(Seq<char>, V)>, key: Seq<char>, k: int)
    requires
        0 <= k < entries.len(),
        entries[k].0 == key,
        forall|m: int| 0 <= m < k ==> entries[m].0 != key,
    ensures
        keyed(entries, key) == Some(entries[k].1),
    decreases k,
{
    if k > 0 {
        lemma_keyed_first(entries.drop_first(), key, k - 1);
    }
}

/// The overrides read for a scope are those saved for exactly that scope:
/// the application's for no workspace; a workspace's own for a workspace
/// alone; and for a collection or folder of a workspace, the ones saved
/// under that workspace for the folder, or for the collection when there is
/// no folder (the first entry with each identifier counts).
pub proof fn lemma_saved_overrides_of_scope(settings: ExecutionLimitSettings, scope: LimitScope, i: int, k: int)
    ensures
        scope.workspace is None ==> saved_overrides(settings, scope) == overrides_view(settings.application@),
        (scope.workspace is Some && scope.collection is None && scope.folder is None && 0 <= i
            < settings.workspaces@.len() && settings.workspaces@[i].scope_id@ == scope.workspace->0@
            && forall|m: int| 0 <= m < i ==> (#[trigger] settings.workspaces@[m]).scope_id@ != scope.workspace->0@)
            ==> saved_overrides(settings, scope) == overrides_view(settings.workspaces@[i].overrides@),
        ({
            let resource = if scope.folder is Some {
                scope.folder
            } else {
                scope.collection
            };
            scope.workspace is Some && resource is Some && 0 <= i < settings.collections@.len()
                && settings.collections@[i].workspace_id@ == scope.workspace->0@ && (forall|m: int|
                0 <= m < i ==> (#[trigger] settings.collections@[m]).workspace_id@ != scope.workspace->0@) && 0
                <= k < settings.collections@[i].scopes@.len() && settings.collections@[i].scopes@[k].scope_id@
                == resource->0@ && forall|m: int|
                0 <= m < k ==> (#[trigger] settings.collections@[i].scopes@[m]).scope_id@ != resource->0@
        }) ==> saved_overrides(settings, scope) == overrides_view(settings.collections@[i].scopes@[k].overrides@),
{
    if scope.workspace is Some && scope.collection is None && scope.folder is None && 0 <= i
        < settings.workspaces@.len() && settings.workspaces@[i].scope_id@ == scope.workspace->0@
        && forall|m: int| 0 <= m < i ==> (#[trigger] settings.workspaces@[m]).scope_id@ != scope.workspace->0@ {
        let v = scopes_view(settings.workspaces@);
        assert forall|m: int| 0 <= m < i implies v[m].0 != scope.workspace->0@ by {
            assert(settings.workspaces@[m].scope_id@ != scope.workspace->0@);
        }
        lemma_keyed_first(v, scope.workspace->0@, i);
    }
    let resource = if scope.folder is Some {
        scope.folder
    } else {
        scope.collection
    };
    if scope.workspace is Some && resource is Some && 0 <= i < settings.collections@.len()
        && settings.collections@[i].workspace_id@ == scope.workspace->0@ && (forall|m: int|
        0 <= m < i ==> (#[trigger] settings.collections@[m]).workspace_id@ != scope.workspace->0@) && 0 <= k
        < settings.collections@[i].scopes@.len() && settings.collections@[i].scopes@[k].scope_id@ == resource->0@
        && forall|m: int| 0 <= m < k ==> (#[trigger] settings.collections@[i].scopes@[m]).scope_id@ != resource->0@ {
        let cv = collections_view(settings.collections@);
        assert forall|m: int| 0 <= m < i implies cv[m].0 != scope.workspace->0@ by {
            assert(settings.collections@[m].workspace_id@ != scope.workspace->0@);
        }
        lemma_keyed_first(cv, scope.workspace->0@, i);
        let sv = scopes_view(settings.collections@[i].scopes@);
        assert(cv[i].1 == sv);
        assert forall|m: int| 0 <= m < k implies sv[m].0 != resource->0@ by {
            assert(settings.collections@[i].scopes@[m].scope_id@ != resource->0@);
        }
        lemma_keyed_first(sv, resource->0@, k);
    }
}

/// A scope with nothing saved under it reads no overrides: a workspace with
/// no entry of its own, or a collection or folder whose workspace has no
/// collection scopes.
pub proof fn lemma_saved_overrides_missing(settings: ExecutionLimitSettings, scope: LimitScope)
    ensures
        (scope.workspace is Some && scope.collection is None && scope.folder is None && forall|m: int|
            0 <= m < settings.workspaces@.len() ==> (#[trigger] settings.workspaces@[m]).scope_id@
                != scope.workspace->0@) ==> saved_overrides(settings, scope).len() == 0,
        (scope.workspace is Some && (scope.collection is Some || scope.folder is Some) && forall|m: int|
            0 <= m < settings.collections@.len() ==> (#[trigger] settings.collections@[m]).workspace_id@
                != scope.workspace->0@) ==> saved_overrides(settings, scope).len() == 0,
{
    if scope.workspace is Some {
        let v = scopes_view(settings.workspaces@);
        if forall|m: int| 0 <= m < settings.workspaces@.len() ==> (#[trigger] settings.workspaces@[m]).scope_id@
            != scope.workspace->0@ {
            assert forall|m: int| 0 <= m < v.len() implies v[m].0 != scope.workspace->0@ by {
                assert(settings.workspaces@[m].scope_id@ != scope.workspace->0@);
            }
            lemma_keyed_skip(v, scope.workspace->0@, v.len() as int);
            assert(v.skip(v.len() as int) =~= Seq::<(Seq<char>, Seq<(Seq<char>, Bound)>)>::empty());
        }
        let cv = collections_view(settings.collections@);
        if forall|m: int| 0 <= m < settings.collections@.len() ==> (#[trigger] settings.collections@[m]).workspace_id@
            != scope.workspace->0@ {
            assert forall|m: int| 0 <= m < cv.len() implies cv[m].0 != scope.workspace->0@ by {
                assert(settings.collections@[m].workspace_id@ != scope.workspace->0@);
            }
            lemma_keyed_skip(cv, scope.workspace->0@, cv.len() as int);
            assert(cv.skip(cv.len() as int) =~= Seq::<(Seq<char>, Seq<(Seq<char>, Seq<(Seq<char>, Bound)>)>)>::empty());
        }
    }
}

proof fn lemma_keyed_skip<V>(entries: Seq<(Seq<char>, V)>, key: Seq<char>, k: int)
    requires
        0 <= k <= entries.len(),
        forall|m: int| 0 <= m < k ==> entries[m].0 != key,
    ensures
        keyed(entries, key) == keyed(entries.skip(k), key),
    decreases k,
{
    if k > 0 {
        assert(entries.drop_first().skip(k - 1) =~= entries.skip(k));
        lemma_keyed_skip(entries.drop_first(), key, k - 1);
    } else {
        assert(entries.skip(0) =~= entries);
    }
}

fn clone_overrides(o: &Vec<LimitOverride>) -> (r: Vec<LimitOverride>)
    ensures
        overrides_view(r@) == overrides_view(o@),
{
    let mut r: Vec<LimitOverride> = Vec::new();
    let mut k: usize = 0;
    while k < o.len()
        invariant
            0 <= k <= o@.len(),
            overrides_view(r@) == overrides_view(o@).take(k as int),
        decreases o@.len() - k,
    {
        let ghost prev = r@;
        let x = LimitOverride { key: o[k].key.clone(), bound: o[k].bound };
        assert((x.key@, x.bound) == overrides_view(o@)[k as int]);
        r.push(x);
        assert(r@ == prev.push(x));
        assert(overrides_view(r@) =~= overrides_view(prev).push((x.key@, x.bound)));
        assert(overrides_view(r@) =~= overrides_view(o@).take(k + 1));
        k = k + 1;
    }
    assert(overrides_view(o@).take(o@.len() as int) =~= overrides_view(o@));
    r
}

fn find_scope(s: &Vec<ScopedOverrides>, id: &String) -> (r: Option<usize>)
    ensures
        match r {
            Some(k) => k < s@.len() && keyed(scopes_view(s@), id@) == Some(scopes_view(s@)[k as int].1),
            None => keyed(scopes_view(s@), id@) is None,
        },
{
    let ghost view = scopes_view(s@);
    let mut k: usize = 0;
    while k < s.len()
        invariant
            view == scopes_view(s@),
            0 <= k <= s@.len(),
            forall|m: int| 0 <= m < k ==> view[m].0 != id@,
        decreases s@.len() - k,
    {
        if s[k].scope_id == *id {
            proof {
                lemma_keyed_skip(view, id@, k as int);
                assert(view.skip(k as int)[0] == view[k as int]);
            }
            return Some(k);
        }
        k = k + 1;
    }
    proof {
        lemma_keyed_skip(view, id@, k as int);
    }
    None
}

fn find_collection_scopes(c: &Vec<CollectionLimitScopes>, id: &String) -> (r: Option<usize>)
    ensures
        match r {
            Some(k) => k < c@.len() && keyed(collections_view(c@), id@) == Some(collections_view(c@)[k as int].1),
            None => keyed(collections_view(c@), id@) is None,
        },
{
    let ghost view = collections_view(c@);
    let mut k: usize = 0;
    while k < c.len()
        invariant
            view == collections_view(c@),
            0 <= k <= c@.len(),
            forall|m: int| 0 <= m < k ==> view[m].0 != id@,
        decreases c@.len() - k,
    {
        if c[k].workspace_id == *id {
            proof {
                lemma_keyed_skip(view, id@, k as int);
                assert(view.skip(k as int)[0] == view[k as int]);
            }
            return Some(k);
        }
        k = k + 1;
    }
    proof {
        lemma_keyed_skip(view, id@, k as int);
    }
    None
}

fn find_override(o: &Vec<LimitOverride>, key: &str) -> (r: Option<Bound>)
    ensures
        r == keyed(overrides_view(o@), key@),
{
    let ghost view = overrides_view(o@);
    let mut k: usize = 0;
    while k < o.len()
        invariant
            view == overrides_view(o@),
            0 <= k <= o@.len(),
            forall|m: int| 0 <= m < k ==> view[m].0 != key@,
        decreases o@.len() - k,
    {
        if str_eq(o[k].key.as_str(), key) {
            proof {
                lemma_keyed_skip(view, key@, k as int);
                assert(view.skip(k as int)[0] == view[k as int]);
            }
            return Some(o[k].bound);
        }
        k = k + 1;
    }
    proof {
        lemma_keyed_skip(view, key@, k as int);
    }
    None
}

/// The text an input shows for a saved override: `Unlimited`, the number,
/// or nothing when the limit is inherited.
pub open spec fn input_text_for(b: Option<Bound>) -> Seq<char> {
    match b {
        Some(bound) => if bound.unlimited {
            "Unlimited"@
        } else {
            signed_decimal(bound.value as int)
        },
        None => Seq::empty(),
    }
}

/// The input of one limit reads differently from what is saved, or cannot
/// be read at all.
pub open spec fn input_differs(input: (Seq<char>, Seq<char>), saved: Seq<(Seq<char>, Bound)>) -> bool {
    match limit_override(input.1) {
        Some(v) => keyed(saved, input.0) != v,
        None => true,
    }
}

/// Inputs as key and text.
pub open spec fn inputs_view(i: Seq<LimitInput>) -> Seq<(Seq<char>, Seq<char>)> {
    i.map_values(|x: LimitInput| (x.key@, x.text@))
}

impl ApiTester {
    /// The overrides saved for a scope.
    pub fn local_limit_overrides(&self, scope: &LimitScope) -> (r: Vec<LimitOverride>)
        ensures
            overrides_view(r@) == saved_overrides(self.execution_limits, *scope),
    {
        let settings = &self.execution_limits;
        match &scope.workspace {
            None => clone_overrides(&settings.application),
            Some(workspace) => {
                let resource = if scope.folder.is_some() {
                    &scope.folder
                } else {
                    &scope.collection
                };
                match resource {
                    None => match find_scope(&settings.workspaces, workspace) {
                        Some(k) => clone_overrides(&settings.workspaces[k].overrides),
                        None => {
                            let r: Vec<LimitOverride> = Vec::new();
                            assert(overrides_view(r@) =~= Seq::empty());
                            r
                        },
                    },
                    Some(id) => match find_collection_scopes(&settings.collections, workspace) {
                        Some(c) => match find_scope(&settings.collections[c].scopes, id) {
                            Some(k) => clone_overrides(&settings.collections[c].scopes[k].overrides),
                            None => {
                                let r: Vec<LimitOverride> = Vec::new();
                                assert(overrides_view(r@) =~= Seq::empty());
                                r
                            },
                        },
                        None => {
                            let r: Vec<LimitOverride> = Vec::new();
                            assert(overrides_view(r@) =~= Seq::empty());
                            r
                        },
                    },
                }
            },
        }
    }

    /// Whether some input of the limits editor reads differently from what
    /// is saved for its scope, or cannot be read; false without an editor.
    pub fn local_limit_scope_dirty(&self) -> (r: bool)
        ensures
            match &self.local_execution_limit_editor {
                None => !r,
                Some(editor) => r == exists|k: int|
                    0 <= k < editor.inputs@.len() && input_differs(
                        #[trigger] inputs_view(editor.inputs@)[k],
                        saved_overrides(self.execution_limits, editor.scope),
                    ),
            },
    {
        let Some(editor) = &self.local_execution_limit_editor else {
            return false;
        };
        let saved = self.local_limit_overrides(&editor.scope);
        let ghost view = inputs_view(editor.inputs@);
        let mut k: usize = 0;
        while k < editor.inputs.len()
            invariant
                self.local_execution_limit_editor == Some(*editor),
                view == inputs_view(editor.inputs@),
                overrides_view(saved@) == saved_overrides(self.execution_limits, editor.scope),
                0 <= k <= editor.inputs@.len(),
                forall|m: int| 0 <= m < k ==> !input_differs(#[trigger] view[m], overrides_view(saved@)),
            decreases editor.inputs@.len() - k,
        {
            let input = &editor.inputs[k];
            let differs = match parse_limit_override(input.text.as_str()) {
                Ok(value) => find_override(&saved, input.key.as_str()) != value,
                Err(_) => true,
            };
            assert(view[k as int] == (input.key@, input.text@));
            assert(differs == input_differs(view[k as int], overrides_view(saved@)));
            if differs {
                assert(input_differs(inputs_view(editor.inputs@)[k as int], saved_overrides(self.execution_limits, editor.scope)));
                return true;
            }
            k = k + 1;
        }
        false
    }

    /// Opens a scope in the limits editor: one input per limit key, showing
    /// what is saved for it in that scope; the section shown is kept.
    pub fn select_local_limit_scope(&mut self, scope: LimitScope)
        ensures
            final(self).local_execution_limit_editor is Some,
            final(self).local_execution_limit_editor->0.scope == scope,
            final(self).local_execution_limit_editor->0.section == match old(self).local_execution_limit_editor {
                Some(e) => e.section,
                None => 0,
            },
            inputs_view(final(self).local_execution_limit_editor->0.inputs@) == limit_keys().map_values(
                |key: Seq<char>| (key, input_text_for(keyed(saved_overrides(old(self).execution_limits, scope), key))),
            ),
            *final(self) == (ApiTester { local_execution_limit_editor: final(self).local_execution_limit_editor, ..*old(self) }),
    {
        let overrides = self.local_limit_overrides(&scope);
        let section = match &self.local_execution_limit_editor {
            Some(editor) => editor.section,
            None => 0,
        };
        let keys = default_limit_keys();
        let ghost target = limit_keys().map_values(
            |key: Seq<char>| (key, input_text_for(keyed(saved_overrides(self.execution_limits, scope), key))),
        );
        let mut inputs: Vec<LimitInput> = Vec::new();
        let mut k: usize = 0;
        while k < keys.len()
            invariant
                keys@.len() == limit_keys().len(),
                forall|i: int| 0 <= i < keys@.len() ==> (#[trigger] keys@[i])@ == limit_keys()[i],
                overrides_view(overrides@) == saved_overrides(self.execution_limits, scope),
                target == limit_keys().map_values(
                    |key: Seq<char>| (key, input_text_for(keyed(saved_overrides(self.execution_limits, scope), key))),
                ),
                0 <= k <= keys@.len(),
                inputs_view(inputs@) == target.take(k as int),
            decreases keys@.len() - k,
        {
            let key = keys[k];
            let text = match find_override(&overrides, key) {
                Some(bound) => {
                    if bound.unlimited {
                        owned("Unlimited")
                    } else {
                        let mut t = String::new();
                        push_signed_decimal(&mut t, bound.value);
                        t
                    }
                },
                None => String::new(),
            };
            let input = LimitInput { key: owned(key), text };
            assert((input.key@, input.text@) == target[k as int]);
            let ghost prev = inputs@;
            let ghost iv = (input.key@, input.text@);
            inputs.push(input);
            assert(inputs@ == prev.push(input));
            assert(inputs_view(inputs@) =~= inputs_view(prev).push(iv));
            assert(inputs_view(inputs@) =~= target.take(k + 1));
            k = k + 1;
        }
        assert(target.take(keys@.len() as int) =~= target);
        self.local_execution_limit_editor = Some(LocalExecutionLimitEditor { scope, inputs, section });
    }
}

/// A saved bound that an input can show: not negative, and zero when
/// unlimited.
pub open spec fn well_formed_bound(b: Bound) -> bool {
    b.value >= 0 && (b.unlimited ==> b.value == 0)
}

/// The text an input shows for a well-formed saved override reads back as
/// that override; an input left empty reads as inherit.
pub proof fn lemma_input_text_reads_back(b: Option<Bound>)
    requires
        b is Some ==> well_formed_bound(b->0),
    ensures
        limit_override(input_text_for(b)) == Some(b),
{
    reveal_strlit("inherit");
    reveal_strlit("unlimited");
    reveal_strlit("Unlimited");
    match b {
        None => {
            let t = input_text_for(b);
            assert(t.len() == 0);
            lemma_trimmed_plain(t);
        },
        Some(bound) => {
            let t = input_text_for(b);
            if bound.unlimited {
                assert(t == "Unlimited"@);
                assert forall|k: int| 0 <= k < t.len() implies !is_space(#[trigger] t[k]) by {}
                lemma_trimmed_plain(t);
                assert(!same_ignoring_ascii_case(t, "inherit"@));
                assert(same_ignoring_ascii_case(t, "unlimited"@));
            } else {
                let v = bound.value as nat;
                lemma_decimal_digits(v);
                assert(t == decimal(v));
                assert forall|k: int| 0 <= k < t.len() implies !is_space(#[trigger] t[k]) by {
                    assert(is_digit(t[k]));
                }
                lemma_trimmed_plain(t);
                crate::text::lemma_decimal_len(v);
                assert(is_digit(t[0]));
                assert(ascii_folded(t[0]) != ascii_folded("inherit"@[0]));
                assert(ascii_folded(t[0]) != ascii_folded("unlimited"@[0]));
                assert(!same_ignoring_ascii_case(t, "inherit"@));
                assert(!same_ignoring_ascii_case(t, "unlimited"@));
                assert(t[0] != '-' && t[0] != '+');
            }
        },
    }
}

proof fn lemma_keyed_member<V>(entries: Seq<(Seq<char>, V)>, key: Seq<char>)
    ensures
        keyed(entries, key) is Some ==> exists|k: int|
            0 <= k < entries.len() && (#[trigger] entries[k]).1 == keyed(entries, key)->0,
    decreases entries.len(),
{
    if entries.len() > 0 && entries[0].0 != key {
        lemma_keyed_member(entries.drop_first(), key);
        if keyed(entries, key) is Some {
            let k = choose|k: int|
                0 <= k < entries.drop_first().len() && (#[trigger] entries.drop_first()[k]).1 == keyed(entries, key)->0;
            assert(entries[k + 1] == entries.drop_first()[k]);
        }
    } else if entries.len() > 0 {
        assert(entries[0].1 == keyed(entries, key)->0);
    }
}

/// Opening a scope in the limits editor leaves nothing to save: every input
/// reads back as what is saved, provided the saved overrides are well formed.
pub proof fn lemma_selected_scope_is_clean(saved: Seq<(Seq<char>, Bound)>)
    requires
        forall|k: int| 0 <= k < saved.len() ==> well_formed_bound(#[trigger] saved[k].1),
    ensures
        forall|k: int|
            0 <= k < limit_keys().len() ==> !input_differs(
                (limit_keys()[k], input_text_for(#[trigger] keyed(saved, limit_keys()[k]))),
                saved,
            ),
{
    assert forall|k: int| 0 <= k < limit_keys().len() implies !input_differs(
        (limit_keys()[k], input_text_for(#[trigger] keyed(saved, limit_keys()[k]))),
        saved,
    ) by {
        let key = limit_keys()[k];
        lemma_keyed_member(saved, key);
        if keyed(saved, key) is Some {
            let j = choose|j: int| 0 <= j < saved.len() && (#[trigger] saved[j]).1 == keyed(saved, key)->0;
            assert(well_formed_bound(saved[j].1));
        }
        lemma_input_text_reads_back(keyed(saved, key));
    }
}

/// The effective value of one limit in the scope being edited, and the
/// scope it comes from (`None` for the built-in default).
#[derive(Debug, PartialEq, Eq)]
pub struct EffectiveLimit {
    pub key: String,
    pub bound: Bound,
    pub source: Option<String>,
}

/// Effective limits as key, then bound and source.
pub open spec fn effective_view(e: Seq<EffectiveLimit>) -> Seq<(Seq<char>, (Bound, Option<Seq<char>>))> {
    e.map_values(|x: EffectiveLimit| (x.key@, (x.bound, match x.source {
        Some(s) => Some(s@),
        None => None,
    })))
}

/// What the limits page shows for one limit.
#[derive(Debug, PartialEq, Eq)]
pub struct LimitRow {
    pub key: String,
    pub label: String,
    pub text: String,
    pub draft: Result<Option<Bound>, String>,
    pub dirty: bool,
    pub saved: Option<String>,
}

/// The key prefix of each section of the limits page.
pub open spec fn section_prefix(section: int) -> Seq<char> {
    if section == 0 {
        "http."@
    } else if section == 1 {
        "websocket."@
    } else if section == 2 {
        "script."@
    } else {
        "chain."@
    }
}

/// The keys a section shows, in order: the local limits under its prefix.
pub open spec fn shown_keys(keys: Seq<Seq<char>>, prefix: Seq<char>) -> Seq<Seq<char>>
    decreases keys.len(),
{
    if keys.len() == 0 {
        Seq::empty()
    } else if !server_only_limit(keys.last()) && has_prefix(keys.last(), prefix) {
        shown_keys(keys.drop_last(), prefix).push(keys.last())
    } else {
        shown_keys(keys.drop_last(), prefix)
    }
}

/// The text in the input of a key; empty where the editor has none.
pub open spec fn input_text(inputs: Seq<(Seq<char>, Seq<char>)>, key: Seq<char>) -> Seq<char> {
    match keyed(inputs, key) {
        Some(t) => t,
        None => Seq::empty(),
    }
}

/// The line under a limit: its saved effective value and where it comes from.
pub open spec fn saved_line(key: Seq<char>, bound: Bound, source: Option<Seq<char>>) -> Seq<char> {
    "Saved effective: "@ + saved_limit_text(key, bound) + " \u{b7} From "@ + match source {
        Some(s) => s,
        None => "Built-in default"@,
    }
}

/// The row of a key: label, typed text, what the text reads as, whether it
/// differs from what is saved in the scope, and the saved effective value.
pub open spec fn row_shows(
    row: LimitRow,
    key: Seq<char>,
    inputs: Seq<(Seq<char>, Seq<char>)>,
    saved: Seq<(Seq<char>, Bound)>,
    effective: Seq<(Seq<char>, (Bound, Option<Seq<char>>))>,
) -> bool {
    let text = input_text(inputs, key);
    &&& row.key@ == key
    &&& row.label@ == limit_label(key)
    &&& row.text@ == text
    &&& match row.draft {
        Ok(b) => limit_override(text) == Some(b),
        Err(e) => limit_override(text) is None && e@ == override_error_text(),
    }
    &&& row.dirty == input_differs((key, text), saved)
    &&& match keyed(effective, key) {
        Some((bound, source)) => row.saved is Some && row.saved->0@ == saved_line(key, bound, source),
        None => row.saved is None,
    }
}

fn find_input(inputs: &Vec<LimitInput>, key: &str) -> (r: Option<usize>)
    ensures
        match r {
            Some(k) => k < inputs@.len() && keyed(inputs_view(inputs@), key@) == Some(inputs@[k as int].text@),
            None => keyed(inputs_view(inputs@), key@) is None,
        },
{
    let ghost view = inputs_view(inputs@);
    let mut k: usize = 0;
    while k < inputs.len()
        invariant
            view == inputs_view(inputs@),
            0 <= k <= inputs@.len(),
            forall|m: int| 0 <= m < k ==> view[m].0 != key@,
        decreases inputs@.len() - k,
    {
        if str_eq(inputs[k].key.as_str(), key) {
            proof {
                lemma_keyed_skip(view, key@, k as int);
                assert(view.skip(k as int)[0] == view[k as int]);
            }
            return Some(k);
        }
        k = k + 1;
    }
    proof {
        lemma_keyed_skip(view, key@, k as int);
    }
    None
}

fn find_effective(e: &Vec<EffectiveLimit>, key: &str) -> (r: Option<usize>)
    ensures
        match r {
            Some(k) => k < e@.len() && keyed(effective_view(e@), key@) == Some(effective_view(e@)[k as int].1),
            None => keyed(effective_view(e@), key@) is None,
        },
{
    let ghost view = effective_view(e@);
    let mut k: usize = 0;
    while k < e.len()
        invariant
            view == effective_view(e@),
            0 <= k <= e@.len(),
            forall|m: int| 0 <= m < k ==> view[m].0 != key@,
        decreases e@.len() - k,
    {
        if str_eq(e[k].key.as_str(), key) {
            proof {
                lemma_keyed_skip(view, key@, k as int);
                assert(view.skip(k as int)[0] == view[k as int]);
            }
            return Some(k);
        }
        k = k + 1;
    }
    proof {
        lemma_keyed_skip(view, key@, k as int);
    }
    None
}

fn limit_row(
    key: &str,
    inputs: &Vec<LimitInput>,
    saved: &Vec<LimitOverride>,
    effective: &Vec<EffectiveLimit>,
) -> (row: LimitRow)
    ensures
        row_shows(row, key@, inputs_view(inputs@), overrides_view(saved@), effective_view(effective@)),
{
    let text = match find_input(inputs, key) {
        Some(k) => inputs[k].text.clone(),
        None => String::new(),
    };
    let draft = parse_limit_override(text.as_str());
    let dirty = match &draft {
        Ok(value) => find_override(saved, key) != *value,
        Err(_) => true,
    };
    let saved_text = match find_effective(effective, key) {
        Some(k) => {
            let mut line = owned("Saved effective: ");
            let label = saved_limit_label(key, effective[k].bound);
            push_str(&mut line, label.as_str());
            push_str(&mut line, " \u{b7} From ");
            match &effective[k].source {
                Some(source) => push_str(&mut line, source.as_str()),
                None => push_str(&mut line, "Built-in default"),
            }
            Some(line)
        },
        None => None,
    };
    LimitRow { key: owned(key), label: owned(local_limit_label(key)), text, draft, dirty, saved: saved_text }
}

/// The buttons and status line at the foot of the limits page.
#[derive(Debug, PartialEq, Eq)]
pub struct LimitActions {
    pub save_enabled: bool,
    pub discard_enabled: bool,
    pub reset_enabled: bool,
    pub change_scope_enabled: bool,
    pub status: String,
}

/// Some input of the limits editor differs from what is saved for its scope.
pub open spec fn limit_scope_dirty(app: ApiTester) -> bool {
    match app.local_execution_limit_editor {
        None => false,
        Some(editor) => exists|k: int|
            0 <= k < editor.inputs@.len() && input_differs(
                #[trigger] inputs_view(editor.inputs@)[k],
                saved_overrides(app.execution_limits, editor.scope),
            ),
    }
}

/// The status line under the limits: read only, unsaved edits, or saved.
pub open spec fn limit_status_text(writable: bool, dirty: bool) -> Seq<char> {
    if !writable {
        "Read only \u{2014} settings cannot be saved."@
    } else if dirty {
        "Unsaved changes \u{2014} save or discard before switching scope."@
    } else {
        "Saved limits apply to new executions. More specific scopes take precedence."@
    }
}

impl ApiTester {
    /// The rows of the section shown in the limits editor, one per local
    /// limit whose key starts with the section's prefix, in the order of
    /// the limit keys; `effective` holds the saved effective value of each
    /// limit in the editor's scope.
    pub fn local_limit_rows(&self, effective: &Vec<EffectiveLimit>) -> (rows: Vec<LimitRow>)
        requires
            self.local_execution_limit_editor is Some,
            self.local_execution_limit_editor->0.section < 4,
        ensures
            ({
                let editor = self.local_execution_limit_editor->0;
                let keys = shown_keys(limit_keys(), section_prefix(editor.section as int));
                &&& rows@.len() == keys.len()
                &&& forall|i: int| 0 <= i < rows@.len() ==> row_shows(
                    #[trigger] rows@[i],
                    keys[i],
                    inputs_view(editor.inputs@),
                    saved_overrides(self.execution_limits, editor.scope),
                    effective_view(effective@),
                )
            }),
    {
        let editor = match &self.local_execution_limit_editor {
            Some(e) => e,
            None => {
                return Vec::new();
            },
        };
        let sections = limit_sections();
        let prefix = sections[editor.section].1;
        assert(prefix@ == section_prefix(editor.section as int));
        let saved = self.local_limit_overrides(&editor.scope);
        let keys = default_limit_keys();
        let ghost all = limit_keys();
        let mut rows: Vec<LimitRow> = Vec::new();
        let mut k: usize = 0;
        while k < keys.len()
            invariant
                self.local_execution_limit_editor == Some(*editor),
                keys@.len() == all.len(),
                all == limit_keys(),
                forall|i: int| 0 <= i < keys@.len() ==> (#[trigger] keys@[i])@ == all[i],
                prefix@ == section_prefix(editor.section as int),
                overrides_view(saved@) == saved_overrides(self.execution_limits, editor.scope),
                0 <= k <= keys@.len(),
                rows@.len() == shown_keys(all.take(k as int), prefix@).len(),
                forall|i: int| 0 <= i < rows@.len() ==> row_shows(
                    #[trigger] rows@[i],
                    shown_keys(all.take(k as int), prefix@)[i],
                    inputs_view(editor.inputs@),
                    overrides_view(saved@),
                    effective_view(effective@),
                ),
            decreases keys@.len() - k,
        {
            let key = keys[k];
            let ghost before = shown_keys(all.take(k as int), prefix@);
            assert(all.take(k + 1).drop_last() =~= all.take(k as int));
            assert(all.take(k + 1).last() == key@);
            if is_local_limit(key) && starts_with(key, prefix) {
                let row = limit_row(key, &editor.inputs, &saved, effective);
                assert(shown_keys(all.take(k + 1), prefix@) == before.push(key@));
                rows.push(row);
            } else {
                assert(shown_keys(all.take(k + 1), prefix@) == before);
            }
            k = k + 1;
        }
        assert(all.take(keys@.len() as int) =~= all);
        rows
    }

    /// Which actions the limits page offers, given whether the settings can
    /// be written: saving needs writable settings
    /// and unsaved edits, discarding needs edits, resetting needs writable
    /// settings, and the scope can change only without edits.
    pub fn local_limit_actions(&self, settings_writable: bool) -> (a: LimitActions)
        ensures
            a.save_enabled == (settings_writable && limit_scope_dirty(*self)),
            a.discard_enabled == limit_scope_dirty(*self),
            a.reset_enabled == settings_writable,
            a.change_scope_enabled == !limit_scope_dirty(*self),
            a.status@ == limit_status_text(settings_writable, limit_scope_dirty(*self)),
    {
        let dirty = self.local_limit_scope_dirty();
        let status = if !settings_writable {
            owned("Read only \u{2014} settings cannot be saved.")
        } else if dirty {
            owned("Unsaved changes \u{2014} save or discard before switching scope.")
        } else {
            owned("Saved limits apply to new executions. More specific scopes take precedence.")
        };
        LimitActions {
            save_enabled: settings_writable && dirty,
            discard_enabled: dirty,
            reset_enabled: settings_writable,
            change_scope_enabled: !dirty,
            status,
        }
    }
}

} // verus!
