use vstd::prelude::*;

use crate::api_tester::ApiTester;
use crate::request_model::{BodyMode, HeaderEntry, RequestDraft, headers_view};
use crate::workspace::opt_view;
use crate::text::{decimal, owned, parse_non_negative, parsed_non_negative, push_char, push_decimal, push_str, str_eq};

verus! {

/// A lower-case hexadecimal digit.
pub open spec fn is_lower_hex(c: char) -> bool {
    ('0' <= c && c <= '9') || ('a' <= c && c <= 'f')
}

/// A version-4 UUID in its simple form (`uuid::Uuid::new_v4`, then
/// `simple`): 32 lower-case hexadecimal digits. The digits come from the
/// operating system's random source; nothing else is stated of them.
#[verifier::external_body]
fn random_simple_uuid() -> (r: String)
    ensures
        r@.len() == 32,
        forall|k: int| 0 <= k < 32 ==> is_lower_hex(#[trigger] r@[k]),
{
    uuid::Uuid::new_v4().simple().to_string()
}

/// `std::str::from_utf8`: the text that the bytes encode, when they are
/// valid UTF-8.
#[verifier::external_body]
fn utf8_text(bytes: &[u8]) -> (r: Option<String>)
    ensures
        match r {
            Some(s) => vstd::utf8::valid_utf8(bytes@) && s@ == vstd::utf8::decode_utf8(bytes@),
            None => !vstd::utf8::valid_utf8(bytes@),
        },
{
    match std::str::from_utf8(bytes) {
        Ok(text) => Some(text.to_owned()),
        Err(_) => None,
    }
}

/// A new gateway session token: two random UUIDs in simple form, 64
/// lower-case hexadecimal digits.
pub fn new_token() -> (r: String)
    ensures
        r@.len() == 64,
        forall|k: int| 0 <= k < 64 ==> is_lower_hex(#[trigger] r@[k]),
{
    let mut token = random_simple_uuid();
    let second = random_simple_uuid();
    let ghost first = token@;
    push_str(&mut token, second.as_str());
    assert forall|k: int| 0 <= k < 64 implies is_lower_hex(#[trigger] token@[k]) by {
        if k < 32 {
            assert(token@[k] == first[k]);
        } else {
            assert(token@[k] == second@[k - 32]);
        }
    }
    token
}

/// The loopback gateway of one session: the port it listens on, if any, a
/// generation that invalidates callbacks of an earlier start, the number of
/// executions still running, its token and its status line.
pub struct GatewayState {
    pub server: Option<u16>,
    pub generation: u64,
    pub starting: bool,
    pub pending: usize,
    pub token: String,
    pub status: String,
}

impl GatewayState {
    /// The status of a gateway that has not been enabled in this session.
    pub open spec fn disabled_status() -> Seq<char> {
        "Disabled — enable explicitly each session."@
    }
}

impl Default for GatewayState {
    /// A session starts with the gateway off and a fresh token.
    fn default() -> (g: GatewayState)
        ensures
            g.server is None,
            g.generation == 0,
            !g.starting,
            g.pending == 0,
            g.token@.len() == 64,
            forall|k: int| 0 <= k < 64 ==> is_lower_hex(#[trigger] g.token@[k]),
            g.status@ == GatewayState::disabled_status(),
    {
        GatewayState {
            server: None,
            generation: 0,
            starting: false,
            pending: 0,
            token: new_token(),
            status: owned("Disabled — enable explicitly each session."),
        }
    }
}

/// A request that reached the gateway: method, target, header names with
/// their raw values, and the raw body.
pub struct GatewayRequest {
    pub method: String,
    pub target: String,
    pub headers: Vec<(String, Vec<u8>)>,
    pub body: Vec<u8>,
}

/// A header value that can be read as text: visible ASCII and tabs only
/// (`http::HeaderValue::to_str`).
pub open spec fn is_header_text_byte(b: u8) -> bool {
    b == 9 || (32 <= b && b < 127)
}

/// The text of a header value whose bytes are all readable.
pub open spec fn header_text(bytes: Seq<u8>) -> Seq<char> {
    bytes.map_values(|b: u8| b as char)
}

fn header_value_text(bytes: &Vec<u8>) -> (r: Option<String>)
    ensures
        match r {
            Some(s) => (forall|k: int| 0 <= k < bytes@.len() ==> is_header_text_byte(#[trigger] bytes@[k]))
                && s@ == header_text(bytes@),
            None => exists|k: int| 0 <= k < bytes@.len() && !is_header_text_byte(#[trigger] bytes@[k]),
        },
{
    let mut out = String::new();
    let mut k: usize = 0;
    while k < bytes.len()
        invariant
            0 <= k <= bytes@.len(),
            forall|m: int| 0 <= m < k ==> is_header_text_byte(#[trigger] bytes@[m]),
            out@ == header_text(bytes@.take(k as int)),
        decreases bytes@.len() - k,
    {
        let b = bytes[k];
        if !(b == 9 || (32 <= b && b < 127)) {
            assert(!is_header_text_byte(bytes@[k as int]));
            return None;
        }
        push_char(&mut out, b as char);
        assert(header_text(bytes@.take(k + 1)) =~= header_text(bytes@.take(k as int)).push(b as char));
        k = k + 1;
    }
    assert(bytes@.take(bytes@.len() as int) =~= bytes@);
    Some(out)
}

/// Some header value of the request cannot be read as text.
pub open spec fn has_binary_header(request: GatewayRequest) -> bool {
    exists|i: int, k: int|
        0 <= i < request.headers@.len() && 0 <= k < request.headers@[i].1@.len()
            && !is_header_text_byte(#[trigger] request.headers@[i].1@[k])
}

/// The request recorded in history for a gateway call: the method and target
/// as they arrived, the body decoded as text, and every header with its value
/// as text, enabled.
pub open spec fn recorded_request(d: RequestDraft, request: GatewayRequest) -> bool {
    &&& d.method@ == request.method@
    &&& d.url@ == request.target@
    &&& d.body@ == vstd::utf8::decode_utf8(request.body@)
    &&& d.body_mode == BodyMode::Raw
    &&& d.body_fields@.len() == 0
    &&& headers_view(d.headers@) == request.headers@.map_values(
        |h: (String, Vec<u8>)| (h.0@, header_text(h.1@), true),
    )
}

/// The request recorded in history for a gateway exchange: the method and
/// target as they arrived, the body as raw text, and the headers. A body
/// that is not UTF-8 or a header that is not text cannot be recorded.
pub fn history_request(request: &GatewayRequest) -> (r: Result<RequestDraft, &'static str>)
    ensures
        !vstd::utf8::valid_utf8(request.body@) ==> r == Err::<RequestDraft, &'static str>(
            "gateway_binary_history_unsupported",
        ),
        vstd::utf8::valid_utf8(request.body@) && has_binary_header(*request) ==> r == Err::<
            RequestDraft,
            &'static str,
        >("gateway_header_history_unsupported"),
        vstd::utf8::valid_utf8(request.body@) && !has_binary_header(*request) ==> (r matches Ok(d)
            && recorded_request(d, *request)),
{
    let body = match utf8_text(request.body.as_slice()) {
        Some(body) => body,
        None => return Err("gateway_binary_history_unsupported"),
    };
    let mut draft = RequestDraft::new(request.method.as_str(), request.target.as_str());
    draft.body = body;
    draft.body_mode = BodyMode::Raw;
    let mut headers: Vec<HeaderEntry> = Vec::new();
    let mut i: usize = 0;
    while i < request.headers.len()
        invariant
            vstd::utf8::valid_utf8(request.body@),
            0 <= i <= request.headers@.len(),
            forall|j: int, k: int|
                0 <= j < i && 0 <= k < request.headers@[j].1@.len() ==> is_header_text_byte(
                    #[trigger] request.headers@[j].1@[k],
                ),
            headers_view(headers@) == request.headers@.take(i as int).map_values(
                |h: (String, Vec<u8>)| (h.0@, header_text(h.1@), true),
            ),
        decreases request.headers@.len() - i,
    {
        let (name, value) = &request.headers[i];
        match header_value_text(value) {
            Some(text) => {
                let entry = HeaderEntry::new(name.clone(), text);
                let ghost prev = headers@;
                headers.push(entry);
                assert(headers_view(headers@) =~= headers_view(prev).push(entry@));
                assert(request.headers@.take(i + 1).map_values(
                    |h: (String, Vec<u8>)| (h.0@, header_text(h.1@), true),
                ) =~= request.headers@.take(i as int).map_values(
                    |h: (String, Vec<u8>)| (h.0@, header_text(h.1@), true),
                ).push((name@, header_text(value@), true)));
            },
            None => {
                assert(has_binary_header(*request));
                return Err("gateway_header_history_unsupported");
            },
        }
        i = i + 1;
    }
    assert(request.headers@.take(request.headers@.len() as int) =~= request.headers@);
    draft.headers = headers;
    Ok(draft)
}

impl ApiTester {
    /// Turns the gateway off: later callbacks of the running start are
    /// ignored; executions already accepted finish.
    pub fn stop_gateway(&mut self)
        ensures
            final(self).gateway.generation == old(self).gateway.generation.wrapping_add(1),
            final(self).gateway.server is None,
            !final(self).gateway.starting,
            final(self).gateway.pending == old(self).gateway.pending,
            final(self).gateway.token == old(self).gateway.token,
            final(self).gateway.status@ == "Disabled. Already accepted executions finish and save history."@,
            *final(self) == (ApiTester { gateway: final(self).gateway, ..*old(self) }),
    {
        self.gateway.generation = self.gateway.generation.wrapping_add(1);
        self.gateway.server = None;
        self.gateway.starting = false;
        self.gateway.status = owned("Disabled. Already accepted executions finish and save history.");
    }
}

/// What becomes of a call that reached the gateway.
#[derive(Debug)]
pub enum GatewayAdmission {
    /// The caller is already gone: nothing is done.
    Ignored,
    /// Refused with an HTTP status and a reason code.
    Rejected { status: u16, code: &'static str },
    /// Refused with a message.
    Failed(String),
    /// Accepted, with the request as it goes into the history; one more
    /// call is pending.
    Admitted(RequestDraft),
}

/// What the gateway answers a caller.
#[derive(Debug)]
pub struct GatewayReply {
    pub status: u16,
    pub headers: Vec<(String, Vec<u8>)>,
    pub body: Vec<u8>,
}

/// How many calls the gateway runs at once.
pub const MAX_PENDING_GATEWAY_CALLS: usize = 8;

/// The message for a call whose pinned environment was deleted.
pub open spec fn pinned_environment_message() -> Seq<char> {
    "Pinned environment was deleted. Re-enable the gateway."@
}

/// The message for a call that failed after it was recorded.
pub open spec fn gateway_failure_message() -> Seq<char> {
    "Gateway execution failed. See Resolved history for details; do not retry automatically."@
}

/// The message for a call whose history could not be saved.
pub open spec fn gateway_unsaved_message() -> Seq<char> {
    "Execution finished, but history could not be persisted. Do not retry automatically."@
}

impl ApiTester {
    /// Decides what to do with a call that reached the gateway: a call whose
    /// caller is gone is ignored; with eight calls running it is refused as
    /// busy; without a writable history it is refused; a request that cannot
    /// be recorded is refused (415 for a body that is not text, 400 for a
    /// header); a call whose pinned environment was deleted fails; otherwise
    /// it is accepted and counted as pending.
    pub fn accept_gateway_exchange(
        &mut self,
        request: &GatewayRequest,
        reply_closed: bool,
        pinned_environment_missing: bool,
    ) -> (a: GatewayAdmission)
        ensures
            reply_closed ==> a is Ignored && *final(self) == *old(self),
            !reply_closed && old(self).gateway.pending >= 8 ==> *final(self) == *old(self) && a
                == (GatewayAdmission::Rejected { status: 429, code: "gateway_busy" }),
            !reply_closed && old(self).gateway.pending < 8 && !old(self).history_writable ==> *final(self)
                == *old(self) && a == (GatewayAdmission::Rejected { status: 503, code: "gateway_history_read_only" }),
            !reply_closed && old(self).gateway.pending < 8 && old(self).history_writable ==> {
                let text_body = vstd::utf8::valid_utf8(request.body@);
                &&& !text_body ==> *final(self) == *old(self) && a == (GatewayAdmission::Rejected {
                    status: 415,
                    code: "gateway_binary_history_unsupported",
                })
                &&& text_body && has_binary_header(*request) ==> *final(self) == *old(self) && a
                    == (GatewayAdmission::Rejected { status: 400, code: "gateway_header_history_unsupported" })
                &&& text_body && !has_binary_header(*request) && pinned_environment_missing ==> *final(self)
                    == *old(self) && (a matches GatewayAdmission::Failed(m) && m@ == pinned_environment_message())
                &&& text_body && !has_binary_header(*request) && !pinned_environment_missing ==> {
                    &&& a matches GatewayAdmission::Admitted(d) && recorded_request(d, *request)
                    &&& final(self).gateway.pending == old(self).gateway.pending + 1
                    &&& *final(self) == (ApiTester {
                        gateway: GatewayState { pending: final(self).gateway.pending, ..old(self).gateway },
                        ..*old(self)
                    })
                }
            },
    {
        if reply_closed {
            return GatewayAdmission::Ignored;
        }
        if self.gateway.pending >= MAX_PENDING_GATEWAY_CALLS {
            return GatewayAdmission::Rejected { status: 429, code: "gateway_busy" };
        }
        if !self.history_writable {
            return GatewayAdmission::Rejected { status: 503, code: "gateway_history_read_only" };
        }
        let draft = match history_request(request) {
            Ok(draft) => draft,
            Err(code) => {
                proof {
                    reveal_strlit("gateway_binary_history_unsupported");
                    reveal_strlit("gateway_header_history_unsupported");
                    assert("gateway_binary_history_unsupported"@[8] != "gateway_header_history_unsupported"@[8]);
                }
                let binary = str_eq(code, "gateway_binary_history_unsupported");
                let status: u16 = if binary { 415 } else { 400 };
                return GatewayAdmission::Rejected { status, code };
            },
        };
        if pinned_environment_missing {
            return GatewayAdmission::Failed(owned("Pinned environment was deleted. Re-enable the gateway."));
        }
        self.gateway.pending = self.gateway.pending + 1;
        GatewayAdmission::Admitted(draft)
    }

    /// Answers an accepted call once its history entry was saved, or not, and
    /// releases it: a failed execution and an unsaved history are reported
    /// without the details, which only the history holds.
    pub fn finish_gateway_exchange(&mut self, history_saved: bool, result: Result<GatewayReply, String>) -> (reply: Result<GatewayReply, String>)
        requires
            old(self).gateway.pending > 0,
        ensures
            final(self).gateway.pending == old(self).gateway.pending - 1,
            *final(self) == (ApiTester {
                gateway: GatewayState { pending: final(self).gateway.pending, ..old(self).gateway },
                ..*old(self)
            }),
            history_saved && result is Ok ==> reply == result,
            history_saved && result is Err ==> (reply matches Err(m) && m@ == gateway_failure_message()),
            !history_saved ==> (reply matches Err(m) && m@ == gateway_unsaved_message()),
    {
        self.gateway.pending = self.gateway.pending - 1;
        if history_saved {
            match result {
                Ok(response) => Ok(response),
                Err(_) => Err(
                    owned(
                        "Gateway execution failed. See Resolved history for details; do not retry automatically.",
                    ),
                ),
            }
        } else {
            Err(owned("Execution finished, but history could not be persisted. Do not retry automatically."))
        }
    }
}

/// The port typed for the gateway, when it is a number from 1 to 65535.
pub open spec fn gateway_port(text: Seq<char>) -> Option<u16> {
    match parsed_non_negative(text) {
        Some(v) => if 1 <= v <= 65535 {
            Some(v as u16)
        } else {
            None
        },
        None => None,
    }
}

/// The status of a gateway that listens.
pub open spec fn listening_status(port: u16, workspace_id: Seq<char>, environment_id: Option<Seq<char>>) -> Seq<char> {
    "Listening on 127.0.0.1:"@ + decimal(port as nat) + " \u{b7} workspace "@ + workspace_id + " \u{b7} environment "@
        + match environment_id {
        Some(e) => e,
        None => "none"@,
    }
}

fn listening_status_text(port: u16, workspace_id: &str, environment_id: &Option<String>) -> (r: String)
    ensures
        r@ == listening_status(port, workspace_id@, opt_view(*environment_id)),
{
    proof {
        reveal_strlit("Listening on 127.0.0.1:");
        reveal_strlit(" \u{b7} workspace ");
        reveal_strlit(" \u{b7} environment ");
        reveal_strlit("none");
    }
    let mut status = owned("Listening on 127.0.0.1:");
    push_decimal(&mut status, port as u64);
    push_str(&mut status, " \u{b7} workspace ");
    push_str(&mut status, workspace_id);
    push_str(&mut status, " \u{b7} environment ");
    match environment_id {
        Some(e) => push_str(&mut status, e.as_str()),
        None => push_str(&mut status, "none"),
    }
    status
}

impl ApiTester {
    /// Checks whether the gateway can start: nothing happens while it runs
    /// or starts; it needs a local workspace, a writable history and a port
    /// from 1 to 65535, and says which is missing in its status. Gives back
    /// the port to start on.
    pub fn begin_gateway_start(&mut self, local_workspace: bool, port_text: &str) -> (port: Option<u16>)
        ensures
            old(self).gateway.server is Some || old(self).gateway.starting ==> port is None && *final(self)
                == *old(self),
            !(old(self).gateway.server is Some || old(self).gateway.starting) ==> {
                &&& *final(self) == (ApiTester {
                    gateway: GatewayState { status: final(self).gateway.status, ..old(self).gateway },
                    ..*old(self)
                })
                &&& !local_workspace ==> port is None && final(self).gateway.status@
                    == "Select a local workspace first. Remote execution is not supported in this preview."@
                &&& local_workspace && !old(self).history_writable ==> port is None && final(self).gateway.status@
                    == "Gateway requires writable history."@
                &&& local_workspace && old(self).history_writable ==> port == gateway_port(port_text@) && (port is None
                    ==> final(self).gateway.status@ == "Port must be a number from 1 to 65535."@) && (port is Some
                    ==> final(self).gateway.status == old(self).gateway.status)
            },
    {
        if self.gateway.server.is_some() || self.gateway.starting {
            return None;
        }
        if !local_workspace {
            self.gateway.status = owned("Select a local workspace first. Remote execution is not supported in this preview.");
            return None;
        }
        if !self.history_writable {
            self.gateway.status = owned("Gateway requires writable history.");
            return None;
        }
        match parse_non_negative(port_text) {
            Some(v) => {
                if 1 <= v && v <= 65535 {
                    return Some(v as u16);
                }
            },
            None => {},
        }
        self.gateway.status = owned("Port must be a number from 1 to 65535.");
        None
    }

    /// Marks the gateway as starting once its settings were saved: callbacks
    /// of any earlier start are invalidated, and the start counts as pending.
    /// Gives back the generation of this start.
    pub fn mark_gateway_starting(&mut self) -> (generation: u64)
        requires
            old(self).gateway.pending < usize::MAX,
        ensures
            generation == old(self).gateway.generation.wrapping_add(1),
            final(self).gateway.generation == generation,
            final(self).gateway.starting,
            final(self).gateway.pending == old(self).gateway.pending + 1,
            final(self).gateway.status@ == "Starting\u{2026}"@,
            *final(self) == (ApiTester {
                gateway: GatewayState {
                    generation: final(self).gateway.generation,
                    starting: true,
                    pending: final(self).gateway.pending,
                    status: final(self).gateway.status,
                    ..old(self).gateway
                },
                ..*old(self)
            }),
    {
        self.gateway.generation = self.gateway.generation.wrapping_add(1);
        self.gateway.starting = true;
        self.gateway.pending = self.gateway.pending + 1;
        self.gateway.status = owned("Starting\u{2026}");
        self.gateway.generation
    }

    /// Takes the outcome of a start: it is released either way; an outcome of
    /// an earlier start changes nothing else. Otherwise the gateway listens on
    /// the port it got (for the workspace and environment it captured), or
    /// reports the error. Says whether calls are to be taken.
    pub fn finish_gateway_start(
        &mut self,
        generation: u64,
        result: Result<(u16, String, Option<String>), String>,
    ) -> (listening: bool)
        requires
            old(self).gateway.pending > 0,
        ensures
            final(self).gateway.pending == old(self).gateway.pending - 1,
            generation != old(self).gateway.generation ==> !listening && *final(self) == (ApiTester {
                gateway: GatewayState { pending: final(self).gateway.pending, ..old(self).gateway },
                ..*old(self)
            }),
            generation == old(self).gateway.generation ==> {
                &&& !final(self).gateway.starting
                &&& *final(self) == (ApiTester {
                    gateway: GatewayState {
                        pending: final(self).gateway.pending,
                        starting: false,
                        server: final(self).gateway.server,
                        status: final(self).gateway.status,
                        ..old(self).gateway
                    },
                    ..*old(self)
                })
                &&& match result {
                    Ok((port, workspace_id, environment_id)) => {
                        &&& listening
                        &&& final(self).gateway.server == Some(port)
                        &&& final(self).gateway.status@ == listening_status(port, workspace_id@, opt_view(environment_id))
                    },
                    Err(e) => !listening && final(self).gateway.server == old(self).gateway.server
                        && final(self).gateway.status == e,
                }
            },
    {
        self.gateway.pending = self.gateway.pending - 1;
        if generation != self.gateway.generation {
            return false;
        }
        self.gateway.starting = false;
        match result {
            Ok((port, workspace_id, environment_id)) => {
                self.gateway.status = listening_status_text(port, workspace_id.as_str(), &environment_id);
                self.gateway.server = Some(port);
                true
            },
            Err(error) => {
                self.gateway.status = error;
                false
            },
        }
    }

    /// Whether a call that arrives for a start is to be taken: only while
    /// that start is the current one and the gateway listens. Others are
    /// answered that the gateway was disabled.
    pub fn gateway_takes_calls(&self, generation: u64) -> (open: bool)
        ensures
            open == (generation == self.gateway.generation && self.gateway.server is Some),
    {
        generation == self.gateway.generation && self.gateway.server.is_some()
    }
}

} // verus!
