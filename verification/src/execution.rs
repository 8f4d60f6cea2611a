use vstd::prelude::*;

use crate::api_tester::ApiTester;
use crate::execution_stage::ExecutionStage;
use crate::request_model::RequestTemplate;
use crate::text::{owned, trim, trimmed};

verus! {

/// The error for a request without a method.
pub open spec fn blank_method_message() -> Seq<char> {
    "HTTP method cannot be empty."@
}

/// The error for a request sent while the environment editor holds changes.
pub open spec fn dirty_environment_message() -> Seq<char> {
    "The active environment has unsaved changes. Save or Revert them before sending."@
}

/// What cancelling a request has to stop: the running script, the network
/// request.
#[derive(Clone, Copy, Debug, PartialEq, Eq, Structural)]
pub struct CancelSteps {
    pub cancel_script: bool,
    pub abort_request: bool,
}

impl ApiTester {
    /// Ends a cancelled request: nothing is running any more and the request
    /// reads as cancelled.
    pub fn finish_cancelled(&mut self)
        ensures
            final(self).request_error is Some,
            final(self).request_error->0@ == "Request cancelled"@,
            *final(self) == (ApiTester {
                sending: false,
                execution_stage: None,
                abort_handle_armed: false,
                script_cancellation_armed: false,
                request_history_target: None,
                request_error: final(self).request_error,
                preview_error: None,
                ..*old(self)
            }),
    {
        self.sending = false;
        self.execution_stage = None;
        self.abort_handle_armed = false;
        self.script_cancellation_armed = false;
        self.request_history_target = None;
        self.request_error = Some(owned("Request cancelled"));
        self.preview_error = None;
    }

    /// Cancels the running request. Its script and network request are to be
    /// stopped; when only the post-response script of a received response
    /// was running, the response stays and the script's own failure is
    /// recorded instead. Otherwise later callbacks are ignored and the
    /// request reads as cancelled.
    pub fn cancel_request(&mut self) -> (steps: CancelSteps)
        ensures
            steps.cancel_script == old(self).script_cancellation_armed,
            steps.abort_request == old(self).abort_handle_armed,
            (old(self).has_response && old(self).execution_stage == Some(ExecutionStage::PostResponse))
                ==> *final(self) == (ApiTester {
                script_cancellation_armed: false,
                abort_handle_armed: false,
                ..*old(self)
            }),
            !(old(self).has_response && old(self).execution_stage == Some(ExecutionStage::PostResponse))
                ==> final(self).request_error is Some && final(self).request_error->0@ == "Request cancelled"@
                && *final(self) == (ApiTester {
                request_generation: old(self).request_generation.wrapping_add(1),
                sending: false,
                execution_stage: None,
                abort_handle_armed: false,
                script_cancellation_armed: false,
                request_history_target: None,
                request_error: final(self).request_error,
                preview_error: None,
                ..*old(self)
            }),
    {
        let steps = CancelSteps {
            cancel_script: self.script_cancellation_armed,
            abort_request: self.abort_handle_armed,
        };
        self.script_cancellation_armed = false;
        self.abort_handle_armed = false;
        if self.has_response && self.execution_stage == Some(ExecutionStage::PostResponse) {
            return steps;
        }
        self.request_generation = self.request_generation.wrapping_add(1);
        self.finish_cancelled();
        steps
    }

    /// Starts sending the request in the editor. Nothing happens while a
    /// request is being sent. A blank method, or unsaved changes in the
    /// active environment's editor, is reported instead of sending. Otherwise
    /// earlier callbacks are invalidated, the response and errors are
    /// cleared, the pre-request script stage begins with its cancellation
    /// armed, and the definition to send comes back with the generation of
    /// this run.
    pub fn start_request(&mut self, environment_editor_dirty: bool, history_target: Option<String>) -> (started: Option<(u64, RequestTemplate)>)
        ensures
            old(self).sending ==> started is None && *final(self) == *old(self),
            !old(self).sending && (trimmed(old(self).editor.method@).len() == 0 || environment_editor_dirty) ==> {
                &&& started is None
                &&& final(self).request_error matches Some(e) && e@ == if trimmed(old(self).editor.method@).len() == 0 {
                    blank_method_message()
                } else {
                    dirty_environment_message()
                }
                &&& *final(self) == (ApiTester {
                    has_response: false,
                    request_error: final(self).request_error,
                    execution_stage: None,
                    ..*old(self)
                })
            },
            !old(self).sending && trimmed(old(self).editor.method@).len() > 0 && !environment_editor_dirty ==> {
                &&& started matches Some((generation, template)) && generation == old(self).request_generation.wrapping_add(1)
                    && template@ == old(self).editor.drafted()
                &&& *final(self) == (ApiTester {
                    request_notice: None,
                    request_generation: old(self).request_generation.wrapping_add(1),
                    request_history_target: history_target,
                    sending: true,
                    execution_stage: Some(ExecutionStage::PreRequest),
                    has_response: false,
                    request_error: None,
                    preview_error: None,
                    script_cancellation_armed: true,
                    ..*old(self)
                })
            },
    {
        if self.sending {
            return None;
        }
        let blank_method = trim(self.editor.method.as_str()).unicode_len() == 0;
        if blank_method || environment_editor_dirty {
            let error = if blank_method {
                owned("HTTP method cannot be empty.")
            } else {
                owned("The active environment has unsaved changes. Save or Revert them before sending.")
            };
            proof {
                reveal_strlit("HTTP method cannot be empty.");
                reveal_strlit("The active environment has unsaved changes. Save or Revert them before sending.");
            }
            self.has_response = false;
            self.request_error = Some(error);
            self.execution_stage = None;
            return None;
        }
        self.request_notice = None;
        let template = self.request_template();
        self.request_generation = self.request_generation.wrapping_add(1);
        self.request_history_target = history_target;
        self.sending = true;
        self.execution_stage = Some(ExecutionStage::PreRequest);
        self.has_response = false;
        self.request_error = None;
        self.preview_error = None;
        self.script_cancellation_armed = true;
        Some((self.request_generation, template))
    }
}

} // verus!
