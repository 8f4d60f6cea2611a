use vstd::prelude::*;

use crate::snippets::Snippet;

use crate::api_tester::ApiTester;
use crate::request_tabs::RequestTabs;
use crate::text::{owned, push_str};
use crate::workspace::Workspace;

verus! {

/// Bookkeeping of background saves. A queued save is not a durable success.
#[derive(Clone, Copy, Debug, PartialEq, Eq, Structural)]
pub struct PersistenceIoState {
    pub history_generation: u64,
    pub history_pending: bool,
    pub history_failed: bool,
    pub history_clear_pending: bool,
    pub history_save_deferred: bool,
    pub snippets_pending: bool,
}

impl PersistenceIoState {
    pub fn new() -> (s: PersistenceIoState)
        ensures
            s == (PersistenceIoState {
                history_generation: 0,
                history_pending: false,
                history_failed: false,
                history_clear_pending: false,
                history_save_deferred: false,
                snippets_pending: false,
            }),
    {
        PersistenceIoState {
            history_generation: 0,
            history_pending: false,
            history_failed: false,
            history_clear_pending: false,
            history_save_deferred: false,
            snippets_pending: false,
        }
    }
}

fn plan_history_save(io: PersistenceIoState, writable: bool, warning: &mut Option<String>) -> (r: (PersistenceIoState, Option<u64>))
    ensures
        io.history_clear_pending ==> r.1 is None && r.0 == (PersistenceIoState { history_save_deferred: true, ..io })
            && *final(warning) == *old(warning),
        !io.history_clear_pending && !writable ==> r.1 is None && r.0 == io && (*final(warning)) is Some
            && ((*old(warning)) is Some ==> *final(warning) == *old(warning))
            && ((*old(warning)) is None ==> (*final(warning))->0@
            == "History is read-only because it could not be loaded safely."@),
        !io.history_clear_pending && writable ==> r.1 == Some(io.history_generation.wrapping_add(1))
            && *final(warning) == *old(warning) && r.0 == (PersistenceIoState {
            history_generation: io.history_generation.wrapping_add(1),
            history_pending: true,
            ..io
        }),
{
    if io.history_clear_pending {
        return (PersistenceIoState { history_save_deferred: true, ..io }, None);
    }
    if !writable {
        if warning.is_none() {
            *warning = Some(owned("History is read-only because it could not be loaded safely."));
        }
        return (io, None);
    }
    let generation = io.history_generation.wrapping_add(1);
    (PersistenceIoState { history_generation: generation, history_pending: true, ..io }, Some(generation))
}

/// Whether the window may close now.
#[derive(Clone, Copy, Debug, PartialEq, Eq, Structural)]
pub enum CloseCheck {
    /// Everything is saved.
    Ready,
    /// Something is still running or being saved; the window stays open.
    Wait,
    /// The last history save failed; the window stays open and the history
    /// is to be saved again.
    RetryHistorySave,
}

impl ApiTester {
    /// Makes a workspace the active one; views derived from the old one are
    /// invalidated.
    pub fn replace_workspace(&mut self, workspace: Workspace)
        ensures
            *final(self) == (ApiTester {
                workspace,
                workspace_version: old(self).workspace_version.wrapping_add(1),
                ..*old(self)
            }),
    {
        self.workspace = workspace;
        self.workspace_version = self.workspace_version.wrapping_add(1);
    }

    /// Starts saving a snippet list: refused while another save is pending;
    /// otherwise the save is marked pending and the list is handed back to be
    /// written.
    pub fn begin_snippets_save(&mut self, candidate: Vec<Snippet>) -> (r: Result<Vec<Snippet>, String>)
        ensures
            old(self).persistence_io.snippets_pending ==> r is Err && *final(self) == *old(self)
                && r->Err_0@ == "A snippet save is still pending. Try again when it completes."@,
            !old(self).persistence_io.snippets_pending ==> r == Ok::<Vec<Snippet>, String>(candidate)
                && *final(self) == (ApiTester {
                persistence_io: PersistenceIoState { snippets_pending: true, ..old(self).persistence_io },
                ..*old(self)
            }),
    {
        if self.persistence_io.snippets_pending {
            return Err(owned("A snippet save is still pending. Try again when it completes."));
        }
        self.persistence_io.snippets_pending = true;
        Ok(candidate)
    }

    /// Ends a snippet save, whatever its outcome: on success the saved list
    /// becomes the live one; a failed save leaves the live list as it was and
    /// gives back the error.
    pub fn finish_snippets_save(&mut self, result: Result<Vec<Snippet>, String>) -> (r: Result<(), String>)
        ensures
            match result {
                Ok(saved) => r is Ok && *final(self) == (ApiTester {
                    persistence_io: PersistenceIoState { snippets_pending: false, ..old(self).persistence_io },
                    snippets: saved,
                    ..*old(self)
                }),
                Err(e) => r == Err::<(), String>(e) && *final(self) == (ApiTester {
                    persistence_io: PersistenceIoState { snippets_pending: false, ..old(self).persistence_io },
                    ..*old(self)
                }),
            },
    {
        self.persistence_io.snippets_pending = false;
        match result {
            Ok(saved) => {
                self.snippets = saved;
                Ok(())
            },
            Err(e) => Err(e),
        }
    }

    /// Whether local state is saved so that the window may close; otherwise
    /// the reason is recorded as the request notice.
    #[verifier::rlimit(60)]
    #[verifier::spinoff_prover]
    pub fn local_persistence_ready_to_close(&mut self, has_pending_execution: bool) -> (r: CloseCheck)
        ensures
            (has_pending_execution || old(self).gateway.pending > 0) ==> r == CloseCheck::Wait
                && final(self).request_notice is Some
                && final(self).request_notice->0@
                == "Finish or cancel running requests before closing; their history is not finalized."@,
            !(has_pending_execution || old(self).gateway.pending > 0) && (old(self).persistence_io.history_pending
                || old(self).persistence_io.snippets_pending) ==> r == CloseCheck::Wait
                && final(self).request_notice is Some
                && final(self).request_notice->0@
                == "Local changes are still being saved. Wait for completion before closing."@,
            !(has_pending_execution || old(self).gateway.pending > 0) && !(old(self).persistence_io.history_pending
                || old(self).persistence_io.snippets_pending) && old(self).persistence_io.history_failed
                ==> r == CloseCheck::RetryHistorySave && final(self).request_notice is Some
                && final(self).request_notice->0@
                == "History could not be saved. The window was kept open; try closing again to retry."@,
            !(has_pending_execution || old(self).gateway.pending > 0) && !(old(self).persistence_io.history_pending
                || old(self).persistence_io.snippets_pending) && !old(self).persistence_io.history_failed
                ==> r == CloseCheck::Ready && final(self).request_notice == old(self).request_notice,
            *final(self) == (ApiTester { request_notice: final(self).request_notice, ..*old(self) }),
    {
        if has_pending_execution || self.gateway.pending > 0 {
            self.request_notice = Some(
                owned("Finish or cancel running requests before closing; their history is not finalized."),
            );
            return CloseCheck::Wait;
        }
        if self.persistence_io.history_pending || self.persistence_io.snippets_pending {
            self.request_notice = Some(
                owned("Local changes are still being saved. Wait for completion before closing."),
            );
            return CloseCheck::Wait;
        }
        if self.persistence_io.history_failed {
            self.request_notice = Some(
                owned("History could not be saved. The window was kept open; try closing again to retry."),
            );
            return CloseCheck::RetryHistorySave;
        }
        CloseCheck::Ready
    }

    /// Makes a workspace the active one once its save came back: refused when
    /// the workspace is read-only (nothing is to be written then); a failed
    /// save is reported and recorded as the workspace warning.
    pub fn commit_workspace(&mut self, candidate: Workspace, saved: Result<(), String>) -> (r: Result<(), String>)
        ensures
            !old(self).workspace_writable ==> *final(self) == *old(self) && r is Err
                && r->Err_0@ == "This workspace is read-only."@,
            old(self).workspace_writable && saved is Ok ==> r is Ok && *final(self) == (ApiTester {
                workspace: candidate,
                workspace_version: old(self).workspace_version.wrapping_add(1),
                workspace_warning: None,
                ..*old(self)
            }),
            old(self).workspace_writable && saved is Err ==> r is Err
                && r->Err_0@ == "Workspace could not be saved: "@ + saved->Err_0@
                && final(self).workspace_warning == Some(r->Err_0)
                && *final(self) == (ApiTester { workspace_warning: final(self).workspace_warning, ..*old(self) }),
    {
        if !self.workspace_writable {
            return Err(owned("This workspace is read-only."));
        }
        match saved {
            Ok(()) => {
                self.replace_workspace(candidate);
                self.workspace_warning = None;
                Ok(())
            },
            Err(error) => {
                let mut message = owned("Workspace could not be saved: ");
                push_str(&mut message, error.as_str());
                self.workspace_warning = Some(message.clone());
                Err(message)
            },
        }
    }
}

impl ApiTester {
    /// Makes a workspace and a set of open tabs the active ones once their
    /// save came back. The caller saves both together, or only the workspace
    /// when the tabs are read-only; nothing is saved when the workspace is
    /// read-only.
    pub fn commit_workspace_and_request_tabs(&mut self, candidate_workspace: Workspace, candidate_request_tabs: RequestTabs, saved: Result<(), String>) -> (r: Result<(), String>)
        ensures
            !old(self).workspace_writable ==> *final(self) == *old(self) && r is Err
                && r->Err_0@ == "This workspace is read-only."@,
            old(self).workspace_writable && !old(self).request_tabs_writable && saved is Ok ==> r is Ok
                && *final(self) == (ApiTester {
                workspace: candidate_workspace,
                workspace_version: old(self).workspace_version.wrapping_add(1),
                workspace_warning: None,
                request_tabs: candidate_request_tabs,
                ..*old(self)
            }),
            old(self).workspace_writable && !old(self).request_tabs_writable && saved is Err ==> r is Err
                && r->Err_0@ == "Workspace could not be saved: "@ + saved->Err_0@
                && *final(self) == (ApiTester { workspace_warning: Some(r->Err_0), ..*old(self) }),
            old(self).workspace_writable && old(self).request_tabs_writable && saved is Ok ==> r is Ok
                && final(self).last_persisted_request_tabs@ == candidate_request_tabs@
                && *final(self) == (ApiTester {
                workspace: candidate_workspace,
                workspace_version: old(self).workspace_version.wrapping_add(1),
                workspace_warning: None,
                request_tabs_warning: None,
                request_tabs: candidate_request_tabs,
                last_persisted_request_tabs: final(self).last_persisted_request_tabs,
                ..*old(self)
            }),
            old(self).workspace_writable && old(self).request_tabs_writable && saved is Err ==> r is Err
                && r->Err_0@ == "Workspace and request tabs could not be saved: "@ + saved->Err_0@
                && *final(self) == (ApiTester {
                workspace_warning: Some(r->Err_0),
                request_tabs_warning: Some(r->Err_0),
                ..*old(self)
            }),
    {
        if !self.workspace_writable {
            return Err(owned("This workspace is read-only."));
        }
        if !self.request_tabs_writable {
            let r = self.commit_workspace(candidate_workspace, saved);
            if r.is_err() {
                return r;
            }
            self.request_tabs = candidate_request_tabs;
            return Ok(());
        }
        match saved {
            Ok(()) => {
                self.replace_workspace(candidate_workspace);
                self.last_persisted_request_tabs = candidate_request_tabs.clone();
                self.request_tabs = candidate_request_tabs;
                self.workspace_warning = None;
                self.request_tabs_warning = None;
                Ok(())
            },
            Err(error) => {
                let mut message = owned("Workspace and request tabs could not be saved: ");
                push_str(&mut message, error.as_str());
                self.workspace_warning = Some(message.clone());
                self.request_tabs_warning = Some(message.clone());
                Err(message)
            },
        }
    }
}

impl ApiTester {
    /// Asks for the history to be saved. While a clear is pending the save
    /// is deferred; a read-only history keeps (or gets) its warning;
    /// otherwise a new save generation starts and is handed back, for the
    /// caller to write the history and report with `finish_history_save`.
    #[verifier::spinoff_prover]
    pub fn persist_history(&mut self) -> (generation: Option<u64>)
        ensures
            *final(self) == (ApiTester {
                persistence_io: final(self).persistence_io,
                history_warning: final(self).history_warning,
                ..*old(self)
            }),
            old(self).persistence_io.history_clear_pending ==> generation is None
                && final(self).persistence_io == (PersistenceIoState { history_save_deferred: true, ..old(self).persistence_io })
                && final(self).history_warning == old(self).history_warning,
            !old(self).persistence_io.history_clear_pending && !old(self).history_writable ==> generation is None
                && final(self).persistence_io == old(self).persistence_io
                && final(self).history_warning is Some
                && (old(self).history_warning is Some ==> final(self).history_warning == old(self).history_warning)
                && (old(self).history_warning is None ==> final(self).history_warning->0@
                == "History is read-only because it could not be loaded safely."@),
            !old(self).persistence_io.history_clear_pending && old(self).history_writable ==> generation == Some(
                old(self).persistence_io.history_generation.wrapping_add(1),
            ) && final(self).history_warning == old(self).history_warning
                && final(self).persistence_io == (PersistenceIoState {
                history_generation: old(self).persistence_io.history_generation.wrapping_add(1),
                history_pending: true,
                ..old(self).persistence_io
            }),
    {
        let (io, generation) = plan_history_save(self.persistence_io, self.history_writable, &mut self.history_warning);
        self.persistence_io = io;
        generation
    }

    /// Records the outcome of a history save; the outcome of an older
    /// generation than the latest is ignored.
    pub fn finish_history_save(&mut self, generation: u64, result: Result<(), String>)
        ensures
            generation != old(self).persistence_io.history_generation ==> *final(self) == *old(self),
            generation == old(self).persistence_io.history_generation ==> *final(self) == (ApiTester {
                persistence_io: PersistenceIoState {
                    history_pending: false,
                    history_failed: result is Err,
                    ..old(self).persistence_io
                },
                history_warning: match result {
                    Ok(()) => None,
                    Err(e) => Some(e),
                },
                ..*old(self)
            }),
    {
        if self.persistence_io.history_generation != generation {
            return;
        }
        self.persistence_io.history_pending = false;
        self.persistence_io.history_failed = result.is_err();
        self.history_warning = match result {
            Ok(()) => None,
            Err(error) => Some(error),
        };
    }
}

} // verus!
