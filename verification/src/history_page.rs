use vstd::prelude::*;

use crate::api_tester::ApiTester;
use crate::text::{owned, push_str};

verus! {

/// A deletion that waits for a second click to confirm it.
#[derive(Clone, Copy, Debug, PartialEq, Eq, Structural)]
pub enum PendingDelete {
    History,
}

impl ApiTester {
    /// The second click on the same deletion confirms it; any other click
    /// arms that deletion and waits.
    pub fn confirm_delete(&mut self, target: PendingDelete) -> (confirmed: bool)
        ensures
            confirmed == (old(self).pending_delete == Some(target)),
            final(self).pending_delete == (if confirmed {
                None
            } else {
                Some(target)
            }),
            *final(self) == (ApiTester { pending_delete: final(self).pending_delete, ..*old(self) }),
    {
        if self.pending_delete == Some(target) {
            self.pending_delete = None;
            true
        } else {
            self.pending_delete = Some(target);
            false
        }
    }
}

impl ApiTester {
    /// The first step of clearing the history: refused with a warning when
    /// the history is read-only; otherwise the first click arms the deletion
    /// and the second confirms it. Reports whether the caller is now to save
    /// an empty history and hand the outcome to `finish_clear_history`.
    pub fn clear_history(&mut self) -> (save_empty: bool)
        ensures
            !old(self).history_writable ==> !save_empty && final(self).history_warning is Some
                && final(self).history_warning->0@
                == "History was not cleared because the database is read-only for this session."@
                && *final(self) == (ApiTester { history_warning: final(self).history_warning, ..*old(self) }),
            old(self).history_writable ==> save_empty == (old(self).pending_delete == Some(PendingDelete::History))
                && final(self).pending_delete == (if save_empty {
                None
            } else {
                Some(PendingDelete::History)
            }) && *final(self) == (ApiTester { pending_delete: final(self).pending_delete, ..*old(self) }),
    {
        if !self.history_writable {
            self.history_warning = Some(
                owned("History was not cleared because the database is read-only for this session."),
            );
            return false;
        }
        self.confirm_delete(PendingDelete::History)
    }

    /// The second step of clearing the history: reports whether the empty
    /// history was saved (and so is the history now); a failure is kept as
    /// the history warning.
    pub fn finish_clear_history(&mut self, saved: Result<(), String>) -> (cleared: bool)
        ensures
            cleared == saved is Ok,
            saved is Ok ==> final(self).history_warning is None,
            saved is Err ==> final(self).history_warning is Some && final(self).history_warning->0@
                == "History could not be cleared: "@ + saved->Err_0@,
            *final(self) == (ApiTester { history_warning: final(self).history_warning, ..*old(self) }),
    {
        match saved {
            Ok(()) => {
                self.history_warning = None;
                true
            },
            Err(error) => {
                let mut message = owned("History could not be cleared: ");
                push_str(&mut message, error.as_str());
                self.history_warning = Some(message);
                false
            },
        }
    }
}

} // verus!
