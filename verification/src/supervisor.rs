//! The restart policy of the top-level process loop.
//!
//! The supervisor runs the orchestrator repeatedly. A clean return restarts
//! it at once. A fatal error long after the previous one counts as an
//! isolated incident: back off, then restart with the error flag cleared. A
//! second fatal error within the recovery window is unrecoverable and the
//! process terminates. The clock and the waiting live outside this crate;
//! the caller reports how long ago the previous fatal error happened.

use vstd::prelude::*;

verus! {

/// A fatal error within this many seconds of the previous one is
/// unrecoverable.
pub const RECOVERY_WINDOW_SECS: u64 = 60;

/// How long to wait before restarting after an isolated fatal error.
pub const BACKOFF_SECS: u64 = 30;

/// How one supervised run ended.
#[derive(Clone, Copy, PartialEq, Eq, Structural, Debug)]
pub enum RunOutcome {
    /// The run returned cleanly (for instance on a restart request).
    Clean,
    /// The run ended with a fatal error.
    Fatal,
}

/// What the process loop must do next.
#[derive(Clone, Copy, PartialEq, Eq, Structural, Debug)]
pub enum Directive {
    /// Start the next run immediately.
    RestartNow,
    /// Wait [`BACKOFF_SECS`] seconds, then start the next run; the caller
    /// also resets its fatal-error clock.
    BackoffRestart,
    /// The process is in an unrecoverable state: terminate abnormally.
    Terminate,
}

/// The supervisor's state: whether the previous run within the recovery
/// window already ended fatally.
pub struct Supervisor {
    errored: bool,
}

impl Supervisor {
    /// Whether a fatal error is pending within the recovery window.
    pub closed spec fn errored(&self) -> bool {
        self.errored
    }

    /// A fresh supervisor with no error pending.
    pub fn new() -> (s: Supervisor)
        ensures
            !s.errored(),
    {
        Supervisor { errored: false }
    }

    /// Decides what follows one run. A clean end always restarts at once
    /// and clears the error flag. A fatal end more than
    /// [`RECOVERY_WINDOW_SECS`] seconds after the previous fatal error is
    /// an isolated incident: back off and restart, flag cleared. A fatal
    /// end within the window terminates the process if the flag was
    /// already set, and otherwise sets it and restarts at once.
    pub fn on_run_end(&mut self, outcome: RunOutcome, secs_since_last_fatal: u64) -> (d:
        Directive)
        ensures
            outcome == RunOutcome::Clean ==> d == Directive::RestartNow && !final(self).errored(),
            outcome == RunOutcome::Fatal && secs_since_last_fatal > RECOVERY_WINDOW_SECS ==> d
                == Directive::BackoffRestart && !final(self).errored(),
            outcome == RunOutcome::Fatal && secs_since_last_fatal <= RECOVERY_WINDOW_SECS && old(
                self,
            ).errored() ==> d == Directive::Terminate && final(self).errored(),
            outcome == RunOutcome::Fatal && secs_since_last_fatal <= RECOVERY_WINDOW_SECS && !old(
                self,
            ).errored() ==> d == Directive::RestartNow && final(self).errored(),
    {
        match outcome {
            RunOutcome::Clean => {
                self.errored = false;
                Directive::RestartNow
            },
            RunOutcome::Fatal => {
                if secs_since_last_fatal > RECOVERY_WINDOW_SECS {
                    self.errored = false;
                    Directive::BackoffRestart
                } else if self.errored {
                    Directive::Terminate
                } else {
                    self.errored = true;
                    Directive::RestartNow
                }
            },
        }
    }
}

} // verus!
