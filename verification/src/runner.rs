//! What it means to actually run an agent turn.
//!
//! This is the seam that makes the whole tool harness-agnostic: every agent
//! harness is an adapter behind one interface, and nothing above it knows
//! which one is in use.
use vstd::prelude::*;

use crate::error::{DomainError, Result};
use crate::heartbeat::DeliveryMode;
use crate::session::Usage;
use crate::text::{owned, string_of, trim, trimmed};

verus! {

pub const DEFAULT_RUN_TIMEOUT_SECS: u64 = 900;

/// One turn to run.
#[derive(Debug, Clone, PartialEq, Eq)]
pub struct RunRequest {
    pub session_id: String,
    /// The runner's own session handle, when it has one, so a follow-up turn
    /// continues the same conversation instead of starting a new one.
    pub runner_session: Option<String>,
    pub prompt: String,
    pub system_prompt: Option<String>,
    pub model: Option<String>,
    pub workdir: String,
    /// How this prompt relates to work already in flight.
    pub delivery: DeliveryMode,
    pub timeout_secs: u64,
    /// Run without waiting; the process is detached and reports later.
    pub detached: bool,
}

impl RunRequest {
    pub fn new(session_id: &str, prompt: &str, workdir: &str) -> (r: Result<RunRequest>)
        ensures
            match r {
                Ok(q) => {
                    &&& trim(prompt@).len() > 0
                    &&& q.session_id@ == session_id@
                    &&& q.runner_session is None
                    &&& q.prompt@ == trim(prompt@)
                    &&& q.system_prompt is None
                    &&& q.model is None
                    &&& q.workdir@ == workdir@
                    &&& q.delivery is Auto
                    &&& q.timeout_secs == DEFAULT_RUN_TIMEOUT_SECS
                    &&& !q.detached
                },
                Err(e) => trim(prompt@).len() == 0 && e is Invalid,
            },
    {
        let p = trimmed(prompt);
        if p.len() == 0 {
            return Err(DomainError::invalid("a run needs a prompt"));
        }
        Ok(RunRequest {
            session_id: owned(session_id),
            runner_session: None,
            prompt: string_of(p.as_slice()),
            system_prompt: None,
            model: None,
            workdir: owned(workdir),
            delivery: DeliveryMode::Auto,
            timeout_secs: DEFAULT_RUN_TIMEOUT_SECS,
            detached: false,
        })
    }

    pub fn with_model(self, model: Option<String>) -> (r: RunRequest)
        ensures
            r == (RunRequest { model, ..self }),
    {
        let mut r = self;
        r.model = model;
        r
    }

    pub fn with_system_prompt(self, prompt: Option<String>) -> (r: RunRequest)
        ensures
            r == (RunRequest { system_prompt: prompt, ..self }),
    {
        let mut r = self;
        r.system_prompt = prompt;
        r
    }

    pub fn detached(self) -> (r: RunRequest)
        ensures
            r == (RunRequest { detached: true, ..self }),
    {
        let mut r = self;
        r.detached = true;
        r
    }
}

#[derive(Debug, Clone, PartialEq, Eq)]
pub struct RunOutcome {
    pub ok: bool,
    pub text: String,
    pub usage: Usage,
    pub runner_session: Option<String>,
    pub exit_code: Option<i32>,
    pub error: Option<String>,
    /// Set when the run was launched detached; there is no text yet.
    pub pid: Option<u32>,
    pub duration_ms: u64,
}

impl RunOutcome {
    pub fn detached(pid: u32) -> (r: RunOutcome)
        ensures
            r.ok,
            r.text@.len() == 0,
            r.usage == Usage::spec_zero(),
            r.runner_session is None,
            r.exit_code is None,
            r.error is None,
            r.pid == Some(pid),
            r.duration_ms == 0,
    {
        RunOutcome {
            ok: true,
            text: String::new(),
            usage: Usage::default(),
            runner_session: None,
            exit_code: None,
            error: None,
            pid: Some(pid),
            duration_ms: 0,
        }
    }

    pub fn failure(error: &str, exit_code: Option<i32>) -> (r: RunOutcome)
        ensures
            !r.ok,
            r.text@.len() == 0,
            r.usage == Usage::spec_zero(),
            r.runner_session is None,
            r.exit_code == exit_code,
            r.error matches Some(e) && e@ == error@,
            r.pid is None,
            r.duration_ms == 0,
    {
        RunOutcome {
            ok: false,
            text: String::new(),
            usage: Usage::default(),
            runner_session: None,
            exit_code,
            error: Some(owned(error)),
            pid: None,
            duration_ms: 0,
        }
    }
}

/// What a particular harness can do. Reported rather than assumed, so a use
/// case can degrade honestly: if a runner cannot resume a session, a
/// heartbeat says "starting a fresh turn" instead of silently losing the
/// thread.
#[derive(Debug, Clone, PartialEq, Eq)]
pub struct RunnerCapabilities {
    pub name: String,
    pub can_resume: bool,
    pub can_stream: bool,
    pub reports_usage: bool,
    pub supports_system_prompt: bool,
    pub supports_model_selection: bool,
}

} // verus!
