//! The tick that makes everything else move.
//!
//! Heartbeats, schedules, goals and autonomous continuations are all just
//! "something should re-enter this session now". A tick decides what is due,
//! delivers it through the session's own runner, and folds the resulting
//! cost back into every budget that is watching. The decisions are here; the
//! caller reads the stores and runs the turns.
use vstd::prelude::*;

use crate::error::{DomainError, Result};
use crate::goal::{continuation_prompt, goal_prompt, Goal};
use crate::heartbeat::DeliveryMode;
use crate::runner::{RunOutcome, RunRequest, DEFAULT_RUN_TIMEOUT_SECS};
use crate::schedule::{rescheduled, same_job, JobStatus, ScheduledJob};
use crate::session::{Session, Usage};
use crate::time::in_calendar;
use crate::text::{owned, trim};

verus! {

/// One thing the supervisor did.
#[derive(Debug, Clone, PartialEq, Eq)]
pub struct Delivery {
    pub kind: &'static str,
    pub session: String,
    pub prompt: String,
    pub ok: bool,
    pub detail: Option<String>,
}

#[derive(Debug, Clone, PartialEq, Eq)]
pub struct TickReport {
    pub deliveries: Vec<Delivery>,
}

/// How many deliveries failed.
pub open spec fn failed_count(ds: Seq<Delivery>) -> nat
    decreases ds.len(),
{
    if ds.len() == 0 {
        0
    } else {
        failed_count(ds.drop_last()) + if ds.last().ok {
            0nat
        } else {
            1nat
        }
    }
}

impl Default for TickReport {
    fn default() -> (r: Self)
        ensures
            r.deliveries@.len() == 0,
    {
        TickReport { deliveries: Vec::new() }
    }
}

impl TickReport {
    /// Nothing was due.
    pub fn is_quiet(&self) -> (r: bool)
        ensures
            r == (self.deliveries@.len() == 0),
    {
        self.deliveries.len() == 0
    }

    pub fn failures(&self) -> (r: usize)
        ensures
            r == failed_count(self.deliveries@),
    {
        let mut n: usize = 0;
        let mut i: usize = 0;
        while i < self.deliveries.len()
            invariant
                i <= self.deliveries@.len(),
                n == failed_count(self.deliveries@.take(i as int)),
                n <= i,
            decreases self.deliveries@.len() - i,
        {
            assert(self.deliveries@.take(i + 1).drop_last() =~= self.deliveries@.take(i as int));
            if !self.deliveries[i].ok {
                n += 1;
            }
            i += 1;
        }
        assert(self.deliveries@.take(i as int) =~= self.deliveries@);
        n
    }
}

/// `q` is the turn that delivers `prompt` to `session`: the prompt trimmed
/// and not blank, under the session's own model, in its own workdir.
pub open spec fn is_delivery_request(session: Session, prompt: Seq<char>, mode: DeliveryMode, q: RunRequest) -> bool {
    &&& trim(prompt).len() > 0
    &&& q.session_id@ == session.id@
    &&& q.runner_session is None
    &&& q.prompt@ == trim(prompt)
    &&& q.system_prompt is None
    &&& q.model == session.model
    &&& q.workdir@ == session.workdir@
    &&& q.delivery == mode
    &&& q.timeout_secs == DEFAULT_RUN_TIMEOUT_SECS
    &&& !q.detached
}

/// The turn that delivers `prompt` to `session`: under the session's own
/// model and in its own workdir. A conversation started under one runner
/// cannot be continued under another, so the caller runs it with
/// `session.runner`.
pub fn delivery_request(session: &Session, prompt: &str, mode: DeliveryMode) -> (r: Result<
    RunRequest,
>)
    ensures
        match r {
            Ok(q) => is_delivery_request(*session, prompt@, mode, q),
            Err(e) => trim(prompt@).len() == 0 && e is Invalid,
        },
{
    let request = RunRequest::new(session.id.as_str(), prompt, session.workdir.as_str())?;
    let mut request = request.with_model(session.model.clone());
    request.delivery = mode;
    Ok(request)
}

/// What a tick reports of one delivery: whether the run went well, and why
/// not when it did not, whether the run failed or could not be made at all.
pub open spec fn delivery_of(
    kind: Seq<char>,
    session_name: Seq<char>,
    prompt: Seq<char>,
    outcome: Result<RunOutcome>,
    d: Delivery,
) -> bool {
    &&& d.kind@ == kind
    &&& d.session@ == session_name
    &&& d.prompt@ == prompt
    &&& match outcome {
        Ok(run) => d.ok == run.ok && d.detail == run.error,
        Err(e) => !d.ok && (d.detail matches Some(m) && m@ == e.spec_message()),
    }
}

/// Records one delivery for the report.
pub fn recorded(
    kind: &'static str,
    session_name: &str,
    prompt: &str,
    outcome: &Result<RunOutcome>,
) -> (r: Delivery)
    ensures
        delivery_of(kind@, session_name@, prompt@, *outcome, r),
{
    match outcome {
        Ok(run) => Delivery {
            kind,
            session: owned(session_name),
            prompt: owned(prompt),
            ok: run.ok,
            detail: match &run.error {
                Some(e) => Some(e.clone()),
                None => None,
            },
        },
        Err(error) => Delivery {
            kind,
            session: owned(session_name),
            prompt: owned(prompt),
            ok: false,
            detail: Some(error.message()),
        },
    }
}

/// The cost a delivery folds into the budgets watching its session: a run
/// that went well is charged, a failed or impossible one is not.
pub open spec fn charge_of(outcome: Result<RunOutcome>) -> Option<Usage> {
    match outcome {
        Ok(run) => if run.ok {
            Some(run.usage)
        } else {
            None
        },
        Err(_) => None,
    }
}

pub fn charge(outcome: &Result<RunOutcome>) -> (r: Option<Usage>)
    ensures
        r == charge_of(*outcome),
{
    match outcome {
        Ok(run) => if run.ok {
            Some(run.usage)
        } else {
            None
        },
        Err(_) => None,
    }
}

/// Folds a run's usage into its session.
pub fn charged(session: &mut Session, usage: &Usage, now: i64)
    requires
        old(session).usage.can_absorb(*usage),
    ensures
        *final(session) == (Session {
            usage: old(session).usage.spec_absorb(*usage),
            updated_at: now,
            ..*old(session)
        }),
{
    session.usage.absorb(usage);
    session.updated_at = now;
}

/// Why a claimed scheduled tick failed, or `None` when it went through: a
/// run that failed gives its own error (or "run failed"), a run that could
/// not be made gives the error that stopped it.
pub open spec fn tick_failure(outcome: Result<RunOutcome>) -> Option<Seq<char>> {
    match outcome {
        Ok(run) => if run.ok {
            None
        } else {
            match run.error {
                Some(e) => Some(e@),
                None => Some("run failed"@),
            }
        },
        Err(e) => Some(e.spec_message()),
    }
}

pub fn schedule_failure(outcome: &Result<RunOutcome>) -> (r: Option<String>)
    ensures
        match r {
            Some(m) => tick_failure(*outcome) == Some(m@),
            None => tick_failure(*outcome) is None,
        },
{
    match outcome {
        Ok(run) => if run.ok {
            None
        } else {
            match &run.error {
                Some(e) => Some(e.clone()),
                None => Some(owned("run failed")),
            }
        },
        Err(e) => Some(e.message()),
    }
}

/// Settles a claimed tick by how its delivery went: a run that went well
/// completes the tick, and anything else fails it with the reason
/// `schedule_failure` gives. Either way a recurring job is requeued for its
/// next firing and a one-time job ends.
pub fn finish_tick(job: &mut ScheduledJob, outcome: &Result<RunOutcome>, now: i64)
    requires
        old(job).run_count < u64::MAX,
        old(job).spec is Cron ==> in_calendar(now as int),
    ensures
        same_job(*old(job), *final(job)),
        final(job).last_tick == old(job).last_tick,
        match tick_failure(*outcome) {
            None => {
                &&& final(job).run_count == old(job).run_count + 1
                &&& final(job).last_error is None
                &&& rescheduled(*old(job), *final(job), now as int, JobStatus::Completed)
            },
            Some(reason) => {
                &&& final(job).run_count == old(job).run_count
                &&& final(job).last_error matches Some(e) && e@ == reason
                &&& rescheduled(*old(job), *final(job), now as int, JobStatus::Failed)
            },
        },
{
    match schedule_failure(outcome) {
        None => job.complete_tick(now),
        Some(reason) => job.fail_tick(reason.as_str(), now),
    }
}

/// A scheduled job whose target could not be found: a failed delivery,
/// reported under the name the job was stored with.
pub fn unreachable_target(target: &str, prompt: &str, error: &DomainError) -> (r: Delivery)
    ensures
        r.kind@ == "schedule"@,
        r.session@ == target@,
        r.prompt@ == prompt@,
        !r.ok,
        r.detail matches Some(m) && m@ == error.spec_message(),
{
    Delivery {
        kind: "schedule",
        session: owned(target),
        prompt: owned(prompt),
        ok: false,
        detail: Some(error.message()),
    }
}

/// The prompt that continues `goal` this tick, if any. When autonomous mode
/// is on for the session, its step has the final say (`autonomy_allows`): a
/// goal is an objective, the policy is what decides whether there is budget
/// left to pursue it.
pub fn goal_continuation(goal: &Goal, autonomy_allows: bool) -> (r: Option<String>)
    ensures
        match r {
            Some(p) => autonomy_allows && goal_prompt(*goal) == Some(p@),
            None => !autonomy_allows || goal_prompt(*goal) is None,
        },
{
    if !autonomy_allows {
        return None;
    }
    continuation_prompt(goal)
}

/// A failed delivery is never charged: only a run that went well costs its
/// session anything.
pub proof fn lemma_failures_are_not_charged(outcome: Result<RunOutcome>, d: Delivery)
    requires
        delivery_of(d.kind@, d.session@, d.prompt@, outcome, d),
        !d.ok,
    ensures
        charge_of(outcome) is None,
        tick_failure(outcome) is Some,
{
}

} // verus!
