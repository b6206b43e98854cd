//! The doors out of the library that the code here walks through itself.
//!
//! Each is a trait its users implement over the outside world: an agent
//! harness, the set of harnesses, a persistent interpreter, the operating
//! system's processes. Nothing is promised of what they answer, so what is
//! built on them here is verified for every answer they can give.
use vstd::prelude::*;

use crate::compaction::CompactionPlan;
use crate::error::Result;
use crate::heartbeat::DeliveryMode;
use crate::kernel::{vars_by_size, vars_sorted, ExecOutcome, ExecRequest, KernelLanguage, KernelStatus, VarSummary};
use crate::runner::{RunOutcome, RunRequest, RunnerCapabilities};
use crate::session::{reconcile, reconciliation, Session};
use crate::summariser::{chosen_summary, model_prompt, outline, summarisable, summary_prompt, OutlineSummariser};
use crate::supervisor::{delivery_request, is_delivery_request};
use crate::transcript::TranscriptRecord;
use crate::text::trim;

verus! {

/// A harness that can run an agent turn.
///
/// The spec functions of these traits name what an implementation answers:
/// each call's answer is one of them. By default every answer is possible; an
/// implementation may narrow that by defining them itself. The code built on a
/// port relies on no more than that, so it is verified for every answer an
/// implementation can give.
pub trait AgentRunner {
    /// `outcome` is an answer the harness gives when asked to run `request`.
    open spec fn ran(&self, request: RunRequest, outcome: Result<RunOutcome>) -> bool {
        true
    }

    /// `answer` is an answer the harness gives when probed.
    open spec fn probed(&self, answer: Result<()>) -> bool {
        true
    }

    fn capabilities(&self) -> RunnerCapabilities;

    fn run(&self, request: &RunRequest) -> (r: Result<RunOutcome>)
        ensures
            self.ran(*request, r),
    ;

    /// Is the underlying command actually installed and usable?
    fn probe(&self) -> (r: Result<()>)
        ensures
            self.probed(r),
    ;
}

/// Resolves the harness a particular session belongs to. A session records
/// which harness started it, and a later turn must go back to that same one.
pub trait RunnerRegistry {
    type Runner: AgentRunner;

    /// `answer` is an answer the registry gives when asked for the harness
    /// called `name`.
    open spec fn resolved(&self, name: Seq<char>, answer: Result<Self::Runner>) -> bool {
        true
    }

    fn get(&self, name: &str) -> (r: Result<&Self::Runner>)
        ensures
            self.resolved(
                name@,
                match r {
                    Ok(x) => Ok(*x),
                    Err(e) => Err(e),
                },
            ),
    ;

    /// The harness used when a session does not name one.
    fn default_name(&self) -> String;
}

/// The persistent namespace.
pub trait KernelPort {
    /// `answer` is an answer the kernel gives when asked for the variables of
    /// `session_id`.
    open spec fn reported(&self, session_id: Seq<char>, answer: Result<Vec<VarSummary>>) -> bool {
        true
    }

    fn language(&self) -> KernelLanguage;

    fn status(&self, session_id: &str) -> Result<KernelStatus>;

    /// Starts the process if it is not running. Kernels are lazy by design:
    /// a session that never executes code never pays for an interpreter.
    fn ensure(&self, session_id: &str) -> Result<KernelStatus>;

    fn execute(&self, request: &ExecRequest) -> Result<ExecOutcome>;

    /// Names and shapes, never values.
    fn vars(&self, session_id: &str) -> (r: Result<Vec<VarSummary>>)
        ensures
            self.reported(session_id@, r),
    ;

    /// Empties the namespace, keeps the process.
    fn reset(&self, session_id: &str) -> Result<()>;

    fn shutdown(&self, session_id: &str) -> Result<()>;

    /// Writes the namespace out so a restarted worker can revive it.
    fn snapshot(&self, session_id: &str) -> Result<Option<String>>;

    fn restore(&self, session_id: &str) -> Result<bool>;
}

/// Process supervision, for the daemon commands.
pub trait ProcessSupervisor {
    /// `alive` is an answer the process table gives when asked whether `pid`
    /// is alive.
    open spec fn answered(&self, pid: u32, alive: bool) -> bool {
        true
    }

    fn is_alive(&self, pid: u32) -> (r: bool)
        ensures
            self.answered(pid, r),
    ;

    fn terminate(&self, pid: u32, force: bool) -> Result<()>;

    fn current_pid(&self) -> u32;
}

/// `r` is what delivering `prompt` to `session` can come to: the registry's
/// refusal to name the session's own harness, or what that harness answered
/// when asked to run the delivery turn.
pub open spec fn delivered<G: RunnerRegistry>(
    runners: G,
    session: Session,
    prompt: Seq<char>,
    mode: DeliveryMode,
    r: Result<RunOutcome>,
) -> bool {
    ||| (r matches Err(e) && runners.resolved(session.runner@, Err(e)))
    ||| exists|x: G::Runner, q: RunRequest|
        #![trigger x.ran(q, r)]
        runners.resolved(session.runner@, Ok(x)) && is_delivery_request(session, prompt, mode, q)
            && x.ran(q, r)
}

/// Delivers `prompt` to `session` through the session's own harness, never
/// whichever one the caller happens to hold: a conversation started under one
/// harness cannot be continued under another. A blank prompt is refused
/// before any harness is asked.
pub fn deliver<G: RunnerRegistry>(
    runners: &G,
    session: &Session,
    prompt: &str,
    mode: DeliveryMode,
) -> (r: Result<RunOutcome>)
    ensures
        trim(prompt@).len() == 0 ==> (r matches Err(e) && e is Invalid),
        trim(prompt@).len() > 0 ==> delivered(*runners, *session, prompt@, mode, r),
{
    let request = delivery_request(session, prompt, mode)?;
    let runner = runners.get(session.runner.as_str())?;
    let outcome = runner.run(&request);
    assert(runners.resolved(session.runner@, Ok(*runner)));
    outcome
}

/// `text` is a summary the harness wrote for `records`: the non-blank reply
/// of a run that went well, asked with the summary prompt over the outline,
/// for the plan's session, under `model` and in `workdir`.
pub open spec fn summarised_by<R: AgentRunner>(
    runner: R,
    plan: CompactionPlan,
    records: Seq<TranscriptRecord>,
    workdir: Seq<char>,
    model: Option<String>,
    text: Seq<char>,
) -> bool {
    exists|q: RunRequest, run: RunOutcome|
        #![trigger runner.ran(q, Ok(run))]
        runner.ran(q, Ok(run)) && run.ok && trim(run.text@).len() > 0 && text == run.text@
            && q.session_id@ == plan.session_id@ && q.prompt@ == trim(
            summary_prompt(plan, outline(plan, records)),
        ) && q.model == model && q.workdir@ == workdir
}

/// The harness answered its probe with success.
pub open spec fn probe_passed<R: AgentRunner>(runner: R) -> bool {
    exists|a: Result<()>| a is Ok && #[trigger] runner.probed(a)
}

/// A compaction summary written by a harness. Nothing is asked when there is
/// nothing to summarise, a harness that fails its probe is not asked, and a
/// reply that failed or said nothing leaves the outline the transcript gives
/// by itself: a model that cannot answer never turns a compaction into an
/// error. What the harness replies is its own; the function holds for every
/// reply.
pub fn agent_summary<R: AgentRunner>(
    runner: &R,
    plan: &CompactionPlan,
    records: &Vec<TranscriptRecord>,
    workdir: &str,
    model: Option<String>,
) -> (r: String)
    requires
        summarisable(records@),
    ensures
        records@.len() == 0 ==> r@.len() == 0,
        r@ == outline(*plan, records@) || (probe_passed(*runner) && summarised_by(
            *runner,
            *plan,
            records@,
            workdir@,
            model,
            r@,
        )),
{
    let outline_text = OutlineSummariser.summarise(plan, records);
    if records.len() == 0 {
        return outline_text;
    }
    let probe = runner.probe();
    if probe.is_err() {
        return outline_text;
    }
    assert(runner.probed(probe));
    let prompt = model_prompt(plan, outline_text.as_str());
    let outcome = match RunRequest::new(plan.session_id.as_str(), prompt.as_str(), workdir) {
        Ok(request) => {
            let asked = request.with_model(model);
            match runner.run(&asked) {
                Ok(run) => {
                    assert(runner.ran(asked, Ok(run)));
                    Some(run)
                },
                Err(_) => None,
            }
        },
        Err(_) => None,
    };
    chosen_summary(outline_text, outcome)
}

/// A kernel's variables, biggest first, because the reason anybody lists
/// them is to find out what is eating memory: what the kernel reported for
/// the session, in that order, or the kernel's own error.
pub fn kernel_vars<K: KernelPort>(kernel: &K, session_id: &str) -> (r: Result<Vec<VarSummary>>)
    ensures
        match r {
            Ok(listed) => exists|reported: Vec<VarSummary>|
                #[trigger] kernel.reported(session_id@, Ok(reported)) && listed@ == vars_sorted(reported@),
            Err(e) => kernel.reported(session_id@, Err(e)),
        },
{
    let vars = kernel.vars(session_id)?;
    let ghost reported = vars;
    let listed = vars_by_size(vars);
    assert(kernel.reported(session_id@, Ok(reported)));
    Ok(listed)
}

/// `session` as reconciling it leaves it, when its worker's liveness is
/// `alive`: corrected where the record was wrong, untouched otherwise.
pub open spec fn reconciled(session: Session, alive: bool, now: i64) -> Session {
    match reconciliation(session, alive, now) {
        Some((fixed, _)) => fixed,
        None => session,
    }
}

/// Every session of `before` reconciled, the `i`-th against `alive[i]`.
pub open spec fn reconciled_all(before: Seq<Session>, alive: Seq<bool>, now: i64) -> Seq<Session> {
    Seq::new(before.len(), |i: int| reconciled(before[i], alive[i], now))
}

/// The corrections reconciling `before` against `alive` reports, in order:
/// the position of each session that was wrong, with its note.
pub open spec fn corrections(before: Seq<Session>, alive: Seq<bool>, now: i64) -> Seq<(int, Seq<char>)>
    decreases before.len(),
{
    if before.len() == 0 || alive.len() == 0 {
        Seq::empty()
    } else {
        let earlier = corrections(before.drop_last(), alive.drop_last(), now);
        match reconciliation(before.last(), alive.last(), now) {
            Some((_, note)) => earlier.push((before.len() - 1, note)),
            None => earlier,
        }
    }
}

/// A list of corrections read as positions and texts.
pub open spec fn correction_views(v: Seq<(usize, String)>) -> Seq<(int, Seq<char>)> {
    v.map_values(|p: (usize, String)| (p.0 as int, p.1@))
}

/// Each answer in `alive` is the process table's, for the worker of the
/// session in the same place; a session with no worker has none alive.
pub open spec fn asked<P: ProcessSupervisor>(supervisor: P, sessions: Seq<Session>, alive: Seq<bool>) -> bool {
    forall|i: int|
        0 <= i < sessions.len() ==> match (#[trigger] sessions[i]).pid {
            Some(p) => supervisor.answered(p, alive[i]),
            None => !alive[i],
        }
}

/// Reconciles every session against the workers that are actually alive:
/// a session marked running with no worker is idle again, and one whose
/// worker is gone has failed. Returns the position of each session
/// corrected, in order, with what was done. Whether a worker is alive is the
/// process table's answer; for every set of answers it can give, each
/// session is reconciled against its own, and exactly the corrections made
/// are reported.
pub fn reconcile_all<P: ProcessSupervisor>(sessions: &mut Vec<Session>, supervisor: &P, now: i64) -> (r:
    Vec<(usize, String)>)
    ensures
        exists|alive: Seq<bool>|
            alive.len() == old(sessions)@.len() && #[trigger] reconciled_all(old(sessions)@, alive, now)
                == final(sessions)@ && correction_views(r@) == corrections(old(sessions)@, alive, now)
                && asked(*supervisor, old(sessions)@, alive),
{
    let mut fixes: Vec<(usize, String)> = Vec::new();
    let mut i: usize = 0;
    let ghost before = sessions@;
    let ghost mut answers: Seq<bool> = Seq::empty();
    while i < sessions.len()
        invariant
            i <= sessions@.len(),
            sessions@.len() == before.len(),
            before == old(sessions)@,
            answers.len() == i,
            asked(*supervisor, before.take(i as int), answers),
            forall|k: int| i <= k < before.len() ==> #[trigger] sessions@[k] == before[k],
            forall|k: int| 0 <= k < i ==> #[trigger] sessions@[k] == reconciled(before[k], answers[k], now),
            correction_views(fixes@) == corrections(before.take(i as int), answers, now),
        decreases before.len() - i,
    {
        let alive = match sessions[i].pid {
            Some(pid) => supervisor.is_alive(pid),
            None => false,
        };
        let mut s = sessions[i].duplicate();
        let note = reconcile(&mut s, alive, now);
        let ghost prev = fixes@;
        proof {
            assert(before.take(i + 1).drop_last() =~= before.take(i as int));
            assert(answers.push(alive).drop_last() =~= answers);
            assert(before.take(i + 1).last() == before[i as int]);
        }
        match note {
            Some(n) => {
                sessions.set(i, s);
                fixes.push((i, n));
                assert(correction_views(fixes@) =~= correction_views(prev).push((i as int, n@)));
            },
            None => {},
        }
        proof {
            let ghost prior = answers;
            answers = answers.push(alive);
            assert forall|k: int| 0 <= k < i + 1 implies match (#[trigger] before.take(i + 1)[k]).pid {
                Some(p) => supervisor.answered(p, answers[k]),
                None => !answers[k],
            } by {
                if k < i {
                    assert(before.take(i + 1)[k] == before.take(i as int)[k]);
                    assert(answers[k] == prior[k]);
                }
            }
        }
        i += 1;
    }
    proof {
        assert(before.take(before.len() as int) =~= before);
        assert(reconciled_all(before, answers, now) =~= sessions@);
    }
    fixes
}

} // verus!
