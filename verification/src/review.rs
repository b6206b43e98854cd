//! The review half of refining: reading a trajectory back and asking the
//! session's own model what, if anything, is worth keeping.
//!
//! A review only asks. Writing a lesson down is a separate, deliberate act
//! through the harness, where nothing is written without evidence.
use vstd::prelude::*;

use crate::error::{DomainError, Result};
use crate::harness::HarnessEntry;
use crate::ports::{AgentRunner, RunnerRegistry};
use crate::runner::{RunOutcome, RunRequest};
use crate::session::Session;
use crate::text::{glue, glue_onto, join2, owned, push_str, trim};
use crate::transcript::TranscriptRecord;

verus! {

/// How many transcript records a review looks back over by default.
pub const DEFAULT_WINDOW: usize = 40;

/// What the model is told first, before the trajectory.
pub const REVIEW_OPENING: &'static str = "You are reviewing an agent session's own trajectory to decide what, if anything, is worth remembering durably.\n\n## What already happened\n\n";

/// The heading between the trajectory and what the harness already holds.
pub const REVIEW_KNOWN_HEADING: &'static str = "\n\n## What the harness already holds\n\n";

/// What stands in for the harness when it holds nothing.
pub const REVIEW_EMPTY_HARNESS: &'static str = "(the harness is empty)";

/// The model's task: the four questions, and the form of the reply.
pub const REVIEW_TASK: &'static str = "\n\n## Your task\n\nPropose harness entries. For each candidate, satisfy all four:\n\n1. Is there real evidence? A correction the user had to give, a failure that would recur, an explicit preference. One unusual event is not a pattern.\n2. What is the smallest artifact? `memory` for a fact, `prompt-note` for a behavioural rule, `skill` for a reusable call's contract, `subagent` for a delegation role.\n3. What should improve, and how would you check? That is the outcome.\n4. Local or global? `local` means this project. `global` means a cross-project lesson \u{2014} rare, and worth a second thought.\n\nDo not propose anything the harness already holds. Do not propose anything you cannot point at a specific moment above to justify. Proposing nothing is a good answer and the common one.\n\nReply with a JSON array and nothing else:\n\n[{\"name\": \"kebab-case-slug\", \"kind\": \"memory|prompt-note|skill|subagent\", \"scope\": \"local|global\", \"body\": \"the lesson, one or two sentences\", \"evidence\": \"the specific moment above that justifies it\", \"outcome\": \"what should improve, and how to check\"}]\n\nReply with [] if nothing qualifies.";

/// The lines as a bulleted list, one per line.
pub open spec fn bullets(lines: Seq<Seq<char>>) -> Seq<char>
    decreases lines.len(),
{
    if lines.len() == 0 {
        Seq::empty()
    } else {
        glue(bullets(lines.drop_last()), "\n"@, "- "@ + lines.last())
    }
}

/// The log line of each record.
pub open spec fn trajectory_lines(records: Seq<TranscriptRecord>) -> Seq<Seq<char>> {
    Seq::new(records.len(), |i: int| records[i].event.spec_summary())
}

/// The headline of each entry.
pub open spec fn known_lines(known: Seq<HarnessEntry>) -> Seq<Seq<char>> {
    Seq::new(known.len(), |i: int| known[i].spec_headline())
}

/// Every record's counts fit, so each has a log line.
pub open spec fn readable(records: Seq<TranscriptRecord>) -> bool {
    forall|i: int| 0 <= i < records.len() ==> (#[trigger] records[i]).event.counts_fit()
}

/// The review prompt: the opening, the trajectory, what the harness
/// already holds (or a note that it holds nothing), then the task.
pub open spec fn review_prompt_text(records: Seq<TranscriptRecord>, known: Seq<HarnessEntry>) -> Seq<
    char,
> {
    REVIEW_OPENING@ + bullets(trajectory_lines(records)) + REVIEW_KNOWN_HEADING@ + (if known.len() == 0 {
        REVIEW_EMPTY_HARNESS@
    } else {
        bullets(known_lines(known))
    }) + REVIEW_TASK@
}

/// The trajectory as a bulleted list.
fn trajectory_text(records: &Vec<TranscriptRecord>) -> (r: String)
    requires
        readable(records@),
    ensures
        r@ == bullets(trajectory_lines(records@)),
{
    let mut out = String::new();
    let mut i: usize = 0;
    while i < records.len()
        invariant
            i <= records@.len(),
            readable(records@),
            out@ == bullets(trajectory_lines(records@.take(i as int))),
        decreases records@.len() - i,
    {
        let line = records[i].summary();
        let bullet = join2("- ", line.as_str());
        proof {
            assert(trajectory_lines(records@.take(i + 1)).drop_last() =~= trajectory_lines(
                records@.take(i as int),
            ));
            assert(trajectory_lines(records@.take(i + 1)).last() == records@[i as int].event.spec_summary());
        }
        glue_onto(&mut out, "\n", bullet.as_str());
        i += 1;
    }
    assert(records@.take(records@.len() as int) =~= records@);
    out
}

/// The harness's headlines as a bulleted list.
fn known_text(known: &Vec<HarnessEntry>) -> (r: String)
    ensures
        r@ == bullets(known_lines(known@)),
{
    let mut out = String::new();
    let mut i: usize = 0;
    while i < known.len()
        invariant
            i <= known@.len(),
            out@ == bullets(known_lines(known@.take(i as int))),
        decreases known@.len() - i,
    {
        let line = known[i].headline();
        let bullet = join2("- ", line.as_str());
        proof {
            assert(known_lines(known@.take(i + 1)).drop_last() =~= known_lines(known@.take(i as int)));
            assert(known_lines(known@.take(i + 1)).last() == known@[i as int].spec_headline());
        }
        glue_onto(&mut out, "\n", bullet.as_str());
        i += 1;
    }
    assert(known@.take(known@.len() as int) =~= known@);
    out
}

/// Builds the review prompt; see [`review_prompt_text`].
pub fn review_prompt(records: &Vec<TranscriptRecord>, known: &Vec<HarnessEntry>) -> (r: String)
    requires
        readable(records@),
    ensures
        r@ == review_prompt_text(records@, known@),
{
    let mut out = owned(REVIEW_OPENING);
    let trajectory = trajectory_text(records);
    push_str(&mut out, trajectory.as_str());
    push_str(&mut out, REVIEW_KNOWN_HEADING);
    if known.len() == 0 {
        push_str(&mut out, REVIEW_EMPTY_HARNESS);
    } else {
        let existing = known_text(known);
        push_str(&mut out, existing.as_str());
    }
    push_str(&mut out, REVIEW_TASK);
    out
}

/// Why a review run failed: its own error, or a plain note when it gave
/// none.
pub open spec fn review_failure(run: RunOutcome) -> Seq<char> {
    match run.error {
        Some(e) => e@,
        None => "the review run failed"@,
    }
}

/// What a review run comes to: its reply when the run went well, and an
/// adapter error carrying its failure otherwise. A failed review is
/// reported, never read as having nothing to say.
pub fn review_outcome(run: RunOutcome) -> (r: Result<String>)
    ensures
        run.ok ==> (r matches Ok(text) && text@ == run.text@),
        !run.ok ==> (r matches Err(DomainError::Adapter { context, detail }) && context@ == "review"@
            && detail@ == review_failure(run)),
{
    if run.ok {
        Ok(run.text)
    } else {
        match run.error {
            Some(e) => Err(DomainError::adapter("review", e.as_str())),
            None => Err(DomainError::adapter("review", "the review run failed")),
        }
    }
}

/// What a review saw, and the model's reply as it was written, kept
/// whole so that a reply that cannot be read can still be shown.
#[derive(Debug, Clone, PartialEq, Eq)]
pub struct ReviewReply {
    pub records_reviewed: usize,
    pub raw: String,
}

/// `q` is the turn that asks the session's own model for a review: the
/// review prompt, trimmed, for the session, under its model and in its
/// workdir.
pub open spec fn review_request(
    session: Session,
    records: Seq<TranscriptRecord>,
    known: Seq<HarnessEntry>,
    q: RunRequest,
) -> bool {
    &&& q.session_id@ == session.id@
    &&& q.prompt@ == trim(review_prompt_text(records, known))
    &&& q.model == session.model
    &&& q.workdir@ == session.workdir@
}

/// `r` is what reviewing a non-empty trajectory can come to: the registry's
/// refusal to name the session's own harness; or, from what that harness
/// answered when asked for the review, its error, its reply when the run went
/// well, or an adapter error carrying its failure.
pub open spec fn reviewed<G: RunnerRegistry>(
    runners: G,
    session: Session,
    records: Seq<TranscriptRecord>,
    known: Seq<HarnessEntry>,
    r: Result<ReviewReply>,
) -> bool {
    ||| (r matches Err(e) && trim(review_prompt_text(records, known)).len() == 0 && e is Invalid)
    ||| (r matches Err(e) && runners.resolved(session.runner@, Err(e)))
    ||| exists|x: G::Runner, q: RunRequest, outcome: Result<RunOutcome>|
        #![trigger x.ran(q, outcome)]
        runners.resolved(session.runner@, Ok(x)) && review_request(session, records, known, q) && x.ran(
            q,
            outcome,
        ) && match outcome {
            Err(e) => r == Err::<ReviewReply, DomainError>(e),
            Ok(run) => if run.ok {
                r matches Ok(reply) && reply.records_reviewed == records.len() && reply.raw@ == run.text@
            } else {
                r matches Err(DomainError::Adapter { context, detail }) && context@ == "review"@ && detail@
                    == review_failure(run)
            },
        }
}

/// Reviews the trajectory in `records` with the session's own model. An empty
/// trajectory asks no model: reviewing nothing reliably invents lessons. The
/// model is told the trajectory and what the harness already holds; what it
/// answers is its own.
pub fn review_reply<G: RunnerRegistry>(
    runners: &G,
    session: &Session,
    records: &Vec<TranscriptRecord>,
    known: &Vec<HarnessEntry>,
) -> (r: Result<ReviewReply>)
    requires
        readable(records@),
    ensures
        records@.len() == 0 ==> (r matches Ok(reply) && reply.records_reviewed == 0
            && reply.raw@.len() == 0),
        records@.len() > 0 ==> reviewed(*runners, *session, records@, known@, r),
{
    if records.len() == 0 {
        return Ok(ReviewReply { records_reviewed: 0, raw: String::new() });
    }
    let prompt = review_prompt(records, known);
    let request = RunRequest::new(session.id.as_str(), prompt.as_str(), session.workdir.as_str())?;
    let request = request.with_model(session.model.clone());
    let runner = runners.get(session.runner.as_str())?;
    let run = runner.run(&request);
    assert(runners.resolved(session.runner@, Ok(*runner)));
    assert(review_request(*session, records@, known@, request));
    match run {
        Ok(outcome) => {
            assert(runner.ran(request, Ok(outcome)));
            let raw = review_outcome(outcome)?;
            Ok(ReviewReply { records_reviewed: records.len(), raw })
        },
        Err(e) => {
            assert(runner.ran(request, Err(e)));
            Err(e)
        },
    }
}

} // verus!
