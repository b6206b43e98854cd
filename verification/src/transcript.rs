//! The append-only record of what happened in a session.
//!
//! One line per event. Append-only is not a storage preference: a transcript
//! that can be rewritten cannot be used to justify a refinement, and evidence
//! is the thing this whole system asks for before it remembers anything.
use vstd::prelude::*;

use crate::session::Usage;
use crate::text::{chars_of, decimal, decimal_text, owned, push_str, replace_char, replaced, slice_chars, string_of};

verus! {

#[derive(Debug, Clone, PartialEq, Eq)]
pub enum TranscriptEvent {
    SessionStarted { name: String, runner: String, workdir: String, model: Option<String> },
    UserPrompt { text: String },
    AssistantTurn { text: String, usage: Usage },
    KernelExec { code: String, ok: bool, duration_ms: u64 },
    SubagentAdmitted { child_id: String, name: String, model: String },
    SubagentSettled { child_id: String, status: String },
    /// A child's cost folded into the parent turn that launched it, recorded
    /// so a reload cannot double-count.
    ChildUsageAttributed { child_id: String, child_usage: Usage, aggregate: Usage },
    MessageSent { message_id: String, receiver: String, status: String },
    MessageReceived { message_id: String, sender: String },
    HeartbeatFired { heartbeat_id: String, prompt: String },
    ScheduleFired { job_id: String, prompt: String },
    GoalChanged { status: String, objective: String },
    GateRan { command: String, passed: bool, exit_code: Option<i32> },
    AutonomousDecision { decision: String, reason: String },
    Compacted { trigger: String, freed_tokens: u64 },
    Refined { refinement_id: String, op: String, summary: String },
    SessionEnded { status: String },
    Error { context: String, detail: String },
}

/// One event of a session. `at` is in seconds since 1970-01-01T00:00:00Z.
#[derive(Debug, Clone, PartialEq, Eq)]
pub struct TranscriptRecord {
    pub session_id: String,
    pub at: i64,
    pub event: TranscriptEvent,
}

/// A line of at most `max` characters, line breaks turned to spaces, ending
/// in `...` when something was cut.
pub open spec fn flat_clip(text: Seq<char>, max: nat) -> Seq<char> {
    let flat = replace_char(text, '\n', ' ');
    if flat.len() <= max {
        flat
    } else {
        flat.take(if max >= 3 { max - 3 } else { 0 }) + "..."@
    }
}

fn clip_line(text: &str, max: usize) -> (r: String)
    ensures
        r@ == flat_clip(text@, max as nat),
{
    let chars = chars_of(text);
    let flat = replaced(chars.as_slice(), '\n', ' ');
    if flat.len() <= max {
        return string_of(flat.as_slice());
    }
    let keep = if max >= 3 { max - 3 } else { 0 };
    let head = slice_chars(flat.as_slice(), 0, keep);
    assert(head@ == flat@.take(keep as int));
    let mut out = string_of(head.as_slice());
    push_str(&mut out, "...");
    out
}

impl TranscriptEvent {
    /// The token counts this event carries fit their counters.
    pub open spec fn counts_fit(&self) -> bool {
        match self {
            TranscriptEvent::AssistantTurn { usage, .. } => usage.fits(),
            TranscriptEvent::ChildUsageAttributed { child_usage, .. } => child_usage.fits(),
            _ => true,
        }
    }

    pub open spec fn spec_summary(&self) -> Seq<char> {
        match self {
            TranscriptEvent::SessionStarted { name, runner, .. } => "session "@ + name@
                + " started on "@ + runner@,
            TranscriptEvent::UserPrompt { text } => "user: "@ + flat_clip(text@, 72),
            TranscriptEvent::AssistantTurn { text, usage } => "assistant ("@ + decimal(
                usage.spec_total() as nat,
            ) + " tok): "@ + flat_clip(text@, 60),
            TranscriptEvent::KernelExec { ok, duration_ms, .. } => "kernel exec "@ + (if *ok {
                "ok"@
            } else {
                "failed"@
            }) + " in "@ + decimal(*duration_ms as nat) + "ms"@,
            TranscriptEvent::SubagentAdmitted { name, model, .. } => "admitted child "@ + name@
                + " on "@ + model@,
            TranscriptEvent::SubagentSettled { child_id, status } => "child "@ + child_id@
                + " settled: "@ + status@,
            TranscriptEvent::ChildUsageAttributed { child_id, child_usage, .. } => "attributed "@
                + decimal(child_usage.spec_total() as nat) + " tokens from "@ + child_id@,
            TranscriptEvent::MessageSent { receiver, status, .. } => "message to "@ + receiver@
                + ": "@ + status@,
            TranscriptEvent::MessageReceived { sender, .. } => "message from "@ + sender@,
            TranscriptEvent::HeartbeatFired { prompt, .. } => "heartbeat: "@ + flat_clip(
                prompt@,
                60,
            ),
            TranscriptEvent::ScheduleFired { prompt, .. } => "schedule: "@ + flat_clip(
                prompt@,
                60,
            ),
            TranscriptEvent::GoalChanged { status, objective } => "goal "@ + status@ + ": "@
                + flat_clip(objective@, 56),
            TranscriptEvent::GateRan { command, passed, .. } => "gate "@ + (if *passed {
                "passed"@
            } else {
                "failed"@
            }) + " "@ + command@,
            TranscriptEvent::AutonomousDecision { decision, reason } => "autonomous "@ + decision@
                + ": "@ + reason@,
            TranscriptEvent::Compacted { trigger, freed_tokens } => "compacted on "@ + trigger@
                + ", freed "@ + decimal(*freed_tokens as nat) + " tokens"@,
            TranscriptEvent::Refined { op, summary, .. } => "refine "@ + op@ + ": "@ + summary@,
            TranscriptEvent::SessionEnded { status } => "session ended: "@ + status@,
            TranscriptEvent::Error { context, detail } => "error in "@ + context@ + ": "@
                + detail@,
        }
    }
}

/// `a`, then `b`, then `c`.
fn three(a: &str, b: &str, c: &str) -> (r: String)
    ensures
        r@ == a@ + b@ + c@,
{
    let mut m = owned(a);
    push_str(&mut m, b);
    push_str(&mut m, c);
    m
}

/// `a`, `b`, `c` and `d` in order.
fn four(a: &str, b: &str, c: &str, d: &str) -> (r: String)
    ensures
        r@ == a@ + b@ + c@ + d@,
{
    let mut m = three(a, b, c);
    push_str(&mut m, d);
    m
}

impl TranscriptRecord {
    pub fn new(session_id: &str, at: i64, event: TranscriptEvent) -> (r: TranscriptRecord)
        ensures
            r.session_id@ == session_id@,
            r.at == at,
            r.event == event,
    {
        TranscriptRecord { session_id: owned(session_id), at, event }
    }

    /// A short human line for a session's log.
    pub fn summary(&self) -> (r: String)
        requires
            self.event.counts_fit(),
        ensures
            r@ == self.event.spec_summary(),
    {
        match &self.event {
            TranscriptEvent::SessionStarted { name, runner, .. } => four(
                "session ",
                name.as_str(),
                " started on ",
                runner.as_str(),
            ),
            TranscriptEvent::UserPrompt { text } => {
                let c = clip_line(text.as_str(), 72);
                crate::text::join2("user: ", c.as_str())
            },
            TranscriptEvent::AssistantTurn { text, usage } => {
                let n = decimal_text(usage.total_tokens());
                let c = clip_line(text.as_str(), 60);
                let mut m = three("assistant (", n.as_str(), " tok): ");
                push_str(&mut m, c.as_str());
                m
            },
            TranscriptEvent::KernelExec { ok, duration_ms, .. } => {
                let n = decimal_text(*duration_ms);
                let mut m = three(
                    "kernel exec ",
                    if *ok {
                        "ok"
                    } else {
                        "failed"
                    },
                    " in ",
                );
                push_str(&mut m, n.as_str());
                push_str(&mut m, "ms");
                m
            },
            TranscriptEvent::SubagentAdmitted { name, model, .. } => four(
                "admitted child ",
                name.as_str(),
                " on ",
                model.as_str(),
            ),
            TranscriptEvent::SubagentSettled { child_id, status } => four(
                "child ",
                child_id.as_str(),
                " settled: ",
                status.as_str(),
            ),
            TranscriptEvent::ChildUsageAttributed { child_id, child_usage, .. } => {
                let n = decimal_text(child_usage.total_tokens());
                four("attributed ", n.as_str(), " tokens from ", child_id.as_str())
            },
            TranscriptEvent::MessageSent { receiver, status, .. } => four(
                "message to ",
                receiver.as_str(),
                ": ",
                status.as_str(),
            ),
            TranscriptEvent::MessageReceived { sender, .. } => crate::text::join2("message from ", sender.as_str()),
            TranscriptEvent::HeartbeatFired { prompt, .. } => {
                let c = clip_line(prompt.as_str(), 60);
                crate::text::join2("heartbeat: ", c.as_str())
            },
            TranscriptEvent::ScheduleFired { prompt, .. } => {
                let c = clip_line(prompt.as_str(), 60);
                crate::text::join2("schedule: ", c.as_str())
            },
            TranscriptEvent::GoalChanged { status, objective } => {
                let c = clip_line(objective.as_str(), 56);
                four("goal ", status.as_str(), ": ", c.as_str())
            },
            TranscriptEvent::GateRan { command, passed, .. } => four(
                "gate ",
                if *passed {
                    "passed"
                } else {
                    "failed"
                },
                " ",
                command.as_str(),
            ),
            TranscriptEvent::AutonomousDecision { decision, reason } => four(
                "autonomous ",
                decision.as_str(),
                ": ",
                reason.as_str(),
            ),
            TranscriptEvent::Compacted { trigger, freed_tokens } => {
                let n = decimal_text(*freed_tokens);
                let mut m = four("compacted on ", trigger.as_str(), ", freed ", n.as_str());
                push_str(&mut m, " tokens");
                m
            },
            TranscriptEvent::Refined { op, summary, .. } => four(
                "refine ",
                op.as_str(),
                ": ",
                summary.as_str(),
            ),
            TranscriptEvent::SessionEnded { status } => crate::text::join2("session ended: ", status.as_str()),
            TranscriptEvent::Error { context, detail } => four(
                "error in ",
                context.as_str(),
                ": ",
                detail.as_str(),
            ),
        }
    }
}

} // verus!
