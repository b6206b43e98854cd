//! Summaries of a transcript for compaction.
//!
//! The outline is built from the transcript's own events, so it costs
//! nothing and never invents anything. A model's summary is more useful but
//! costs a turn; whenever the model cannot give one, the outline stands in:
//! losing detail is acceptable, inventing it is not.
use vstd::prelude::*;

use crate::compaction::CompactionPlan;
use crate::runner::RunOutcome;
use crate::text::{decimal, decimal_text, owned, push_str, trim, trimmed};
use crate::time::{rfc3339_of, rfc3339_text, within_reach};
use crate::transcript::TranscriptRecord;

verus! {

/// One line per event, in order.
pub open spec fn event_lines(records: Seq<TranscriptRecord>) -> Seq<char>
    decreases records.len(),
{
    if records.len() == 0 {
        Seq::empty()
    } else {
        event_lines(records.drop_last()) + "- "@ + records.last().event.spec_summary() + "\n"@
    }
}

/// The outline of `records` under `plan`: which session, why, how many
/// events and over what span, what the user asked to keep, then every event
/// in order. Nothing at all when there are no records.
pub open spec fn outline(plan: CompactionPlan, records: Seq<TranscriptRecord>) -> Seq<char> {
    if records.len() == 0 {
        Seq::empty()
    } else {
        "<summary session=\""@ + plan.session_id@ + "\" trigger=\""@ + plan.trigger.spec_label()
            + "\" events=\""@ + decimal(records.len()) + "\">\n"@ + "Covers "@ + rfc3339_of(
            records[0].at as int,
        ) + " to "@ + rfc3339_of(records.last().at as int) + ".\n"@ + match plan.instruction {
            Some(i) => "Asked to preserve: "@ + i@ + "\n"@,
            None => Seq::empty(),
        } + "\nWhat happened, in order:\n"@ + event_lines(records) + "</summary>"@
    }
}

/// The records can be summarised: their counts fit, and their instants are
/// ones the calendar can write.
pub open spec fn summarisable(records: Seq<TranscriptRecord>) -> bool {
    forall|i: int|
        0 <= i < records.len() ==> #[trigger] records[i].event.counts_fit() && within_reach(
            records[i].at as int,
        )
}

/// A summary built only from what the transcript already says.
#[derive(Debug, Default)]
pub struct OutlineSummariser;

impl OutlineSummariser {
    pub fn summarise(&self, plan: &CompactionPlan, records: &Vec<TranscriptRecord>) -> (r: String)
        requires
            summarisable(records@),
        ensures
            r@ == outline(*plan, records@),
    {
        if records.len() == 0 {
            return String::new();
        }
        let mut out = owned("<summary session=\"");
        push_str(&mut out, plan.session_id.as_str());
        push_str(&mut out, "\" trigger=\"");
        push_str(&mut out, plan.trigger.label());
        push_str(&mut out, "\" events=\"");
        let n = decimal_text(records.len() as u64);
        push_str(&mut out, n.as_str());
        push_str(&mut out, "\">\n");
        push_str(&mut out, "Covers ");
        assert(records@[0].event.counts_fit());
        let first = rfc3339_text(records[0].at);
        push_str(&mut out, first.as_str());
        push_str(&mut out, " to ");
        let k = records.len() - 1;
        assert(records@[k as int].event.counts_fit());
        let last = rfc3339_text(records[k].at);
        push_str(&mut out, last.as_str());
        push_str(&mut out, ".\n");
        match &plan.instruction {
            Some(i) => {
                push_str(&mut out, "Asked to preserve: ");
                push_str(&mut out, i.as_str());
                push_str(&mut out, "\n");
            },
            None => {},
        }
        push_str(&mut out, "\nWhat happened, in order:\n");
        let mut lines = String::new();
        let mut j: usize = 0;
        assert(records@.take(0) =~= Seq::<TranscriptRecord>::empty());
        while j < records.len()
            invariant
                j <= records@.len(),
                summarisable(records@),
                lines@ == event_lines(records@.take(j as int)),
            decreases records@.len() - j,
        {
            proof {
                assert(records@.take(j + 1).drop_last() =~= records@.take(j as int));
                assert(records@.take(j + 1).last() == records@[j as int]);
                assert(records@[j as int].event.counts_fit());
            }
            push_str(&mut lines, "- ");
            let s = records[j].summary();
            push_str(&mut lines, s.as_str());
            push_str(&mut lines, "\n");
            j += 1;
        }
        assert(records@.take(records@.len() as int) =~= records@);
        push_str(&mut out, lines.as_str());
        push_str(&mut out, "</summary>");
        out
    }
}

/// What the model is asked when it summarises: keep what work needs, drop
/// the rest, invent nothing, and the user's own instruction when there is
/// one, followed by the outline it works from.
pub open spec fn summary_prompt(plan: CompactionPlan, outline_text: Seq<char>) -> Seq<char> {
    "Summarise this agent session so work can continue from the summary alone.\nKeep: unfinished work, decisions and their reasons, failing tests, file paths that matter. Drop: pleasantries and superseded detail.\nDo not invent anything that is not below.\n\n"@
        + match plan.instruction {
        Some(i) => "The user asks specifically: "@ + i@ + "\n\n"@,
        None => Seq::empty(),
    } + outline_text
}

pub fn model_prompt(plan: &CompactionPlan, outline_text: &str) -> (r: String)
    ensures
        r@ == summary_prompt(*plan, outline_text@),
{
    let mut p = owned(
        "Summarise this agent session so work can continue from the summary alone.\nKeep: unfinished work, decisions and their reasons, failing tests, file paths that matter. Drop: pleasantries and superseded detail.\nDo not invent anything that is not below.\n\n",
    );
    match &plan.instruction {
        Some(i) => {
            push_str(&mut p, "The user asks specifically: ");
            push_str(&mut p, i.as_str());
            push_str(&mut p, "\n\n");
        },
        None => {},
    }
    push_str(&mut p, outline_text);
    p
}

/// The summary that is kept: the model's text when it ran and said
/// something, the outline otherwise. A model that could not answer never
/// turns a compaction into an error.
pub open spec fn kept_summary(outline_text: Seq<char>, outcome: Option<RunOutcome>) -> Seq<char> {
    match outcome {
        Some(run) => if run.ok && trim(run.text@).len() > 0 {
            run.text@
        } else {
            outline_text
        },
        None => outline_text,
    }
}

/// Chooses between the model's reply (`None` when the model could not be
/// asked or the run failed to start) and the outline.
pub fn chosen_summary(outline_text: String, outcome: Option<RunOutcome>) -> (r: String)
    ensures
        r@ == kept_summary(outline_text@, outcome),
{
    match outcome {
        Some(run) => {
            if run.ok && trimmed(run.text.as_str()).len() > 0 {
                run.text
            } else {
                outline_text
            }
        },
        None => outline_text,
    }
}

} // verus!
