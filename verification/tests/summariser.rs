use umoja::compaction::{CompactionPlan, CompactionTrigger};
use std::cell::RefCell;

use umoja::error::{DomainError, Result};
use umoja::ports::{agent_summary, AgentRunner};
use umoja::runner::{RunOutcome, RunRequest, RunnerCapabilities};
use umoja::session::Usage;
use umoja::summariser::{chosen_summary, model_prompt, OutlineSummariser};
use umoja::transcript::{TranscriptEvent, TranscriptRecord};

fn at(offset: i64) -> i64 {
    chrono::DateTime::parse_from_rfc3339("2026-08-16T12:00:00Z").unwrap().timestamp() + offset
}

fn records(count: usize) -> Vec<TranscriptRecord> {
    (0..count)
        .map(|index| {
            TranscriptRecord::new(
                "ses-1",
                at(index as i64 * 60),
                TranscriptEvent::UserPrompt { text: format!("prompt {index}") },
            )
        })
        .collect()
}

fn plan() -> CompactionPlan {
    CompactionPlan {
        session_id: "ses-1".into(),
        trigger: CompactionTrigger::Threshold,
        keep_recent_messages: 12,
        instruction: Some("keep the failing tests".into()),
    }
}

/// What a runner that only echoes its prompt gives back.
fn echo(prompt: &str) -> RunOutcome {
    RunOutcome {
        ok: true,
        text: prompt.to_string(),
        usage: Usage::default(),
        runner_session: None,
        exit_code: Some(0),
        error: None,
        pid: None,
        duration_ms: 0,
    }
}

#[test]
fn the_outline_lists_events_and_the_instruction() {
    let summary = OutlineSummariser.summarise(&plan(), &records(3));
    assert!(summary.contains("events=\"3\""));
    assert!(summary.contains("keep the failing tests"));
    assert!(summary.contains("prompt 2"));
}

#[test]
fn the_agent_summariser_still_produces_a_summary_when_the_model_says_little() {
    let outline = OutlineSummariser.summarise(&plan(), &records(2));
    let prompt = model_prompt(&plan(), &outline);
    let summary = chosen_summary(outline, Some(echo(&prompt)));
    assert!(!summary.is_empty());
}

#[test]
fn the_outline_is_exact() {
    let summary = OutlineSummariser.summarise(&plan(), &records(2));
    assert_eq!(
        summary,
        "<summary session=\"ses-1\" trigger=\"threshold\" events=\"2\">\nCovers 2026-08-16T12:00:00+00:00 to 2026-08-16T12:01:00+00:00.\nAsked to preserve: keep the failing tests\n\nWhat happened, in order:\n- user: prompt 0\n- user: prompt 1\n</summary>"
    );
    assert!(OutlineSummariser.summarise(&plan(), &Vec::new()).is_empty());
}

#[test]
fn a_model_that_says_nothing_leaves_the_outline() {
    let outline = OutlineSummariser.summarise(&plan(), &records(1));
    assert_eq!(chosen_summary(outline.clone(), Some(echo("   "))), outline);
    assert_eq!(chosen_summary(outline.clone(), None), outline);
    let mut failed = echo("partial");
    failed.ok = false;
    assert_eq!(chosen_summary(outline.clone(), Some(failed)), outline);
    assert_eq!(chosen_summary(outline, Some(echo("the real summary"))), "the real summary");
}

#[test]
fn the_model_is_told_what_the_user_asked_to_keep() {
    let prompt = model_prompt(&plan(), "OUTLINE");
    assert!(prompt.starts_with("Summarise this agent session"));
    assert!(prompt.contains("The user asks specifically: keep the failing tests\n\n"));
    assert!(prompt.ends_with("OUTLINE"));
}

/// A harness that echoes its prompt, or answers as told, and remembers what
/// it was asked.
struct Scripted {
    installed: bool,
    reply: Option<RunOutcome>,
    asked: RefCell<Vec<RunRequest>>,
}

impl Scripted {
    fn echoing() -> Scripted {
        Scripted { installed: true, reply: None, asked: RefCell::new(Vec::new()) }
    }
}

impl AgentRunner for Scripted {
    fn capabilities(&self) -> RunnerCapabilities {
        RunnerCapabilities {
            name: "scripted".into(),
            can_resume: false,
            can_stream: false,
            reports_usage: false,
            supports_system_prompt: false,
            supports_model_selection: true,
        }
    }

    fn run(&self, request: &RunRequest) -> Result<RunOutcome> {
        self.asked.borrow_mut().push(request.clone());
        Ok(self.reply.clone().unwrap_or_else(|| echo(&request.prompt)))
    }

    fn probe(&self) -> Result<()> {
        if self.installed {
            Ok(())
        } else {
            Err(DomainError::Unsupported("not installed".into()))
        }
    }
}

#[test]
fn nothing_to_summarise_produces_nothing() {
    assert!(OutlineSummariser.summarise(&plan(), &Vec::new()).is_empty());
    let agent = Scripted::echoing();
    assert!(agent_summary(&agent, &plan(), &Vec::new(), "/tmp", None).is_empty());
    assert!(agent.asked.borrow().is_empty());
}

#[test]
fn the_session_model_is_asked_with_the_outline() {
    let agent = Scripted { installed: true, reply: Some(echo("the real summary")), asked: RefCell::new(Vec::new()) };
    let summary = agent_summary(&agent, &plan(), &records(2), "/work", Some("opus".into()));
    assert_eq!(summary, "the real summary");
    let asked = agent.asked.borrow();
    assert_eq!(asked.len(), 1);
    assert_eq!(asked[0].model.as_deref(), Some("opus"));
    assert_eq!(asked[0].workdir, "/work");
    assert!(asked[0].prompt.ends_with("</summary>"));
}

#[test]
fn a_harness_that_is_not_installed_leaves_the_outline() {
    let agent = Scripted { installed: false, reply: None, asked: RefCell::new(Vec::new()) };
    let outline = OutlineSummariser.summarise(&plan(), &records(2));
    assert_eq!(agent_summary(&agent, &plan(), &records(2), "/work", None), outline);
    assert!(agent.asked.borrow().is_empty());
}
