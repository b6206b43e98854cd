use std::cell::RefCell;

use umoja::error::{DomainError, Result};
use umoja::harness::{EntryKind, HarnessEntry, HarnessScope};
use umoja::ports::{AgentRunner, RunnerRegistry};
use umoja::review::{review_outcome, review_prompt, review_reply};
use umoja::runner::{RunOutcome, RunRequest, RunnerCapabilities};
use umoja::session::{Session, SessionKind, SessionStatus, Usage};
use umoja::transcript::{TranscriptEvent, TranscriptRecord};

fn at(text: &str) -> i64 {
    chrono::DateTime::parse_from_rfc3339(text).unwrap().timestamp()
}

/// A harness that answers as told and remembers every prompt it was given.
struct Reviewer {
    reply: Option<RunOutcome>,
    prompts: RefCell<Vec<String>>,
}

impl AgentRunner for Reviewer {
    fn capabilities(&self) -> RunnerCapabilities {
        RunnerCapabilities {
            name: "opencode".into(),
            can_resume: false,
            can_stream: false,
            reports_usage: false,
            supports_system_prompt: false,
            supports_model_selection: true,
        }
    }

    fn run(&self, request: &RunRequest) -> Result<RunOutcome> {
        self.prompts.borrow_mut().push(request.prompt.clone());
        Ok(self.reply.clone().unwrap_or_else(|| RunOutcome {
            ok: true,
            text: "[]".into(),
            usage: Usage::default(),
            runner_session: None,
            exit_code: Some(0),
            error: None,
            pid: None,
            duration_ms: 1,
        }))
    }

    fn probe(&self) -> Result<()> {
        Ok(())
    }
}

/// The one harness there is.
struct One(Reviewer);

impl RunnerRegistry for One {
    type Runner = Reviewer;

    fn get(&self, name: &str) -> Result<&Reviewer> {
        if name == "opencode" {
            Ok(&self.0)
        } else {
            Err(DomainError::not_found("runner", name))
        }
    }

    fn default_name(&self) -> String {
        "opencode".into()
    }
}

fn replying(reply: Option<RunOutcome>) -> One {
    One(Reviewer { reply, prompts: RefCell::new(Vec::new()) })
}

fn session() -> Session {
    Session {
        id: "ses-1".into(),
        name: "root".into(),
        kind: SessionKind::Root,
        status: SessionStatus::Running,
        workdir: "/work".into(),
        runner: "opencode".into(),
        model: Some("sonnet".into()),
        parent_id: None,
        depth: 0,
        created_at: at("2026-08-16T12:00:00Z"),
        updated_at: at("2026-08-16T12:00:00Z"),
        usage: Usage::default(),
        pid: None,
    }
}

fn a_conversation() -> Vec<TranscriptRecord> {
    vec![TranscriptRecord::new(
        "ses-1",
        at("2026-08-16T12:00:00Z"),
        TranscriptEvent::UserPrompt { text: "use rust, not python".into() },
    )]
}

#[test]
fn an_empty_trajectory_is_never_sent_to_a_model() {
    let runners = replying(None);
    let review = review_reply(&runners, &session(), &Vec::new(), &Vec::new()).unwrap();
    assert_eq!(review.records_reviewed, 0);
    assert!(review.raw.is_empty());
    assert!(runners.0.prompts.borrow().is_empty());
}

#[test]
fn the_reviewer_is_shown_the_trajectory_and_what_is_already_known() {
    let runners = replying(None);
    let review = review_reply(&runners, &session(), &a_conversation(), &Vec::new()).unwrap();
    assert_eq!(review.records_reviewed, 1);
    assert_eq!(review.raw, "[]");
    let prompt = &runners.0.prompts.borrow()[0];
    assert!(prompt.contains("use rust, not python"));
    assert!(prompt.contains("the harness is empty"));
    assert!(prompt.contains("Proposing nothing is a good answer"));
}

#[test]
fn a_reviewer_that_fails_is_reported_rather_than_read_as_nothing_to_learn() {
    let runners = replying(Some(RunOutcome::failure("model unavailable", Some(1))));
    let result = review_reply(&runners, &session(), &a_conversation(), &Vec::new());
    assert_eq!(result.unwrap_err(), DomainError::adapter("review", "model unavailable"));
}

#[test]
fn a_reply_is_kept_as_it_was_written() {
    let runners = replying(Some(RunOutcome {
        ok: true,
        text: "here you go: [{\"name\": }]".into(),
        usage: Usage::default(),
        runner_session: None,
        exit_code: Some(0),
        error: None,
        pid: None,
        duration_ms: 1,
    }));
    let review = review_reply(&runners, &session(), &a_conversation(), &Vec::new()).unwrap();
    assert_eq!(review.raw, "here you go: [{\"name\": }]");
}

#[test]
fn the_prompt_lists_the_trajectory_and_the_harness_headlines() {
    let entry = HarnessEntry::new(
        "ent-1",
        EntryKind::Memory,
        HarnessScope::Local,
        "prefers-rust",
        "Wants memory-safe languages.",
        "Said so explicitly.",
        at("2026-08-16T12:00:00Z"),
    )
    .unwrap();
    let prompt = review_prompt(&a_conversation(), &vec![entry]);
    assert!(prompt.starts_with("You are reviewing an agent session's own trajectory"));
    assert!(prompt.contains("## What already happened\n\n- user: use rust, not python\n\n## What the harness already holds\n\n- [memory] prefers-rust: Wants memory-safe languages."));
    assert!(prompt.ends_with("Reply with [] if nothing qualifies."));
    assert!(!prompt.contains("the harness is empty"));
}

#[test]
fn a_failed_run_without_an_error_still_says_the_review_failed() {
    let mut failed = RunOutcome::failure("x", None);
    failed.error = None;
    assert_eq!(review_outcome(failed).unwrap_err(), DomainError::adapter("review", "the review run failed"));
}
