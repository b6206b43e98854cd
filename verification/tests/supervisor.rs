use umoja::error::DomainError;
use umoja::goal::{Goal, GoalBudget, GoalStatus};
use umoja::heartbeat::DeliveryMode;
use umoja::runner::RunOutcome;
use umoja::session::{Session, SessionKind, SessionStatus, Usage};
use umoja::supervisor::{
    charge, charged, delivery_request, goal_continuation, recorded, schedule_failure,
    unreachable_target, Delivery, TickReport,
};

#[test]
fn a_report_counts_its_failures() {
    let mut report = TickReport::default();
    assert!(report.is_quiet());
    report.deliveries.push(Delivery {
        kind: "heartbeat",
        session: "ses-1".into(),
        prompt: "check".into(),
        ok: true,
        detail: None,
    });
    report.deliveries.push(Delivery {
        kind: "schedule",
        session: "ses-2".into(),
        prompt: "go".into(),
        ok: false,
        detail: Some("runner missing".into()),
    });
    assert!(!report.is_quiet());
    assert_eq!(report.failures(), 1);
}

fn now() -> i64 {
    chrono::DateTime::parse_from_rfc3339("2026-08-16T12:00:00Z").unwrap().timestamp()
}

fn worker() -> Session {
    Session {
        id: "ses-1".into(),
        name: "worker".into(),
        kind: SessionKind::Root,
        status: SessionStatus::Idle,
        workdir: "/work".into(),
        runner: "opencode".into(),
        model: Some("sonnet".into()),
        parent_id: None,
        depth: 0,
        created_at: now(),
        updated_at: now(),
        usage: Usage::default(),
        pid: None,
    }
}

fn ran(tokens: u64) -> RunOutcome {
    RunOutcome {
        ok: true,
        text: "done".into(),
        usage: Usage { input_tokens: tokens - 5, output_tokens: 5, turns: 1, attributed_child_tokens: 0 },
        runner_session: None,
        exit_code: Some(0),
        error: None,
        pid: None,
        duration_ms: 10,
    }
}

/// The goal part of a tick: continue each goal that may be continued,
/// deliver the prompt, and fold the cost back into the goal.
fn tick_goal(goal: &mut Goal, autonomy_allows: bool, run: &RunOutcome) -> TickReport {
    let mut report = TickReport::default();
    if let Some(prompt) = goal_continuation(goal, autonomy_allows) {
        goal.record_continuation(now());
        let request = delivery_request(&worker(), &prompt, DeliveryMode::FollowUp).unwrap();
        assert!(request.prompt.contains(&goal.objective));
        let outcome = Ok(run.clone());
        if let Some(usage) = charge(&outcome) {
            goal.observe(&usage, now());
        }
        report.deliveries.push(recorded("goal", "worker", &goal.objective, &outcome));
    }
    report
}

#[test]
fn a_quiet_tick_does_nothing_at_all() {
    assert!(TickReport::default().is_quiet());
}

#[test]
fn an_active_goal_is_continued_and_its_cost_counted() {
    let mut goal = Goal::new("ses-1", "ship the release", GoalBudget { tokens: Some(10_000), ..Default::default() }, now()).unwrap();
    let report = tick_goal(&mut goal, true, &ran(15));
    assert_eq!(report.deliveries.len(), 1);
    assert_eq!(report.deliveries[0].kind, "goal");
    assert_eq!(goal.progress.continuations, 1);
    assert_eq!(goal.progress.tokens_used, 15);
}

#[test]
fn a_goal_that_runs_out_of_budget_stops_being_continued() {
    let mut goal = Goal::new("ses-1", "ship the release", GoalBudget { tokens: Some(10), ..Default::default() }, now()).unwrap();
    tick_goal(&mut goal, true, &ran(15));
    assert_eq!(goal.status, GoalStatus::BudgetExhausted);
    assert!(tick_goal(&mut goal, true, &ran(15)).is_quiet());
}

#[test]
fn a_paused_goal_is_left_alone() {
    let mut goal = Goal::new("ses-1", "ship it", GoalBudget::default(), now()).unwrap();
    goal.pause(now()).unwrap();
    assert!(tick_goal(&mut goal, true, &ran(15)).is_quiet());
}

#[test]
fn autonomous_limits_override_an_active_goal() {
    let mut goal = Goal::new("ses-1", "ship it", GoalBudget::default(), now()).unwrap();
    assert!(tick_goal(&mut goal, false, &ran(15)).is_quiet());
    assert_eq!(goal.progress.continuations, 0);
}

#[test]
fn a_delivery_uses_the_sessions_own_model_and_workdir() {
    let session = worker();
    let request = delivery_request(&session, " continue ", DeliveryMode::Steer).unwrap();
    assert_eq!(request.model.as_deref(), Some("sonnet"));
    assert_eq!(request.workdir, "/work");
    assert_eq!(request.session_id, "ses-1");
    assert_eq!(request.prompt, "continue");
    assert_eq!(request.delivery, DeliveryMode::Steer);
    assert!(delivery_request(&session, "  ", DeliveryMode::Auto).is_err());
}

#[test]
fn a_missing_runner_is_recorded_as_a_failed_delivery() {
    let missing: Result<RunOutcome, DomainError> =
        Err(DomainError::Unsupported("runner 'opencode' is not installed".into()));
    let d = recorded("goal", "worker", "ship it", &missing);
    assert!(!d.ok);
    assert!(d.detail.as_ref().unwrap().contains("not installed"));
    assert!(charge(&missing).is_none());
    let report = TickReport { deliveries: vec![d] };
    assert_eq!(report.failures(), 1);
}

#[test]
fn a_schedule_whose_agent_vanished_fails_rather_than_hanging() {
    let error = DomainError::not_found("session", "worker");
    let d = unreachable_target("worker", "go", &error);
    assert_eq!(d.kind, "schedule");
    assert!(!d.ok);
    assert_eq!(d.detail.as_deref(), Some("session 'worker' not found"));
}

#[test]
fn a_scheduled_tick_fails_with_the_runs_own_reason() {
    assert_eq!(schedule_failure(&Ok(ran(15))), None);
    assert_eq!(
        schedule_failure(&Ok(RunOutcome::failure("model refused", Some(1)))).as_deref(),
        Some("model refused")
    );
    let mut silent = RunOutcome::failure("x", None);
    silent.error = None;
    assert_eq!(schedule_failure(&Ok(silent)).as_deref(), Some("run failed"));
    assert_eq!(
        schedule_failure(&Err(DomainError::adapter("runner", "crashed"))).as_deref(),
        Some("runner: crashed")
    );
}

#[test]
fn a_good_run_is_charged_to_its_session() {
    let mut session = worker();
    let outcome = Ok(ran(15));
    let usage = charge(&outcome).unwrap();
    charged(&mut session, &usage, now() + 5);
    assert_eq!(session.usage.total_tokens(), 15);
    assert_eq!(session.usage.turns, 1);
    assert_eq!(session.updated_at, now() + 5);
    let d = recorded("heartbeat", "worker", "check", &outcome);
    assert!(d.ok);
    assert_eq!(d.detail, None);
}
