use umoja::error::DomainError;
use umoja::goal::{continuation_prompt, may_set_goal, Goal, GoalBudget, GoalStatus};
use umoja::session::Usage;

fn now() -> i64 {
    chrono::DateTime::parse_from_rfc3339("2026-08-16T12:00:00Z").unwrap().timestamp()
}

fn goal_with(budget: GoalBudget) -> Goal {
    Goal::new("ses-1", "ship the release", budget, now()).unwrap()
}

#[test]
fn a_goal_needs_an_objective() {
    assert!(Goal::new("ses-1", "   ", GoalBudget::default(), now()).is_err());
}

#[test]
fn budget_exhaustion_is_not_completion() {
    let mut goal = goal_with(GoalBudget {
        tokens: Some(100),
        ..Default::default()
    });
    let exhausted = goal.observe(
        &Usage {
            input_tokens: 80,
            output_tokens: 40,
            ..Default::default()
        },
        now(),
    );
    assert!(exhausted);
    assert_eq!(goal.status, GoalStatus::BudgetExhausted);
    assert!(!goal.should_continue());
    // And it cannot be quietly relabelled as success afterwards.
    assert!(goal.complete(now()).is_err());
}

#[test]
fn only_complete_marks_success() {
    let mut goal = goal_with(GoalBudget::default());
    goal.pause(now()).unwrap();
    assert!(!goal.should_continue());
    goal.resume(now()).unwrap();
    assert!(goal.should_continue());
    goal.complete(now()).unwrap();
    assert_eq!(goal.status, GoalStatus::Completed);
    assert!(goal.completed_at.is_some());
}

#[test]
fn a_cleared_goal_cannot_resume() {
    let mut goal = goal_with(GoalBudget::default());
    goal.clear(now());
    assert!(goal.resume(now()).is_err());
    assert!(goal.pause(now()).is_err());
}

#[test]
fn checklist_lifecycle_add_check_uncheck_progress() {
    let mut goal = goal_with(GoalBudget::default());
    let id1 = goal.add_step("Write domain model", now()).unwrap();
    let id2 = goal.add_step("Add application service", now()).unwrap();
    assert_eq!(id1, 1);
    assert_eq!(id2, 2);

    assert_eq!(goal.progress_summary(), "0/2 steps complete (0%)");
    assert_eq!(goal.next_step().unwrap().text, "Write domain model");

    // Check first step
    let checked = goal.check_step(id1, now()).unwrap();
    assert!(checked);
    assert_eq!(goal.progress_summary(), "1/2 steps complete (50%)");
    assert_eq!(goal.next_step().unwrap().text, "Add application service");

    // Check second step
    goal.check_step(id2, now()).unwrap();
    assert!(goal.all_steps_completed());
    assert_eq!(goal.progress_summary(), "2/2 steps complete (100%)");

    // Uncheck
    goal.uncheck_step(id1, now()).unwrap();
    assert_eq!(goal.progress_summary(), "1/2 steps complete (50%)");

    // Remove
    goal.remove_step(id1, now()).unwrap();
    assert_eq!(goal.progress_summary(), "1/1 steps complete (100%)");
}

#[test]
fn an_empty_checklist_says_so() {
    let goal = goal_with(GoalBudget::default());
    assert_eq!(goal.progress_summary(), "no steps defined");
    assert!(goal.next_step().is_none());
}

#[test]
fn unknown_steps_are_not_found() {
    let mut goal = goal_with(GoalBudget::default());
    assert!(goal.check_step(7, now()).is_err());
    assert!(goal.remove_step(7, now()).is_err());
}

#[test]
fn elapsed_time_and_remaining_tokens_follow_observation() {
    let mut goal = goal_with(GoalBudget {
        tokens: Some(1_000),
        ..Default::default()
    });
    goal.observe(
        &Usage {
            input_tokens: 300,
            output_tokens: 100,
            ..Default::default()
        },
        now() + 90,
    );
    assert_eq!(goal.remaining_tokens(), Some(600));
    assert_eq!(goal.elapsed(), 90);
    assert_eq!(goal.status, GoalStatus::Active);
}

#[test]
fn a_failed_goal_records_why() {
    let mut goal = goal_with(GoalBudget::default());
    goal.fail("runner vanished", now());
    assert_eq!(goal.status, GoalStatus::Errored);
    assert_eq!(goal.note.as_deref(), Some("runner vanished"));
    assert!(goal.status.is_terminal());
    assert_eq!(goal.status.label(), "errored");
}

/// Sets a goal on "root" the way the goal service does: refused while an
/// open goal is there and `replace` is not given.
fn set_goal(current: &mut Option<Goal>, objective: &str, tokens: Option<u64>, replace: bool)
    -> Result<Goal, DomainError>
{
    may_set_goal("root", current.as_ref().map(|g| g.status), replace)?;
    let goal = Goal::new("ses-1", objective, GoalBudget { tokens, ..Default::default() }, now())?;
    *current = Some(goal.clone());
    Ok(goal)
}

#[test]
fn a_second_goal_needs_permission_to_replace_the_first() {
    let mut current = None;
    set_goal(&mut current, "ship the release", None, false).unwrap();
    assert!(set_goal(&mut current, "ship the release", None, false).is_err());
    assert!(set_goal(&mut current, "different", None, true).is_ok());
}

#[test]
fn a_completed_goal_leaves_room_for_the_next_one() {
    let mut current = None;
    set_goal(&mut current, "ship the release", None, false).unwrap();
    current.as_mut().unwrap().complete(now()).unwrap();
    assert!(set_goal(&mut current, "ship the release", None, false).is_ok());
}

#[test]
fn spending_the_budget_stops_the_goal_without_claiming_success() {
    let mut goal = goal_with(GoalBudget { tokens: Some(100), ..Default::default() });
    goal.observe(
        &Usage { input_tokens: 90, output_tokens: 30, turns: 1, attributed_child_tokens: 0 },
        now(),
    );
    assert_eq!(goal.status, GoalStatus::BudgetExhausted);
    assert!(continuation_prompt(&goal).is_none());
    assert!(goal.complete(now()).is_err());
}

#[test]
fn a_paused_goal_produces_no_continuation() {
    let mut goal = goal_with(GoalBudget::default());
    goal.pause(now()).unwrap();
    assert!(continuation_prompt(&goal).is_none());
    goal.resume(now()).unwrap();
    assert!(continuation_prompt(&goal).is_some());
}

#[test]
fn the_continuation_prompt_states_the_remaining_budget() {
    let goal = goal_with(GoalBudget { tokens: Some(1000), ..Default::default() });
    let prompt = continuation_prompt(&goal).unwrap();
    assert!(prompt.contains("1000 of 1000 tokens left"));
    assert!(prompt.contains("ship the release"));
}

#[test]
fn elapsed_time_comes_from_the_clock_not_a_guess() {
    let mut goal = goal_with(GoalBudget::default());
    goal.observe(&Usage::default(), now() + 300);
    assert_eq!(goal.progress.elapsed_secs, 300);
}

#[test]
fn the_continuation_prompt_is_exact() {
    let mut goal = goal_with(GoalBudget { tokens: Some(500), ..Default::default() });
    goal.observe(&Usage { input_tokens: 120, ..Default::default() }, now());
    assert_eq!(
        continuation_prompt(&goal).unwrap(),
        "<goal status=\"active\">\nship the release\nBudget: 380 of 500 tokens left.\nContinue until this is done. When it is genuinely complete, say so by completing the goal \u{2014} do not stop early and do not claim completion you cannot show.\n</goal>"
    );
    let open = goal_with(GoalBudget::default());
    assert!(!continuation_prompt(&open).unwrap().contains("Budget:"));
}

#[test]
fn a_refused_goal_names_the_session_and_the_open_status() {
    match may_set_goal("root", Some(GoalStatus::Paused), false) {
        Err(DomainError::Forbidden(m)) => {
            assert_eq!(m, "'root' already has a paused goal; clear it or pass replace")
        }
        other => panic!("expected a refusal, got {other:?}"),
    }
    assert!(may_set_goal("root", Some(GoalStatus::Cleared), false).is_ok());
    assert!(may_set_goal("root", None, false).is_ok());
}
