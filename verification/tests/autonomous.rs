use umoja::autonomous::{AutonomousLimits, AutonomousPolicy, AutonomousState, Gate, GateOutcome};

fn t(text: &str) -> i64 {
    chrono::DateTime::parse_from_rfc3339(text).unwrap().timestamp()
}

fn state(gates: Vec<Gate>) -> AutonomousState {
    AutonomousState::new(
        "ses-1",
        AutonomousPolicy {
            enabled: true,
            gates,
            limits: AutonomousLimits::default(),
        },
        t("2026-08-16T12:00:00Z"),
    )
}

fn outcome(command: &str, passed: bool, fingerprint: Option<&str>) -> GateOutcome {
    GateOutcome {
        command: command.into(),
        passed,
        exit_code: Some(if passed { 0 } else { 1 }),
        output: String::new(),
        workspace_fingerprint: fingerprint.map(str::to_string),
        ran_at: t("2026-08-16T12:05:00Z"),
    }
}

#[test]
fn a_failing_gate_buys_another_turn() {
    let mut state = state(vec![Gate::new("npm run check").unwrap()]);
    state.record_gate(outcome("npm run check", false, None));
    let decision = state.decide(t("2026-08-16T12:10:00Z"));
    assert!(decision.should_continue());
    assert!(decision.reason().contains("npm run check"));
}

#[test]
fn passing_gates_finish_the_run() {
    let mut state = state(vec![Gate::new("npm run check").unwrap()]);
    state.record_gate(outcome("npm run check", true, None));
    assert_eq!(state.decide(t("2026-08-16T12:10:00Z")).label(), "finish");
}

#[test]
fn limits_are_a_stop_not_a_finish() {
    let mut state = state(vec![]);
    state.continuations = state.policy.limits.max_continuations;
    let decision = state.decide(t("2026-08-16T12:10:00Z"));
    assert_eq!(decision.label(), "stop");
    assert!(!decision.should_continue());
}

#[test]
fn a_budget_is_checked_before_a_gate_is_rerun() {
    let mut state = state(vec![Gate::new("npm run check").unwrap()]);
    state.record_gate(outcome("npm run check", false, None));
    state.usage.input_tokens = state.policy.limits.max_tokens;
    assert_eq!(state.decide(t("2026-08-16T12:10:00Z")).label(), "stop");
}

#[test]
fn an_unchanged_workspace_makes_a_failed_gate_stale() {
    let mut state = state(vec![Gate::new("npm run check").unwrap()]);
    state.record_gate(outcome("npm run check", false, Some("abc123")));
    assert!(state.gate_is_stale("npm run check", Some("abc123")));
    assert!(!state.gate_is_stale("npm run check", Some("def456")));
}

#[test]
fn recording_a_gate_replaces_its_previous_result() {
    let mut state = state(vec![Gate::new("check").unwrap()]);
    state.record_gate(outcome("check", false, None));
    state.record_gate(outcome("check", true, None));
    assert_eq!(state.last_gate_outcomes.len(), 1);
    assert!(state.last_gate_outcomes[0].passed);
}

#[test]
fn a_disabled_policy_never_continues() {
    let mut state = state(vec![]);
    state.policy.enabled = false;
    assert!(!state.decide(t("2026-08-16T12:10:00Z")).should_continue());
}

#[test]
fn stop_reasons_name_the_limit_and_its_value() {
    let mut s = state(vec![]);
    s.turns = 20;
    assert_eq!(s.decide(t("2026-08-16T12:10:00Z")).reason(), "turn limit reached (20 of 20)");
    let s = state(vec![]);
    assert_eq!(
        s.decide(t("2026-08-16T13:00:00Z")).reason(),
        "time limit reached (3600s of 3600s)"
    );
    let mut s = state(vec![]);
    s.usage.output_tokens = 500_000;
    assert_eq!(
        s.decide(t("2026-08-16T12:10:00Z")).reason(),
        "token limit reached (500000 of 500000)"
    );
}

#[test]
fn an_unrun_gate_is_run_before_finishing() {
    let s = state(vec![Gate::new("cargo test").unwrap()]);
    let decision = s.decide(t("2026-08-16T12:10:00Z"));
    assert_eq!(decision.label(), "continue");
    assert_eq!(decision.reason(), "gate not yet run: cargo test");
}

#[test]
fn no_gates_finish_with_a_reason() {
    let s = state(vec![]);
    assert_eq!(
        s.decide(t("2026-08-16T12:10:00Z")).reason(),
        "no gates configured and no limit reached"
    );
}

#[test]
fn a_blank_gate_is_refused_and_commands_are_trimmed() {
    assert!(Gate::new("   ").is_err());
    let gate = Gate::new("  make check ").unwrap();
    assert_eq!(gate.command, "make check");
    assert_eq!(gate.max_output_bytes, 8192);
}

#[test]
fn elapsed_time_never_runs_backwards() {
    let s = state(vec![]);
    assert_eq!(s.elapsed_secs(t("2026-08-16T11:00:00Z")), 0);
    assert_eq!(s.elapsed_secs(t("2026-08-16T12:01:00Z")), 60);
}
