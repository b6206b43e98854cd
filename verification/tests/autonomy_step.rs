use umoja::autonomous::{
    step_when_off, AutonomousLimits, AutonomousPolicy, AutonomousState, Continuation, Gate,
    GateOutcome, StepReport,
};
use umoja::session::Usage;

fn now() -> i64 {
    chrono::DateTime::parse_from_rfc3339("2026-08-16T12:00:00Z").unwrap().timestamp()
}

/// Gates run in memory: configured results by command (passing unless
/// told otherwise), a settable workspace fingerprint, and a log of runs.
#[derive(Default)]
struct Gates {
    results: Vec<(String, bool)>,
    fingerprint: Option<String>,
    runs: Vec<String>,
}

impl Gates {
    fn run(&mut self, gate: &Gate) -> GateOutcome {
        self.runs.push(gate.command.clone());
        let passed = self
            .results
            .iter()
            .find(|(command, _)| *command == gate.command)
            .map(|(_, passed)| *passed)
            .unwrap_or(true);
        GateOutcome {
            command: gate.command.clone(),
            passed,
            exit_code: Some(if passed { 0 } else { 1 }),
            output: if passed { String::new() } else { "boom".into() },
            workspace_fingerprint: self.fingerprint.clone(),
            ran_at: now(),
        }
    }
}

/// One autonomous step: the gates that can still tell us something run, the
/// rest are skipped, then the state decides.
fn step(state: Option<&mut AutonomousState>, gates: &mut Gates) -> StepReport {
    let Some(state) = state else {
        return step_when_off();
    };
    let fingerprint = gates.fingerprint.clone();
    let mut ran = Vec::new();
    let mut skipped = Vec::new();
    for gate in state.policy.gates.clone() {
        if state.gate_is_stale(&gate.command, fingerprint.as_deref()) {
            skipped.push(gate.command.clone());
            continue;
        }
        let outcome = gates.run(&gate);
        state.record_gate(outcome.clone());
        ran.push(outcome);
    }
    state.conclude(ran, skipped, now())
}

fn policy(commands: &[&str]) -> AutonomousPolicy {
    AutonomousPolicy {
        enabled: true,
        gates: commands.iter().map(|command| Gate::new(command).unwrap()).collect(),
        limits: AutonomousLimits::default(),
    }
}

fn enable(commands: &[&str]) -> AutonomousState {
    AutonomousState::new("ses-1", policy(commands), now())
}

#[test]
fn a_failing_gate_produces_a_continuation_carrying_its_output() {
    let mut state = enable(&["npm run check"]);
    let mut gates = Gates::default();
    gates.results.push(("npm run check".into(), false));

    let report = step(Some(&mut state), &mut gates);
    assert!(report.decision.should_continue());
    let prompt = report.continuation_prompt().unwrap();
    assert!(prompt.contains("npm run check"));
    assert!(prompt.contains("boom"));
}

#[test]
fn passing_gates_finish_rather_than_continue() {
    let mut state = enable(&["npm run check"]);
    let report = step(Some(&mut state), &mut Gates::default());
    assert_eq!(report.decision.label(), "finish");
    assert!(report.continuation_prompt().is_none());
}

#[test]
fn an_unchanged_workspace_does_not_rerun_a_failed_gate() {
    let mut state = enable(&["npm run check"]);
    let mut gates = Gates::default();
    gates.fingerprint = Some("abc123".into());
    gates.results.push(("npm run check".into(), false));

    step(Some(&mut state), &mut gates);
    let second = step(Some(&mut state), &mut gates);

    assert_eq!(gates.runs.len(), 1);
    assert_eq!(second.skipped_gates, vec!["npm run check".to_string()]);
    assert!(second.decision.should_continue());
}

#[test]
fn a_changed_workspace_reruns_the_gate() {
    let mut state = enable(&["npm run check"]);
    let mut gates = Gates::default();
    gates.fingerprint = Some("abc123".into());
    gates.results.push(("npm run check".into(), false));

    step(Some(&mut state), &mut gates);
    gates.fingerprint = Some("def456".into());
    step(Some(&mut state), &mut gates);

    assert_eq!(gates.runs.len(), 2);
}

#[test]
fn hitting_a_limit_stops_and_says_so() {
    let mut policy = policy(&[]);
    policy.limits.max_continuations = 1;
    let mut state = AutonomousState::new("ses-1", policy, now());
    state.continuations = 1;

    let report = step(Some(&mut state), &mut Gates::default());
    assert_eq!(report.decision.label(), "stop");
    assert!(report.decision.reason().contains("continuation limit"));
}

#[test]
fn autonomy_off_is_not_an_error() {
    let report = step(None, &mut Gates::default());
    assert_eq!(report.decision.label(), "finish");
    assert!(report.gates.is_empty());
}

#[test]
fn turns_accumulate_towards_the_token_limit() {
    let mut state = enable(&[]);
    let usage = Usage { input_tokens: 1000, output_tokens: 500, turns: 1, attributed_child_tokens: 0 };
    state.record_turn(&usage, now());
    state.record_turn(&usage, now());
    assert_eq!(state.usage.total_tokens(), 3000);
    assert_eq!(state.turns, 2);
}

#[test]
fn a_continuing_step_is_counted_and_a_finishing_one_is_not() {
    let mut state = enable(&["cargo test"]);
    let mut gates = Gates::default();
    gates.results.push(("cargo test".into(), false));
    step(Some(&mut state), &mut gates);
    assert_eq!(state.continuations, 1);

    let mut done = enable(&["cargo test"]);
    step(Some(&mut done), &mut Gates::default());
    assert_eq!(done.continuations, 0);
}

#[test]
fn the_follow_up_lists_each_failing_gate_exactly() {
    let report = StepReport {
        decision: Continuation::Continue { reason: "gate failed: a".into() },
        gates: vec![
            GateOutcome {
                command: "a".into(),
                passed: false,
                exit_code: None,
                output: "  bad thing \n".into(),
                workspace_fingerprint: None,
                ran_at: now(),
            },
            GateOutcome {
                command: "b".into(),
                passed: true,
                exit_code: Some(0),
                output: String::new(),
                workspace_fingerprint: None,
                ran_at: now(),
            },
        ],
        skipped_gates: vec![],
    };
    assert_eq!(
        report.continuation_prompt().unwrap(),
        [
            "<autonomous>\nA quality gate is failing.\n\n$ a\nexit -1\nbad thing\n\nFix the cause, then let the ",
            "gate run again.\n</autonomous>",
        ]
        .concat()
    );
    let quiet = StepReport { gates: vec![], ..report };
    assert_eq!(
        quiet.continuation_prompt().unwrap(),
        "<autonomous>gate failed: a</autonomous>"
    );
}
