//! Bounded autonomous continuation.
//!
//! Autonomous mode is a *policy*, not an engine: given what has happened and
//! what the gates say, may the session continue, and if not, why not. Keeping
//! it a pure decision means the interesting cases (a gate that keeps failing
//! on an unchanged workspace, a token limit reached mid-gate) are testable
//! without running a single command.
use vstd::prelude::*;

use crate::error::{DomainError, Result};
use crate::search::{first_index, lemma_first_index_facts, lemma_first_index_scan};
use crate::session::Usage;
use crate::text::{
    decimal, decimal_text, owned, push_chars, push_str, same_text, signed_decimal,
    signed_decimal_text, string_of, trim, trimmed,
};

verus! {

/// The output limit a gate gets unless it says otherwise.
pub fn default_gate_output_limit() -> (r: usize)
    ensures
        r == 8192,
{
    8 * 1024
}

/// A shell command that must pass before the run may finish.
#[derive(Debug, Clone, PartialEq, Eq)]
pub struct Gate {
    pub command: String,
    /// Output beyond this is clipped before being handed back to the agent, so
    /// a 200k-line test log cannot evict the task from context.
    pub max_output_bytes: usize,
}

impl Gate {
    /// A gate running `command`, trimmed; a blank command is refused.
    pub fn new(command: &str) -> (r: Result<Gate>)
        ensures
            match r {
                Ok(g) => trim(command@).len() > 0 && g.command@ == trim(command@)
                    && g.max_output_bytes == 8192,
                Err(e) => trim(command@).len() == 0 && e is Invalid,
            },
    {
        let t = trimmed(command);
        if t.len() == 0 {
            return Err(DomainError::invalid("a gate needs a command"));
        }
        Ok(Gate { command: string_of(t.as_slice()), max_output_bytes: default_gate_output_limit() })
    }
}

/// What running a gate produced. `ran_at` is in seconds since 1970-01-01T00:00:00Z.
#[derive(Debug, Clone, PartialEq, Eq)]
pub struct GateOutcome {
    pub command: String,
    pub passed: bool,
    pub exit_code: Option<i32>,
    /// Already clipped to its gate's output limit.
    pub output: String,
    /// A fingerprint of the workspace when this gate ran. Re-running a failed
    /// gate against an unchanged workspace can only fail again.
    pub workspace_fingerprint: Option<String>,
    pub ran_at: i64,
}

impl GateOutcome {
    /// A copy of this outcome.
    pub fn duplicate(&self) -> (r: Self)
        ensures
            r == *self,
    {
        GateOutcome {
            command: self.command.clone(),
            passed: self.passed,
            exit_code: self.exit_code,
            output: self.output.clone(),
            workspace_fingerprint: match &self.workspace_fingerprint {
                Some(f) => Some(f.clone()),
                None => None,
            },
            ran_at: self.ran_at,
        }
    }
}

#[derive(Debug, Clone, Copy, PartialEq, Eq, Structural)]
pub struct AutonomousLimits {
    pub max_continuations: u32,
    pub max_turns: u32,
    pub max_tokens: u64,
    pub max_wall_clock_secs: u64,
}

impl Default for AutonomousLimits {
    fn default() -> (r: Self)
        ensures
            r == (AutonomousLimits {
                max_continuations: 10,
                max_turns: 20,
                max_tokens: 500_000,
                max_wall_clock_secs: 3_600,
            }),
    {
        AutonomousLimits {
            max_continuations: 10,
            max_turns: 20,
            max_tokens: 500_000,
            max_wall_clock_secs: 3_600,
        }
    }
}

#[derive(Debug, Clone, PartialEq, Eq)]
pub struct AutonomousPolicy {
    pub enabled: bool,
    pub gates: Vec<Gate>,
    pub limits: AutonomousLimits,
}

impl Default for AutonomousPolicy {
    fn default() -> (r: Self)
        ensures
            !r.enabled,
            r.gates@.len() == 0,
            r.limits == AutonomousLimits::default_limits(),
    {
        AutonomousPolicy { enabled: false, gates: Vec::new(), limits: AutonomousLimits::default() }
    }
}

impl AutonomousLimits {
    pub open spec fn default_limits() -> AutonomousLimits {
        AutonomousLimits {
            max_continuations: 10,
            max_turns: 20,
            max_tokens: 500_000,
            max_wall_clock_secs: 3_600,
        }
    }
}

/// The decision, and the reason for it.
#[derive(Debug, Clone, PartialEq, Eq)]
pub enum Continuation {
    /// Inject another turn.
    Continue { reason: String },
    /// The gates pass and nothing is outstanding.
    Finish { reason: String },
    /// A configured limit was hit. Distinct from `Finish`: the work is not
    /// necessarily done, and saying otherwise would be a lie.
    Stop { reason: String },
}

impl Continuation {
    pub open spec fn spec_label(&self) -> Seq<char> {
        match self {
            Continuation::Continue { .. } => "continue"@,
            Continuation::Finish { .. } => "finish"@,
            Continuation::Stop { .. } => "stop"@,
        }
    }

    pub open spec fn spec_reason(&self) -> Seq<char> {
        match self {
            Continuation::Continue { reason } => reason@,
            Continuation::Finish { reason } => reason@,
            Continuation::Stop { reason } => reason@,
        }
    }

    pub fn should_continue(&self) -> (r: bool)
        ensures
            r == (self is Continue),
    {
        match self {
            Continuation::Continue { .. } => true,
            _ => false,
        }
    }

    pub fn reason(&self) -> (r: &str)
        ensures
            r@ == self.spec_reason(),
    {
        match self {
            Continuation::Continue { reason } => reason.as_str(),
            Continuation::Finish { reason } => reason.as_str(),
            Continuation::Stop { reason } => reason.as_str(),
        }
    }

    pub fn label(&self) -> (r: &'static str)
        ensures
            r@ == self.spec_label(),
    {
        match self {
            Continuation::Continue { .. } => "continue",
            Continuation::Finish { .. } => "finish",
            Continuation::Stop { .. } => "stop",
        }
    }
}

/// The position of the latest result recorded for `command`.
pub open spec fn result_for(outcomes: Seq<GateOutcome>, command: Seq<char>) -> Option<int> {
    first_index(outcomes, |o: GateOutcome| o.command@ == command)
}

/// A gate whose latest result is a failure.
pub open spec fn gate_failing(outcomes: Seq<GateOutcome>, gate: Gate) -> bool {
    match result_for(outcomes, gate.command@) {
        Some(j) => !outcomes[j].passed,
        None => false,
    }
}

/// A gate with no result yet.
pub open spec fn gate_unrun(outcomes: Seq<GateOutcome>, gate: Gate) -> bool {
    result_for(outcomes, gate.command@) is None
}

/// The recorded results without any for `command`, in their order.
pub open spec fn without_command(outcomes: Seq<GateOutcome>, command: Seq<char>) -> Seq<
    GateOutcome,
>
    decreases outcomes.len(),
{
    if outcomes.len() == 0 {
        outcomes
    } else {
        let rest = without_command(outcomes.drop_last(), command);
        if outcomes.last().command@ == command {
            rest
        } else {
            rest.push(outcomes.last())
        }
    }
}

/// Seconds from `from` to `to`, zero when `to` comes first.
pub open spec fn seconds_between(from: int, to: int) -> int {
    if to > from {
        to - from
    } else {
        0
    }
}

/// Live counters for one autonomous run. Instants are seconds since
/// 1970-01-01T00:00:00Z.
#[derive(Debug, Clone, PartialEq, Eq)]
pub struct AutonomousState {
    pub session_id: String,
    pub policy: AutonomousPolicy,
    pub continuations: u32,
    pub turns: u32,
    pub usage: Usage,
    pub started_at: i64,
    pub updated_at: i64,
    /// The most recent result for each gate, by command.
    pub last_gate_outcomes: Vec<GateOutcome>,
}

impl AutonomousState {
    /// What `decide` answers at `now`: the label and the reason.
    pub open spec fn verdict(self, now: int) -> (Seq<char>, Seq<char>) {
        let limits = self.policy.limits;
        let tokens = self.usage.spec_total();
        let elapsed = seconds_between(self.started_at as int, now);
        let gates = self.policy.gates@;
        let outcomes = self.last_gate_outcomes@;
        if !self.policy.enabled {
            ("finish"@, "autonomous mode is off"@)
        } else if self.continuations >= limits.max_continuations {
            (
                "stop"@,
                "continuation limit reached ("@ + decimal(self.continuations as nat) + " of "@
                    + decimal(limits.max_continuations as nat) + ")"@,
            )
        } else if self.turns >= limits.max_turns {
            (
                "stop"@,
                "turn limit reached ("@ + decimal(self.turns as nat) + " of "@ + decimal(
                    limits.max_turns as nat,
                ) + ")"@,
            )
        } else if tokens >= limits.max_tokens {
            (
                "stop"@,
                "token limit reached ("@ + decimal(tokens as nat) + " of "@ + decimal(
                    limits.max_tokens as nat,
                ) + ")"@,
            )
        } else if elapsed >= limits.max_wall_clock_secs {
            (
                "stop"@,
                "time limit reached ("@ + decimal(elapsed as nat) + "s of "@ + decimal(
                    limits.max_wall_clock_secs as nat,
                ) + "s)"@,
            )
        } else {
            match first_index(gates, |g: Gate| gate_failing(outcomes, g)) {
                Some(i) => ("continue"@, "gate failed: "@ + gates[i].command@),
                None => match first_index(gates, |g: Gate| gate_unrun(outcomes, g)) {
                    Some(i) => ("continue"@, "gate not yet run: "@ + gates[i].command@),
                    None => (
                        "finish"@,
                        if gates.len() == 0 {
                            "no gates configured and no limit reached"@
                        } else {
                            "all gates passed"@
                        },
                    ),
                },
            }
        }
    }

    pub fn new(session_id: &str, policy: AutonomousPolicy, now: i64) -> (r: Self)
        ensures
            r.session_id@ == session_id@,
            r.policy == policy,
            r.continuations == 0,
            r.turns == 0,
            r.usage == Usage::spec_zero(),
            r.started_at == now,
            r.updated_at == now,
            r.last_gate_outcomes@.len() == 0,
    {
        AutonomousState {
            session_id: owned(session_id),
            policy,
            continuations: 0,
            turns: 0,
            usage: Usage::default(),
            started_at: now,
            updated_at: now,
            last_gate_outcomes: Vec::new(),
        }
    }

    pub fn record_turn(&mut self, usage: &Usage, now: i64)
        requires
            old(self).turns < u32::MAX,
            old(self).usage.can_absorb(*usage),
        ensures
            *final(self) == (AutonomousState {
                turns: (old(self).turns + 1) as u32,
                usage: old(self).usage.spec_absorb(*usage),
                updated_at: now,
                ..*old(self)
            }),
    {
        self.turns = self.turns + 1;
        self.usage.absorb(usage);
        self.updated_at = now;
    }

    pub fn record_continuation(&mut self, now: i64)
        requires
            old(self).continuations < u32::MAX,
        ensures
            *final(self) == (AutonomousState {
                continuations: (old(self).continuations + 1) as u32,
                updated_at: now,
                ..*old(self)
            }),
    {
        self.continuations = self.continuations + 1;
        self.updated_at = now;
    }

    /// Keeps `outcome` as the one result for its command, after the results
    /// for other commands.
    pub fn record_gate(&mut self, outcome: GateOutcome)
        ensures
            final(self).last_gate_outcomes@ == without_command(
                old(self).last_gate_outcomes@,
                outcome.command@,
            ).push(outcome),
            final(self).session_id == old(self).session_id,
            final(self).policy == old(self).policy,
            final(self).continuations == old(self).continuations,
            final(self).turns == old(self).turns,
            final(self).usage == old(self).usage,
            final(self).started_at == old(self).started_at,
            final(self).updated_at == old(self).updated_at,
    {
        let mut kept: Vec<GateOutcome> = Vec::new();
        let mut i: usize = 0;
        let ghost prior = self.last_gate_outcomes@;
        while i < self.last_gate_outcomes.len()
            invariant
                prior == self.last_gate_outcomes@,
                i <= prior.len(),
                kept@ == without_command(prior.take(i as int), outcome.command@),
            decreases prior.len() - i,
        {
            assert(prior.take(i + 1).drop_last() =~= prior.take(i as int));
            if self.last_gate_outcomes[i].command != outcome.command {
                kept.push(self.last_gate_outcomes[i].duplicate());
            }
            i += 1;
        }
        assert(prior.take(prior.len() as int) =~= prior);
        kept.push(outcome);
        self.last_gate_outcomes = kept;
    }

    /// Seconds since the run started, zero if `now` comes first.
    pub fn elapsed_secs(&self, now: i64) -> (r: u64)
        ensures
            r == seconds_between(self.started_at as int, now as int),
    {
        if now > self.started_at {
            let d: i128 = (now as i128) - (self.started_at as i128);
            d as u64
        } else {
            0
        }
    }

    /// The position of the latest result recorded for `command`.
    fn find_result(&self, command: &str) -> (r: Option<usize>)
        ensures
            match r {
                Some(j) => j < self.last_gate_outcomes@.len() && result_for(
                    self.last_gate_outcomes@,
                    command@,
                ) == Some(j as int),
                None => result_for(self.last_gate_outcomes@, command@) is None,
            },
    {
        let ghost p = |o: GateOutcome| o.command@ == command@;
        let mut j: usize = 0;
        while j < self.last_gate_outcomes.len()
            invariant
                j <= self.last_gate_outcomes@.len(),
                p == (|o: GateOutcome| o.command@ == command@),
                forall|k: int| 0 <= k < j ==> !p(#[trigger] self.last_gate_outcomes@[k]),
            decreases self.last_gate_outcomes@.len() - j,
        {
            if same_text(self.last_gate_outcomes[j].command.as_str(), command) {
                proof {
                    lemma_first_index_scan(self.last_gate_outcomes@, p, j as int);
                }
                return Some(j);
            }
            j += 1;
        }
        proof {
            lemma_first_index_scan(self.last_gate_outcomes@, p, j as int);
        }
        None
    }

    /// Would re-running this gate tell us anything new?
    ///
    /// A gate that failed against a workspace fingerprint identical to the
    /// current one will fail identically, so rerunning it is stale.
    pub fn gate_is_stale(&self, command: &str, fingerprint: Option<&str>) -> (r: bool)
        ensures
            r == match result_for(self.last_gate_outcomes@, command@) {
                Some(j) => {
                    let prior = self.last_gate_outcomes@[j];
                    &&& !prior.passed
                    &&& fingerprint matches Some(f)
                    &&& prior.workspace_fingerprint matches Some(g)
                    &&& g@ == f@
                },
                None => false,
            },
    {
        proof {
            lemma_first_index_facts(
                self.last_gate_outcomes@,
                |o: GateOutcome| o.command@ == command@,
            );
        }
        match self.find_result(command) {
            None => false,
            Some(j) => {
                let prior = &self.last_gate_outcomes[j];
                if prior.passed {
                    return false;
                }
                match (fingerprint, &prior.workspace_fingerprint) {
                    (Some(f), Some(g)) => same_text(g.as_str(), f),
                    _ => false,
                }
            },
        }
    }

    /// The first configured gate whose latest result is a failure.
    fn first_failing_gate(&self) -> (r: Option<usize>)
        ensures
            match r {
                Some(i) => i < self.policy.gates@.len() && first_index(
                    self.policy.gates@,
                    |g: Gate| gate_failing(self.last_gate_outcomes@, g),
                ) == Some(i as int),
                None => first_index(
                    self.policy.gates@,
                    |g: Gate| gate_failing(self.last_gate_outcomes@, g),
                ) is None,
            },
    {
        let ghost outs = self.last_gate_outcomes@;
        let ghost p = |g: Gate| gate_failing(outs, g);
        let mut i: usize = 0;
        while i < self.policy.gates.len()
            invariant
                i <= self.policy.gates@.len(),
                outs == self.last_gate_outcomes@,
                p == (|g: Gate| gate_failing(outs, g)),
                forall|k: int| 0 <= k < i ==> !p(#[trigger] self.policy.gates@[k]),
            decreases self.policy.gates@.len() - i,
        {
            let found = self.find_result(self.policy.gates[i].command.as_str());
            match found {
                Some(j) => {
                    if !self.last_gate_outcomes[j].passed {
                        proof {
                            lemma_first_index_scan(self.policy.gates@, p, i as int);
                        }
                        return Some(i);
                    }
                },
                None => {},
            }
            i += 1;
        }
        proof {
            lemma_first_index_scan(self.policy.gates@, p, i as int);
        }
        None
    }

    /// The first configured gate with no recorded result.
    fn first_unrun_gate(&self) -> (r: Option<usize>)
        ensures
            match r {
                Some(i) => i < self.policy.gates@.len() && first_index(
                    self.policy.gates@,
                    |g: Gate| gate_unrun(self.last_gate_outcomes@, g),
                ) == Some(i as int),
                None => first_index(
                    self.policy.gates@,
                    |g: Gate| gate_unrun(self.last_gate_outcomes@, g),
                ) is None,
            },
    {
        let ghost outs = self.last_gate_outcomes@;
        let ghost p = |g: Gate| gate_unrun(outs, g);
        let mut i: usize = 0;
        while i < self.policy.gates.len()
            invariant
                i <= self.policy.gates@.len(),
                outs == self.last_gate_outcomes@,
                p == (|g: Gate| gate_unrun(outs, g)),
                forall|k: int| 0 <= k < i ==> !p(#[trigger] self.policy.gates@[k]),
            decreases self.policy.gates@.len() - i,
        {
            let found = self.find_result(self.policy.gates[i].command.as_str());
            if found.is_none() {
                proof {
                    lemma_first_index_scan(self.policy.gates@, p, i as int);
                }
                return Some(i);
            }
            i += 1;
        }
        proof {
            lemma_first_index_scan(self.policy.gates@, p, i as int);
        }
        None
    }

    /// The whole of autonomous mode's judgement. Limits are checked before
    /// gates on purpose: a run that is out of budget should say so, not spend
    /// more of it running a test suite.
    pub fn decide(&self, now: i64) -> (r: Continuation)
        requires
            self.usage.fits(),
        ensures
            (r.spec_label(), r.spec_reason()) == self.verdict(now as int),
    {
        if !self.policy.enabled {
            return Continuation::Finish { reason: owned("autonomous mode is off") };
        }
        let limits = self.policy.limits;
        if self.continuations >= limits.max_continuations {
            let mut m = owned("continuation limit reached (");
            let a = decimal_text(self.continuations as u64);
            push_str(&mut m, a.as_str());
            push_str(&mut m, " of ");
            let b = decimal_text(limits.max_continuations as u64);
            push_str(&mut m, b.as_str());
            push_str(&mut m, ")");
            return Continuation::Stop { reason: m };
        }
        if self.turns >= limits.max_turns {
            let mut m = owned("turn limit reached (");
            let a = decimal_text(self.turns as u64);
            push_str(&mut m, a.as_str());
            push_str(&mut m, " of ");
            let b = decimal_text(limits.max_turns as u64);
            push_str(&mut m, b.as_str());
            push_str(&mut m, ")");
            return Continuation::Stop { reason: m };
        }
        let tokens = self.usage.total_tokens();
        if tokens >= limits.max_tokens {
            let mut m = owned("token limit reached (");
            let a = decimal_text(tokens);
            push_str(&mut m, a.as_str());
            push_str(&mut m, " of ");
            let b = decimal_text(limits.max_tokens);
            push_str(&mut m, b.as_str());
            push_str(&mut m, ")");
            return Continuation::Stop { reason: m };
        }
        let elapsed = self.elapsed_secs(now);
        if elapsed >= limits.max_wall_clock_secs {
            let mut m = owned("time limit reached (");
            let a = decimal_text(elapsed);
            push_str(&mut m, a.as_str());
            push_str(&mut m, "s of ");
            let b = decimal_text(limits.max_wall_clock_secs);
            push_str(&mut m, b.as_str());
            push_str(&mut m, "s)");
            return Continuation::Stop { reason: m };
        }
        match self.first_failing_gate() {
            Some(i) => {
                let mut m = owned("gate failed: ");
                push_str(&mut m, self.policy.gates[i].command.as_str());
                return Continuation::Continue { reason: m };
            },
            None => {},
        }
        match self.first_unrun_gate() {
            Some(i) => {
                let mut m = owned("gate not yet run: ");
                push_str(&mut m, self.policy.gates[i].command.as_str());
                return Continuation::Continue { reason: m };
            },
            None => {},
        }
        if self.policy.gates.len() == 0 {
            Continuation::Finish { reason: owned("no gates configured and no limit reached") }
        } else {
            Continuation::Finish { reason: owned("all gates passed") }
        }
    }
}

/// Dropping a command's results leaves no result for that command.
pub proof fn lemma_without_command_excludes(outcomes: Seq<GateOutcome>, command: Seq<char>)
    ensures
        forall|k: int|
            0 <= k < without_command(outcomes, command).len() ==> (#[trigger] without_command(
                outcomes,
                command,
            )[k]).command@ != command,
    decreases outcomes.len(),
{
    if outcomes.len() > 0 {
        lemma_without_command_excludes(outcomes.drop_last(), command);
    }
}

/// Recording a gate replaces its previous result: afterwards the one result
/// for that command is the one just recorded.
pub proof fn lemma_recording_replaces(outcomes: Seq<GateOutcome>, outcome: GateOutcome)
    ensures
        ({
            let after = without_command(outcomes, outcome.command@).push(outcome);
            &&& result_for(after, outcome.command@) == Some(after.len() - 1)
            &&& forall|k: int|
                0 <= k < after.len() - 1 ==> (#[trigger] after[k]).command@ != outcome.command@
        }),
{
    let kept = without_command(outcomes, outcome.command@);
    let after = kept.push(outcome);
    lemma_without_command_excludes(outcomes, outcome.command@);
    assert forall|k: int| 0 <= k < after.len() - 1 implies (#[trigger] after[k]).command@
        != outcome.command@ by {
        assert(after[k] == kept[k]);
    }
    lemma_first_index_scan(after, |o: GateOutcome| o.command@ == outcome.command@, kept.len() as int);
}

/// A disabled policy never asks for another turn.
pub proof fn lemma_disabled_never_continues(state: AutonomousState, now: int)
    requires
        !state.policy.enabled,
    ensures
        state.verdict(now).0 != "continue"@,
{
    reveal_strlit("finish");
    reveal_strlit("continue");
    assert("finish"@[0] != "continue"@[0]);
}

/// A limit that is reached stops the run, whatever the gates say: it is
/// neither reported as finished nor spent on another turn.
pub proof fn lemma_limits_stop(state: AutonomousState, now: int)
    requires
        state.policy.enabled,
        ({
            let limits = state.policy.limits;
            ||| state.continuations >= limits.max_continuations
            ||| state.turns >= limits.max_turns
            ||| state.usage.spec_total() >= limits.max_tokens
            ||| seconds_between(state.started_at as int, now) >= limits.max_wall_clock_secs
        }),
    ensures
        state.verdict(now).0 == "stop"@,
{
}

/// A run finishes only when every configured gate's latest result passed.
pub proof fn lemma_finish_means_gates_passed(state: AutonomousState, now: int, i: int)
    requires
        state.policy.enabled,
        state.verdict(now).0 == "finish"@,
        0 <= i < state.policy.gates@.len(),
    ensures
        ({
            let outcomes = state.last_gate_outcomes@;
            match result_for(outcomes, state.policy.gates@[i].command@) {
                Some(j) => outcomes[j].passed,
                None => false,
            }
        }),
{
    reveal_strlit("finish");
    reveal_strlit("continue");
    reveal_strlit("stop");
    assert("finish"@[0] != "continue"@[0]);
    assert("finish"@[0] != "stop"@[0]);
    let outcomes = state.last_gate_outcomes@;
    let gates = state.policy.gates@;
    lemma_first_index_facts(gates, |g: Gate| gate_failing(outcomes, g));
    lemma_first_index_facts(gates, |g: Gate| gate_unrun(outcomes, g));
    assert(!gate_failing(outcomes, gates[i]));
    assert(!gate_unrun(outcomes, gates[i]));
}

/// What one autonomous step concluded, with the evidence behind it.
#[derive(Debug, Clone, PartialEq, Eq)]
pub struct StepReport {
    pub decision: Continuation,
    pub gates: Vec<GateOutcome>,
    /// Gates that were not re-run because the workspace had not changed since
    /// they last failed.
    pub skipped_gates: Vec<String>,
}

/// The report of a step taken while autonomous mode is off: finish, with
/// nothing run.
pub fn step_when_off() -> (r: StepReport)
    ensures
        r.decision matches Continuation::Finish { reason } && reason@ == "autonomous mode is off"@,
        r.gates@.len() == 0,
        r.skipped_gates@.len() == 0,
{
    StepReport {
        decision: Continuation::Finish { reason: owned("autonomous mode is off") },
        gates: Vec::new(),
        skipped_gates: Vec::new(),
    }
}

impl AutonomousState {
    /// Concludes a step once its gates have run (`ran`) or been skipped
    /// (`skipped`): decides, and counts a continuation when the decision is
    /// to continue.
    pub fn conclude(&mut self, ran: Vec<GateOutcome>, skipped: Vec<String>, now: i64) -> (r:
        StepReport)
        requires
            old(self).usage.fits(),
        ensures
            (r.decision.spec_label(), r.decision.spec_reason()) == old(self).verdict(now as int),
            r.gates == ran,
            r.skipped_gates == skipped,
            *final(self) == (if r.decision is Continue {
                AutonomousState {
                    continuations: (old(self).continuations + 1) as u32,
                    updated_at: now,
                    ..*old(self)
                }
            } else {
                *old(self)
            }),
    {
        let decision = self.decide(now);
        proof {
            reveal_strlit("continue");
            reveal_strlit("finish");
            reveal_strlit("stop");
            assert("continue"@[0] != "finish"@[0]);
            assert("continue"@[0] != "stop"@[0]);
        }
        if decision.should_continue() {
            self.record_continuation(now);
        }
        StepReport { decision, gates: ran, skipped_gates: skipped }
    }
}

/// Some gate in `gates` failed.
pub open spec fn any_failing(gates: Seq<GateOutcome>) -> bool
    decreases gates.len(),
{
    gates.len() > 0 && (!gates.last().passed || any_failing(gates.drop_last()))
}

/// The exit code a gate is reported with: its own, or -1 when it had none.
pub open spec fn exit_shown(g: GateOutcome) -> int {
    match g.exit_code {
        Some(c) => c as int,
        None => -1,
    }
}

/// Each failing gate in `gates`, in order: its command, its exit code and its
/// trimmed output.
pub open spec fn failing_gates_text(gates: Seq<GateOutcome>) -> Seq<char>
    decreases gates.len(),
{
    if gates.len() == 0 {
        Seq::empty()
    } else {
        let rest = failing_gates_text(gates.drop_last());
        let g = gates.last();
        if !g.passed {
            rest + "\n$ "@ + g.command@ + "\nexit "@ + signed_decimal(exit_shown(g)) + "\n"@ + trim(
                g.output@,
            ) + "\n"@
        } else {
            rest
        }
    }
}

/// The follow-up text a report hands back to the agent, if it continues.
pub open spec fn follow_up(report: StepReport) -> Option<Seq<char>> {
    if !(report.decision is Continue) {
        None
    } else if !any_failing(report.gates@) {
        Some("<autonomous>"@ + report.decision.spec_reason() + "</autonomous>"@)
    } else {
        Some(
            "<autonomous>\nA quality gate is failing.\n"@ + failing_gates_text(report.gates@)
                + "\nFix the cause, then let the "@ + "gate run again.\n</autonomous>"@,
        )
    }
}

impl StepReport {
    /// The follow-up text handed back to the agent when the step continues.
    ///
    /// It carries each failing gate's own output verbatim (already clipped):
    /// paraphrasing a compiler error helps nobody.
    pub fn continuation_prompt(&self) -> (r: Option<String>)
        ensures
            match r {
                Some(p) => follow_up(*self) == Some(p@),
                None => follow_up(*self) is None,
            },
    {
        if !self.decision.should_continue() {
            return None;
        }
        let mut block = String::new();
        let mut failing = false;
        let mut i: usize = 0;
        assert(self.gates@.take(0) =~= Seq::<GateOutcome>::empty());
        while i < self.gates.len()
            invariant
                i <= self.gates@.len(),
                block@ == failing_gates_text(self.gates@.take(i as int)),
                failing == any_failing(self.gates@.take(i as int)),
            decreases self.gates@.len() - i,
        {
            let g = &self.gates[i];
            proof {
                assert(self.gates@.take(i + 1).drop_last() =~= self.gates@.take(i as int));
                assert(self.gates@.take(i + 1).last() == *g);
            }
            if !g.passed {
                push_str(&mut block, "\n$ ");
                push_str(&mut block, g.command.as_str());
                push_str(&mut block, "\nexit ");
                let code: i64 = match g.exit_code {
                    Some(c) => c as i64,
                    None => -1,
                };
                let t = signed_decimal_text(code);
                push_str(&mut block, t.as_str());
                push_str(&mut block, "\n");
                let out = trimmed(g.output.as_str());
                push_chars(&mut block, out.as_slice());
                push_str(&mut block, "\n");
                failing = true;
            }
            i += 1;
        }
        assert(self.gates@.take(self.gates@.len() as int) =~= self.gates@);
        if !failing {
            let mut p = owned("<autonomous>");
            push_str(&mut p, self.decision.reason());
            push_str(&mut p, "</autonomous>");
            return Some(p);
        }
        let mut p = owned("<autonomous>\nA quality gate is failing.\n");
        push_str(&mut p, block.as_str());
        push_str(&mut p, "\nFix the cause, then let the ");
        push_str(&mut p, "gate run again.\n</autonomous>");
        Some(p)
    }
}

} // verus!
