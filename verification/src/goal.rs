//! Durable objectives that outlive a turn.
//!
//! The rule that matters: only [`Goal::complete`] marks success. Running out
//! of budget, being paused and being cleared are all distinct outcomes,
//! because a harness that reports "done" when it actually ran out of money is
//! worse than one that reports nothing.
use vstd::prelude::*;

use crate::error::{DomainError, Result};
use crate::session::Usage;
use crate::text::{decimal, decimal_text, join2, owned, push_str, string_of, trim, trimmed};

verus! {

#[derive(Debug, Clone, Copy, PartialEq, Eq, Structural)]
pub enum GoalStatus {
    Active,
    Paused,
    Completed,
    /// Stopped because a configured budget ran out, not because it was done.
    BudgetExhausted,
    Errored,
    Cleared,
}

impl GoalStatus {
    pub open spec fn spec_is_terminal(self) -> bool {
        self is Completed || self is BudgetExhausted || self is Errored || self is Cleared
    }

    pub fn is_terminal(self) -> (r: bool)
        ensures
            r == self.spec_is_terminal(),
    {
        match self {
            GoalStatus::Completed | GoalStatus::BudgetExhausted | GoalStatus::Errored
            | GoalStatus::Cleared => true,
            _ => false,
        }
    }

    pub open spec fn spec_label(self) -> Seq<char> {
        match self {
            GoalStatus::Active => "active"@,
            GoalStatus::Paused => "paused"@,
            GoalStatus::Completed => "completed"@,
            GoalStatus::BudgetExhausted => "budget-exhausted"@,
            GoalStatus::Errored => "errored"@,
            GoalStatus::Cleared => "cleared"@,
        }
    }

    pub fn label(self) -> (r: &'static str)
        ensures
            r@ == self.spec_label(),
    {
        match self {
            GoalStatus::Active => "active",
            GoalStatus::Paused => "paused",
            GoalStatus::Completed => "completed",
            GoalStatus::BudgetExhausted => "budget-exhausted",
            GoalStatus::Errored => "errored",
            GoalStatus::Cleared => "cleared",
        }
    }
}

/// The ways a goal's status can be asked to change.
#[derive(Debug, Clone, Copy, PartialEq, Eq, Structural)]
pub enum GoalOp {
    Observe,
    RecordContinuation,
    Pause,
    Resume,
    Complete,
    Clear,
    Fail,
}

/// The status a goal moves to under `op`, or `None` when the operation is
/// refused; `exhausted` says whether the observed costs put it over budget.
pub open spec fn status_after(op: GoalOp, s: GoalStatus, exhausted: bool) -> Option<GoalStatus> {
    match op {
        GoalOp::Observe => if s is Active && exhausted {
            Some(GoalStatus::BudgetExhausted)
        } else {
            Some(s)
        },
        GoalOp::RecordContinuation => Some(s),
        GoalOp::Pause => if s.spec_is_terminal() {
            None
        } else {
            Some(GoalStatus::Paused)
        },
        GoalOp::Resume => if s is Paused {
            Some(GoalStatus::Active)
        } else {
            None
        },
        GoalOp::Complete => if s.spec_is_terminal() {
            None
        } else {
            Some(GoalStatus::Completed)
        },
        GoalOp::Clear => Some(GoalStatus::Cleared),
        GoalOp::Fail => Some(GoalStatus::Errored),
    }
}

/// Only completing a goal marks it a success: no other operation moves a goal
/// into `Completed`.
pub proof fn lemma_only_complete_succeeds(op: GoalOp, s: GoalStatus, exhausted: bool)
    requires
        op != GoalOp::Complete,
        status_after(op, s, exhausted) == Some(GoalStatus::Completed),
    ensures
        s == GoalStatus::Completed,
{
}

/// A goal that has ended, on budget, by error, by clearing or by success, can
/// no longer be completed; running out of budget cannot be relabelled success.
pub proof fn lemma_ended_goals_stay_ended(s: GoalStatus, exhausted: bool)
    requires
        s.spec_is_terminal(),
    ensures
        status_after(GoalOp::Complete, s, exhausted) is None,
        status_after(GoalOp::Pause, s, exhausted) is None,
        status_after(GoalOp::Resume, s, exhausted) is None,
        status_after(GoalOp::Observe, s, exhausted) == Some(s),
{
}

/// Spending past the budget stops an active goal as exhausted, never as completed.
pub proof fn lemma_exhaustion_is_not_completion(s: GoalStatus)
    requires
        s == GoalStatus::Active,
    ensures
        status_after(GoalOp::Observe, s, true) == Some(GoalStatus::BudgetExhausted),
        status_after(GoalOp::Observe, s, true) != Some(GoalStatus::Completed),
{
}

/// Each limit binds on its own: a goal whose spent tokens, elapsed seconds
/// or continuations have reached the limit set for them is over budget,
/// whatever the other limits say; with no limit set it never is.
pub proof fn lemma_each_limit_binds(budget: GoalBudget, progress: GoalProgress)
    ensures
        (budget.tokens matches Some(l) && progress.tokens_used >= l) ==> exceeds(budget, progress),
        (budget.wall_clock_secs matches Some(l) && progress.elapsed_secs >= l) ==> exceeds(
            budget,
            progress,
        ),
        (budget.continuations matches Some(l) && progress.continuations >= l) ==> exceeds(
            budget,
            progress,
        ),
        budget.tokens is None && budget.wall_clock_secs is None && budget.continuations is None
            ==> !exceeds(budget, progress),
{
}

/// The wall clock stops an active goal: observed once its wall-clock limit
/// has passed since it was created, it is over budget whatever it spent, so
/// observing leaves it exhausted rather than running on.
pub proof fn lemma_wall_clock_stops(
    budget: GoalBudget,
    tokens_used: u64,
    continuations: u32,
    created: int,
    now: int,
)
    requires
        budget.wall_clock_secs matches Some(l) && now - created >= l,
        now - created <= u64::MAX,
    ensures
        exceeds(
            budget,
            GoalProgress { tokens_used, continuations, elapsed_secs: elapsed_between(created, now) as u64 },
        ),
        status_after(GoalOp::Observe, GoalStatus::Active, true) == Some(GoalStatus::BudgetExhausted),
{
}

#[derive(Debug, Clone, Copy, PartialEq, Eq, Structural)]
pub struct GoalBudget {
    pub tokens: Option<u64>,
    pub wall_clock_secs: Option<u64>,
    pub continuations: Option<u32>,
}

impl Default for GoalBudget {
    fn default() -> (r: Self)
        ensures
            r == (GoalBudget { tokens: None, wall_clock_secs: None, continuations: None }),
    {
        GoalBudget { tokens: None, wall_clock_secs: None, continuations: None }
    }
}

#[derive(Debug, Clone, Copy, PartialEq, Eq, Structural)]
pub struct GoalProgress {
    pub tokens_used: u64,
    pub continuations: u32,
    pub elapsed_secs: u64,
}

impl Default for GoalProgress {
    fn default() -> (r: Self)
        ensures
            r == (GoalProgress { tokens_used: 0, continuations: 0, elapsed_secs: 0 }),
    {
        GoalProgress { tokens_used: 0, continuations: 0, elapsed_secs: 0 }
    }
}

/// A discrete step within an overarching goal.
#[derive(Debug, Clone, PartialEq, Eq)]
pub struct ChecklistItem {
    pub id: u32,
    pub text: String,
    pub completed: bool,
    pub completed_at: Option<i64>,
}

impl ChecklistItem {
    pub fn new(id: u32, text: &str) -> (r: Self)
        ensures
            r.id == id,
            r.text@ == trim(text@),
            !r.completed,
            r.completed_at is None,
    {
        let t = trimmed(text);
        ChecklistItem { id, text: string_of(t.as_slice()), completed: false, completed_at: None }
    }

    pub fn duplicate(&self) -> (r: Self)
        ensures
            r == *self,
    {
        ChecklistItem {
            id: self.id,
            text: self.text.clone(),
            completed: self.completed,
            completed_at: self.completed_at,
        }
    }
}

/// The largest step id in use, 0 for none.
pub open spec fn max_id(list: Seq<ChecklistItem>) -> nat
    decreases list.len(),
{
    if list.len() == 0 {
        0
    } else {
        let rest = max_id(list.drop_last());
        if list.last().id > rest {
            list.last().id as nat
        } else {
            rest
        }
    }
}

/// Where the first step with `id` stands.
pub open spec fn index_of_step(list: Seq<ChecklistItem>, id: u32) -> Option<int>
    decreases list.len(),
{
    if list.len() == 0 {
        None
    } else if list[0].id == id {
        Some(0)
    } else {
        match index_of_step(list.drop_first(), id) {
            Some(i) => Some(i + 1),
            None => None,
        }
    }
}

/// Where the first unfinished step stands.
pub open spec fn index_of_open(list: Seq<ChecklistItem>) -> Option<int>
    decreases list.len(),
{
    if list.len() == 0 {
        None
    } else if !list[0].completed {
        Some(0)
    } else {
        match index_of_open(list.drop_first()) {
            Some(i) => Some(i + 1),
            None => None,
        }
    }
}

/// The list without any step carrying `id`.
pub open spec fn without_step(list: Seq<ChecklistItem>, id: u32) -> Seq<ChecklistItem>
    decreases list.len(),
{
    if list.len() == 0 {
        list
    } else {
        let rest = without_step(list.drop_last(), id);
        if list.last().id == id {
            rest
        } else {
            rest.push(list.last())
        }
    }
}

/// How many steps are done.
pub open spec fn count_done(list: Seq<ChecklistItem>) -> nat
    decreases list.len(),
{
    if list.len() == 0 {
        0
    } else {
        count_done(list.drop_last()) + if list.last().completed {
            1nat
        } else {
            0nat
        }
    }
}

pub proof fn lemma_index_of_step(list: Seq<ChecklistItem>, id: u32, i: int)
    requires
        0 <= i <= list.len(),
        forall|k: int| 0 <= k < i ==> list[k].id != id,
    ensures
        i < list.len() && list[i].id == id ==> index_of_step(list, id) == Some(i),
        i == list.len() ==> index_of_step(list, id) is None,
    decreases i,
{
    if i > 0 {
        lemma_index_of_step(list.drop_first(), id, i - 1);
    }
}

pub proof fn lemma_index_of_open(list: Seq<ChecklistItem>, i: int)
    requires
        0 <= i <= list.len(),
        forall|k: int| 0 <= k < i ==> list[k].completed,
    ensures
        i < list.len() && !list[i].completed ==> index_of_open(list) == Some(i),
        i == list.len() ==> index_of_open(list) is None,
    decreases i,
{
    if i > 0 {
        lemma_index_of_open(list.drop_first(), i - 1);
    }
}

pub proof fn lemma_without_absent(list: Seq<ChecklistItem>, id: u32)
    requires
        index_of_step(list, id) is None,
    ensures
        without_step(list, id) == list,
    decreases list.len(),
{
    if list.len() > 0 {
        lemma_index_of_step_none(list, id);
        lemma_no_step_prefix(list, id);
        lemma_without_absent(list.drop_last(), id);
        assert(list.drop_last().push(list.last()) =~= list);
    }
}

pub proof fn lemma_index_of_step_none(list: Seq<ChecklistItem>, id: u32)
    requires
        index_of_step(list, id) is None,
    ensures
        forall|k: int| 0 <= k < list.len() ==> list[k].id != id,
    decreases list.len(),
{
    if list.len() > 0 {
        lemma_index_of_step_none(list.drop_first(), id);
        assert forall|k: int| 0 <= k < list.len() implies list[k].id != id by {
            if k > 0 {
                assert(list[k] == list.drop_first()[k - 1]);
            }
        }
    }
}

pub proof fn lemma_no_step_prefix(list: Seq<ChecklistItem>, id: u32)
    requires
        list.len() > 0,
        forall|k: int| 0 <= k < list.len() ==> list[k].id != id,
    ensures
        index_of_step(list.drop_last(), id) is None,
{
    lemma_index_of_step(list.drop_last(), id, list.len() - 1);
}

/// A durable objective that outlives a turn. Instants are seconds since
/// 1970-01-01T00:00:00Z.
#[derive(Debug, Clone, PartialEq, Eq)]
pub struct Goal {
    pub session_id: String,
    pub objective: String,
    pub status: GoalStatus,
    pub budget: GoalBudget,
    pub progress: GoalProgress,
    pub checklist: Vec<ChecklistItem>,
    pub created_at: i64,
    pub updated_at: i64,
    pub completed_at: Option<i64>,
    /// Why it stopped, when it stopped for a reason worth reading.
    pub note: Option<String>,
}

/// Some budget limit has been reached.
pub open spec fn exceeds(budget: GoalBudget, progress: GoalProgress) -> bool {
    ||| budget.tokens matches Some(limit) && progress.tokens_used >= limit
    ||| budget.wall_clock_secs matches Some(limit) && progress.elapsed_secs >= limit
    ||| budget.continuations matches Some(limit) && progress.continuations >= limit
}

/// Seconds from `from` to `to`, zero when `to` comes first.
pub open spec fn elapsed_between(from: int, to: int) -> int {
    if to > from {
        to - from
    } else {
        0
    }
}

/// The goal's fields other than status, note, progress, checklist and times are unchanged.
pub open spec fn same_identity(a: Goal, b: Goal) -> bool {
    &&& a.session_id == b.session_id
    &&& a.objective == b.objective
    &&& a.budget == b.budget
    &&& a.created_at == b.created_at
}

impl Goal {
    pub open spec fn spec_over_budget(self) -> bool {
        exceeds(self.budget, self.progress)
    }

    pub open spec fn spec_should_continue(self) -> bool {
        self.status == GoalStatus::Active && !self.spec_over_budget()
    }

    pub fn new(session_id: &str, objective: &str, budget: GoalBudget, now: i64) -> (r: Result<Self>)
        ensures
            match r {
                Ok(g) => {
                    &&& trim(objective@).len() > 0
                    &&& g.session_id@ == session_id@
                    &&& g.objective@ == trim(objective@)
                    &&& g.status == GoalStatus::Active
                    &&& g.budget == budget
                    &&& g.progress == (GoalProgress { tokens_used: 0, continuations: 0, elapsed_secs: 0 })
                    &&& g.checklist@.len() == 0
                    &&& g.created_at == now && g.updated_at == now
                    &&& g.completed_at is None && g.note is None
                },
                Err(e) => trim(objective@).len() == 0 && e is Invalid,
            },
    {
        let text = trimmed(objective);
        if text.len() == 0 {
            return Err(DomainError::invalid("a goal needs an objective"));
        }
        Ok(Goal {
            session_id: owned(session_id),
            objective: string_of(text.as_slice()),
            status: GoalStatus::Active,
            budget,
            progress: GoalProgress::default(),
            checklist: Vec::new(),
            created_at: now,
            updated_at: now,
            completed_at: None,
            note: None,
        })
    }

    /// Records what a turn cost and re-checks the budget.
    ///
    /// Returns true when this observation exhausted the budget, so the caller
    /// can say so rather than discovering it on the next continuation.
    pub fn observe(&mut self, usage: &Usage, now: i64) -> (r: bool)
        requires
            usage.fits(),
            old(self).progress.tokens_used + usage.spec_total() <= u64::MAX,
        ensures
            same_identity(*old(self), *final(self)),
            final(self).checklist == old(self).checklist,
            final(self).completed_at == old(self).completed_at,
            final(self).updated_at == now,
            final(self).progress == (GoalProgress {
                tokens_used: (old(self).progress.tokens_used + usage.spec_total()) as u64,
                continuations: old(self).progress.continuations,
                elapsed_secs: elapsed_between(old(self).created_at as int, now as int) as u64,
            }),
            r == (old(self).status == GoalStatus::Active && exceeds(
                final(self).budget,
                final(self).progress,
            )),
            Some(final(self).status) == status_after(GoalOp::Observe, old(self).status, r),
            r ==> (final(self).note matches Some(n) && n@ == "stopped on budget, not on completion"@),
            !r ==> final(self).note == old(self).note,
            old(self).status == GoalStatus::Active && (old(self).budget.wall_clock_secs matches Some(
                l,
            ) && now - old(self).created_at >= l) ==> r && final(self).status
                == GoalStatus::BudgetExhausted && !final(self).spec_should_continue(),
            old(self).status == GoalStatus::Active && (old(self).budget.tokens matches Some(l)
                && old(self).progress.tokens_used + usage.spec_total() >= l) ==> r
                && final(self).status == GoalStatus::BudgetExhausted,
    {
        self.progress.tokens_used = self.progress.tokens_used + usage.total_tokens();
        let span: i128 = now as i128 - self.created_at as i128;
        self.progress.elapsed_secs = if span > 0 {
            span as u64
        } else {
            0
        };
        self.updated_at = now;
        if self.status == GoalStatus::Active && self.over_budget() {
            self.status = GoalStatus::BudgetExhausted;
            self.note = Some(owned("stopped on budget, not on completion"));
            return true;
        }
        false
    }

    pub fn over_budget(&self) -> (r: bool)
        ensures
            r == self.spec_over_budget(),
            self.budget.wall_clock_secs matches Some(l) && self.progress.elapsed_secs >= l ==> r,
            self.budget.tokens matches Some(l) && self.progress.tokens_used >= l ==> r,
            self.budget.continuations matches Some(l) && self.progress.continuations >= l ==> r,
    {
        let tokens = match self.budget.tokens {
            Some(limit) => self.progress.tokens_used >= limit,
            None => false,
        };
        let wall = match self.budget.wall_clock_secs {
            Some(limit) => self.progress.elapsed_secs >= limit,
            None => false,
        };
        let continuations = match self.budget.continuations {
            Some(limit) => self.progress.continuations >= limit,
            None => false,
        };
        tokens || wall || continuations
    }

    /// Should the harness present this goal again after an ordinary turn?
    pub fn should_continue(&self) -> (r: bool)
        ensures
            r == self.spec_should_continue(),
    {
        self.status == GoalStatus::Active && !self.over_budget()
    }

    pub fn record_continuation(&mut self, now: i64)
        requires
            old(self).progress.continuations < u32::MAX,
        ensures
            same_identity(*old(self), *final(self)),
            final(self).status == old(self).status,
            final(self).note == old(self).note,
            final(self).checklist == old(self).checklist,
            final(self).completed_at == old(self).completed_at,
            final(self).progress == (GoalProgress {
                continuations: (old(self).progress.continuations + 1) as u32,
                ..old(self).progress
            }),
            final(self).updated_at == now,
    {
        self.progress.continuations = self.progress.continuations + 1;
        self.updated_at = now;
    }

    pub fn pause(&mut self, now: i64) -> (r: Result<()>)
        ensures
            same_identity(*old(self), *final(self)),
            final(self).note == old(self).note,
            final(self).progress == old(self).progress,
            final(self).checklist == old(self).checklist,
            final(self).completed_at == old(self).completed_at,
            match status_after(GoalOp::Pause, old(self).status, false) {
                Some(s) => r is Ok && final(self).status == s && final(self).updated_at == now,
                None => r matches Err(e) && e is Forbidden && *final(self) == *old(self),
            },
    {
        self.transition_from_live(now, GoalStatus::Paused, "pause")
    }

    pub fn resume(&mut self, now: i64) -> (r: Result<()>)
        ensures
            same_identity(*old(self), *final(self)),
            final(self).note == old(self).note,
            final(self).progress == old(self).progress,
            final(self).checklist == old(self).checklist,
            final(self).completed_at == old(self).completed_at,
            match status_after(GoalOp::Resume, old(self).status, false) {
                Some(s) => r is Ok && final(self).status == s && final(self).updated_at == now,
                None => r matches Err(e) && e is Forbidden && *final(self) == *old(self),
            },
    {
        if self.status != GoalStatus::Paused {
            let m = join2("only a paused goal can resume; this one is ", self.status.label());
            return Err(DomainError::Forbidden(m));
        }
        self.status = GoalStatus::Active;
        self.updated_at = now;
        Ok(())
    }

    /// The only way to succeed.
    pub fn complete(&mut self, now: i64) -> (r: Result<()>)
        ensures
            same_identity(*old(self), *final(self)),
            final(self).note == old(self).note,
            final(self).progress == old(self).progress,
            final(self).checklist == old(self).checklist,
            match status_after(GoalOp::Complete, old(self).status, false) {
                Some(s) => r is Ok && final(self).status == s && final(self).updated_at == now
                    && final(self).completed_at == Some(now),
                None => r matches Err(e) && e is Forbidden && *final(self) == *old(self),
            },
    {
        if self.status.is_terminal() {
            let m = join2("this goal already ended as ", self.status.label());
            return Err(DomainError::Forbidden(m));
        }
        self.status = GoalStatus::Completed;
        self.completed_at = Some(now);
        self.updated_at = now;
        Ok(())
    }

    pub fn clear(&mut self, now: i64)
        ensures
            same_identity(*old(self), *final(self)),
            final(self).note == old(self).note,
            final(self).progress == old(self).progress,
            final(self).checklist == old(self).checklist,
            final(self).completed_at == old(self).completed_at,
            Some(final(self).status) == status_after(GoalOp::Clear, old(self).status, false),
            final(self).updated_at == now,
    {
        self.status = GoalStatus::Cleared;
        self.updated_at = now;
    }

    pub fn fail(&mut self, reason: &str, now: i64)
        ensures
            same_identity(*old(self), *final(self)),
            final(self).progress == old(self).progress,
            final(self).checklist == old(self).checklist,
            final(self).completed_at == old(self).completed_at,
            Some(final(self).status) == status_after(GoalOp::Fail, old(self).status, false),
            final(self).note matches Some(n) && n@ == reason@,
            final(self).updated_at == now,
    {
        self.status = GoalStatus::Errored;
        self.note = Some(owned(reason));
        self.updated_at = now;
    }

    pub fn remaining_tokens(&self) -> (r: Option<u64>)
        ensures
            r == (match self.budget.tokens {
                Some(limit) => Some(
                    (if limit >= self.progress.tokens_used {
                        limit - self.progress.tokens_used
                    } else {
                        0
                    }) as u64,
                ),
                None => None,
            }),
    {
        match self.budget.tokens {
            Some(limit) => Some(limit.saturating_sub(self.progress.tokens_used)),
            None => None,
        }
    }

    /// Seconds between creation and the last observation.
    pub fn elapsed(&self) -> (r: u64)
        ensures
            r == self.progress.elapsed_secs,
    {
        self.progress.elapsed_secs
    }

    fn largest_step_id(&self) -> (r: u32)
        ensures
            r == max_id(self.checklist@),
    {
        let mut best: u32 = 0;
        let mut i: usize = 0;
        assert(self.checklist@.take(0) =~= Seq::<ChecklistItem>::empty());
        while i < self.checklist.len()
            invariant
                i <= self.checklist.len(),
                best == max_id(self.checklist@.take(i as int)),
            decreases self.checklist.len() - i,
        {
            assert(self.checklist@.take(i + 1).drop_last() =~= self.checklist@.take(i as int));
            if self.checklist[i].id > best {
                best = self.checklist[i].id;
            }
            i += 1;
        }
        assert(self.checklist@.take(self.checklist.len() as int) =~= self.checklist@);
        best
    }

    /// Appends a step numbered one past the largest in use.
    pub fn add_step(&mut self, text: &str, now: i64) -> (r: Result<u32>)
        requires
            max_id(old(self).checklist@) < u32::MAX,
        ensures
            same_identity(*old(self), *final(self)),
            final(self).status == old(self).status,
            final(self).note == old(self).note,
            final(self).progress == old(self).progress,
            final(self).completed_at == old(self).completed_at,
            match r {
                Ok(id) => {
                    &&& trim(text@).len() > 0
                    &&& id == max_id(old(self).checklist@) + 1
                    &&& final(self).checklist@.len() == old(self).checklist@.len() + 1
                    &&& final(self).checklist@.drop_last() == old(self).checklist@
                    &&& final(self).checklist@.last().id == id
                    &&& final(self).checklist@.last().text@ == trim(text@)
                    &&& !final(self).checklist@.last().completed
                    &&& final(self).checklist@.last().completed_at is None
                    &&& final(self).updated_at == now
                },
                Err(e) => trim(text@).len() == 0 && e is Invalid && *final(self) == *old(self),
            },
    {
        let t = trimmed(text);
        if t.len() == 0 {
            return Err(DomainError::invalid("checklist step cannot be empty"));
        }
        let next_id = self.largest_step_id() + 1;
        let item = ChecklistItem::new(next_id, text);
        self.checklist.push(item);
        self.updated_at = now;
        assert(self.checklist@.drop_last() =~= old(self).checklist@);
        Ok(next_id)
    }

    fn find_step(&self, id: u32) -> (r: Option<usize>)
        ensures
            r matches Some(i) ==> index_of_step(self.checklist@, id) == Some(i as int) && i
                < self.checklist.len(),
            r is None ==> index_of_step(self.checklist@, id) is None,
    {
        let mut i: usize = 0;
        while i < self.checklist.len()
            invariant
                i <= self.checklist.len(),
                forall|k: int| 0 <= k < i ==> self.checklist@[k].id != id,
            decreases self.checklist.len() - i,
        {
            if self.checklist[i].id == id {
                proof {
                    lemma_index_of_step(self.checklist@, id, i as int);
                }
                return Some(i);
            }
            i += 1;
        }
        proof {
            lemma_index_of_step(self.checklist@, id, i as int);
        }
        None
    }

    /// Marks the step done. `Ok(false)` when it already was.
    pub fn check_step(&mut self, id: u32, now: i64) -> (r: Result<bool>)
        ensures
            same_identity(*old(self), *final(self)),
            final(self).status == old(self).status,
            final(self).note == old(self).note,
            final(self).progress == old(self).progress,
            final(self).completed_at == old(self).completed_at,
            match index_of_step(old(self).checklist@, id) {
                Some(i) => if old(self).checklist@[i].completed {
                    r == Ok::<bool, DomainError>(false) && *final(self) == *old(self)
                } else {
                    &&& r == Ok::<bool, DomainError>(true)
                    &&& final(self).checklist@ == old(self).checklist@.update(
                        i,
                        ChecklistItem {
                            completed: true,
                            completed_at: Some(now),
                            ..old(self).checklist@[i]
                        },
                    )
                    &&& final(self).updated_at == now
                },
                None => r matches Err(e) && e is NotFound && *final(self) == *old(self),
            },
    {
        match self.find_step(id) {
            Some(i) => {
                if !self.checklist[i].completed {
                    let mut item = self.checklist[i].duplicate();
                    item.completed = true;
                    item.completed_at = Some(now);
                    self.checklist.set(i, item);
                    self.updated_at = now;
                    return Ok(true);
                }
                Ok(false)
            },
            None => {
                let t = decimal_text(id as u64);
                Err(DomainError::not_found("checklist_item", t.as_str()))
            },
        }
    }

    /// Marks the step not done. `Ok(false)` when it already was not.
    pub fn uncheck_step(&mut self, id: u32, now: i64) -> (r: Result<bool>)
        ensures
            same_identity(*old(self), *final(self)),
            final(self).status == old(self).status,
            final(self).note == old(self).note,
            final(self).progress == old(self).progress,
            final(self).completed_at == old(self).completed_at,
            match index_of_step(old(self).checklist@, id) {
                Some(i) => if !old(self).checklist@[i].completed {
                    r == Ok::<bool, DomainError>(false) && *final(self) == *old(self)
                } else {
                    &&& r == Ok::<bool, DomainError>(true)
                    &&& final(self).checklist@ == old(self).checklist@.update(
                        i,
                        ChecklistItem {
                            completed: false,
                            completed_at: None,
                            ..old(self).checklist@[i]
                        },
                    )
                    &&& final(self).updated_at == now
                },
                None => r matches Err(e) && e is NotFound && *final(self) == *old(self),
            },
    {
        match self.find_step(id) {
            Some(i) => {
                if self.checklist[i].completed {
                    let mut item = self.checklist[i].duplicate();
                    item.completed = false;
                    item.completed_at = None;
                    self.checklist.set(i, item);
                    self.updated_at = now;
                    return Ok(true);
                }
                Ok(false)
            },
            None => {
                let t = decimal_text(id as u64);
                Err(DomainError::not_found("checklist_item", t.as_str()))
            },
        }
    }

    /// Removes every step numbered `id`.
    pub fn remove_step(&mut self, id: u32, now: i64) -> (r: Result<bool>)
        ensures
            same_identity(*old(self), *final(self)),
            final(self).status == old(self).status,
            final(self).note == old(self).note,
            final(self).progress == old(self).progress,
            final(self).completed_at == old(self).completed_at,
            match index_of_step(old(self).checklist@, id) {
                Some(i) => r == Ok::<bool, DomainError>(true) && final(self).checklist@ == without_step(
                    old(self).checklist@,
                    id,
                ) && final(self).updated_at == now,
                None => r matches Err(e) && e is NotFound && *final(self) == *old(self),
            },
    {
        let found = self.find_step(id);
        if found.is_none() {
            proof {
                lemma_without_absent(self.checklist@, id);
            }
            let t = decimal_text(id as u64);
            return Err(DomainError::not_found("checklist_item", t.as_str()));
        }
        let mut kept: Vec<ChecklistItem> = Vec::new();
        let mut i: usize = 0;
        assert(self.checklist@.take(0) =~= Seq::<ChecklistItem>::empty());
        while i < self.checklist.len()
            invariant
                i <= self.checklist.len(),
                kept@ == without_step(self.checklist@.take(i as int), id),
            decreases self.checklist.len() - i,
        {
            assert(self.checklist@.take(i + 1).drop_last() =~= self.checklist@.take(i as int));
            if self.checklist[i].id != id {
                kept.push(self.checklist[i].duplicate());
            }
            i += 1;
        }
        assert(self.checklist@.take(self.checklist.len() as int) =~= self.checklist@);
        self.checklist = kept;
        self.updated_at = now;
        Ok(true)
    }

    /// The first step not yet done.
    pub fn next_step(&self) -> (r: Option<&ChecklistItem>)
        ensures
            match index_of_open(self.checklist@) {
                Some(i) => r == Some(&self.checklist@[i]),
                None => r is None,
            },
    {
        let mut i: usize = 0;
        while i < self.checklist.len()
            invariant
                i <= self.checklist.len(),
                forall|k: int| 0 <= k < i ==> self.checklist@[k].completed,
            decreases self.checklist.len() - i,
        {
            if !self.checklist[i].completed {
                proof {
                    lemma_index_of_open(self.checklist@, i as int);
                }
                return Some(&self.checklist[i]);
            }
            i += 1;
        }
        proof {
            lemma_index_of_open(self.checklist@, i as int);
        }
        None
    }

    pub fn all_steps_completed(&self) -> (r: bool)
        ensures
            r == (self.checklist@.len() > 0 && forall|k: int|
                0 <= k < self.checklist@.len() ==> #[trigger] self.checklist@[k].completed),
    {
        if self.checklist.len() == 0 {
            return false;
        }
        let mut i: usize = 0;
        while i < self.checklist.len()
            invariant
                i <= self.checklist.len(),
                forall|k: int| 0 <= k < i ==> #[trigger] self.checklist@[k].completed,
            decreases self.checklist.len() - i,
        {
            if !self.checklist[i].completed {
                return false;
            }
            i += 1;
        }
        true
    }

    fn done_steps(&self) -> (r: usize)
        ensures
            r == count_done(self.checklist@),
            r <= self.checklist.len(),
    {
        let mut n: usize = 0;
        let mut i: usize = 0;
        assert(self.checklist@.take(0) =~= Seq::<ChecklistItem>::empty());
        while i < self.checklist.len()
            invariant
                i <= self.checklist.len(),
                n == count_done(self.checklist@.take(i as int)),
                n <= i,
            decreases self.checklist.len() - i,
        {
            assert(self.checklist@.take(i + 1).drop_last() =~= self.checklist@.take(i as int));
            if self.checklist[i].completed {
                n += 1;
            }
            i += 1;
        }
        assert(self.checklist@.take(self.checklist.len() as int) =~= self.checklist@);
        n
    }

    /// `2/3 steps complete (66%)`, or `no steps defined`.
    pub open spec fn spec_progress_summary(self) -> Seq<char> {
        let total = self.checklist@.len();
        let done = count_done(self.checklist@);
        if total == 0 {
            "no steps defined"@
        } else {
            decimal(done) + "/"@ + decimal(total) + " steps complete ("@ + decimal(
                (done * 100) / total,
            ) + "%)"@
        }
    }

    pub fn progress_summary(&self) -> (r: String)
        requires
            self.checklist@.len() * 100 <= usize::MAX,
        ensures
            r@ == self.spec_progress_summary(),
    {
        let total = self.checklist.len();
        if total == 0 {
            return owned("no steps defined");
        }
        let done = self.done_steps();
        let pct = (done * 100) / total;
        let mut out = decimal_text(done as u64);
        push_str(&mut out, "/");
        let t = decimal_text(total as u64);
        push_str(&mut out, t.as_str());
        push_str(&mut out, " steps complete (");
        let p = decimal_text(pct as u64);
        push_str(&mut out, p.as_str());
        push_str(&mut out, "%)");
        out
    }

    fn transition_from_live(&mut self, now: i64, to: GoalStatus, verb: &str) -> (r: Result<()>)
        ensures
            same_identity(*old(self), *final(self)),
            final(self).note == old(self).note,
            final(self).progress == old(self).progress,
            final(self).checklist == old(self).checklist,
            final(self).completed_at == old(self).completed_at,
            old(self).status.spec_is_terminal() ==> (r matches Err(e) && e is Forbidden
                && *final(self) == *old(self)),
            !old(self).status.spec_is_terminal() ==> r is Ok && final(self).status == to
                && final(self).updated_at == now,
    {
        if self.status.is_terminal() {
            let mut m = owned("cannot ");
            push_str(&mut m, verb);
            push_str(&mut m, " a goal that already ended as ");
            push_str(&mut m, self.status.label());
            return Err(DomainError::Forbidden(m));
        }
        self.status = to;
        self.updated_at = now;
        Ok(())
    }
}

/// The closing instruction of a continuation prompt: how to finish.
pub open spec fn finish_instruction() -> Seq<char> {
    "Continue until this is done. When it is genuinely complete, say so by completing the goal \u{2014} do not stop early and do not claim completion you cannot show.\n</goal>"@
}

/// The text put in front of the model when `goal` is still open, or `None`
/// when it should not be continued.
pub open spec fn goal_prompt(goal: Goal) -> Option<Seq<char>> {
    if !goal.spec_should_continue() {
        None
    } else {
        let head = "<goal status=\""@ + goal.status.spec_label() + "\">\n"@ + goal.objective@
            + "\n"@;
        let budget = match goal.budget.tokens {
            Some(limit) => "Budget: "@ + decimal(
                (if limit >= goal.progress.tokens_used {
                    limit - goal.progress.tokens_used
                } else {
                    0
                }) as nat,
            ) + " of "@ + decimal(limit as nat) + " tokens left.\n"@,
            None => Seq::empty(),
        };
        Some(head + budget + finish_instruction())
    }
}

/// The text put in front of the model when a goal is still open.
///
/// It restates the objective and what has been spent, and says how to
/// finish: a goal the model cannot see how to close is a goal that runs until
/// the budget does.
pub fn continuation_prompt(goal: &Goal) -> (r: Option<String>)
    ensures
        match r {
            Some(p) => goal_prompt(*goal) == Some(p@),
            None => goal_prompt(*goal) is None,
        },
{
    if !goal.should_continue() {
        return None;
    }
    let mut prompt = owned("<goal status=\"");
    push_str(&mut prompt, goal.status.label());
    push_str(&mut prompt, "\">\n");
    push_str(&mut prompt, goal.objective.as_str());
    push_str(&mut prompt, "\n");
    match goal.remaining_tokens() {
        Some(remaining) => {
            let limit = match goal.budget.tokens {
                Some(t) => t,
                None => 0,
            };
            push_str(&mut prompt, "Budget: ");
            let r = decimal_text(remaining);
            push_str(&mut prompt, r.as_str());
            push_str(&mut prompt, " of ");
            let l = decimal_text(limit);
            push_str(&mut prompt, l.as_str());
            push_str(&mut prompt, " tokens left.\n");
        },
        None => {},
    }
    push_str(
        &mut prompt,
        "Continue until this is done. When it is genuinely complete, say so by completing the goal \u{2014} do not stop early and do not claim completion you cannot show.\n</goal>",
    );
    Some(prompt)
}

/// The message a new goal is refused with while `name` already has one in
/// `status`.
pub open spec fn goal_taken(name: Seq<char>, status: GoalStatus) -> Seq<char> {
    "'"@ + name + "' already has a "@ + status.spec_label() + " goal; clear it or pass replace"@
}

/// May a new goal be set on the session called `name`, whose current goal
/// has status `current`? Only over no goal, a goal that has ended, or with
/// `replace`; anything else is refused, so that a second goal never silently
/// displaces the first.
pub fn may_set_goal(name: &str, current: Option<GoalStatus>, replace: bool) -> (r: Result<()>)
    ensures
        match r {
            Ok(()) => current is None || current->0.spec_is_terminal() || replace,
            Err(e) => {
                &&& current is Some && !current->0.spec_is_terminal() && !replace
                &&& e matches DomainError::Forbidden(m) && m@ == goal_taken(name@, current->0)
            },
        },
{
    match current {
        Some(status) => {
            if !status.is_terminal() && !replace {
                let mut m = owned("'");
                push_str(&mut m, name);
                push_str(&mut m, "' already has a ");
                push_str(&mut m, status.label());
                push_str(&mut m, " goal; clear it or pass replace");
                return Err(DomainError::Forbidden(m));
            }
            Ok(())
        },
        None => Ok(()),
    }
}

} // verus!
