//! Scheduled jobs: a prompt aimed at a session at a time.
use vstd::prelude::*;

use crate::error::{DomainError, Result};
use crate::heartbeat::DeliveryMode;
use crate::text::{
    owned, push_chars, push_str, same_text, slice_chars, string_of, trim, trimmed, words, words_in,
};
use crate::time::{in_calendar, parse_rfc3339, rfc3339_instant, rfc3339_of, rfc3339_text, within_reach};
use crate::timespec::{cron_text_ok, spec_interval, CronExpr, Interval};

verus! {

/// When a job runs. Instants are seconds since 1970-01-01T00:00:00Z.
#[derive(Debug, Clone, PartialEq, Eq)]
pub enum ScheduleSpec {
    /// Fires once, then completes.
    OneTime { at: i64 },
    /// Fires on every matching minute, forever.
    Cron { expr: CronExpr },
}

/// The text starts with `in `, the relative form.
pub open spec fn in_prefix(t: Seq<char>) -> bool {
    t.len() >= 3 && t[0] == 'i' && t[1] == 'n' && t[2] == ' '
}

impl ScheduleSpec {
    /// The schedule is what `parse` reads from `text` at `now`.
    pub open spec fn reads_as(self, text: Seq<char>, now: int) -> bool {
        let t = trim(text);
        &&& t.len() > 0
        &&& match self {
            ScheduleSpec::OneTime { at } => if in_prefix(t) {
                spec_interval(t.skip(3)) matches Some(n) && at == now + n
            } else {
                rfc3339_instant(t) == Some(at as int)
            },
            ScheduleSpec::Cron { expr } => {
                &&& !in_prefix(t)
                &&& rfc3339_instant(t) is None
                &&& words(t).len() == 5
                &&& expr.read_from(t)
            },
        }
    }

    /// `parse` refuses `text`.
    pub open spec fn refused(text: Seq<char>) -> bool {
        let t = trim(text);
        ||| t.len() == 0
        ||| in_prefix(t) && spec_interval(t.skip(3)) is None
        ||| !in_prefix(t) && rfc3339_instant(t) is None && !cron_text_ok(t)
    }

    /// A one-time instant lies where the calendar can still write it.
    pub open spec fn well_formed(self) -> bool {
        self matches ScheduleSpec::OneTime { at } ==> within_reach(at as int)
    }

    /// `r` is what `next_after(after)` answers: a one-time schedule its
    /// instant if that is later, a cron schedule its first firing after
    /// `after` within a year and a day.
    pub open spec fn next_ok(self, after: int, r: Option<i64>) -> bool {
        match self {
            ScheduleSpec::OneTime { at } => r == if at > after {
                Some(at)
            } else {
                None::<i64>
            },
            ScheduleSpec::Cron { expr } => {
                &&& r matches Some(t) ==> expr.first_firing(after, t as int)
                &&& r is None ==> expr.silent_after(after)
            },
        }
    }

    pub open spec fn spec_is_recurring(self) -> bool {
        self is Cron
    }

    /// Parses `in 30m`, an RFC 3339 instant, or a five-field cron expression.
    ///
    /// A bare interval is refused: guessing between "in 30m" and "every 30m"
    /// would be guessing about the user's intent.
    pub fn parse(text: &str, now: i64) -> (r: Result<ScheduleSpec>)
        requires
            in_calendar(now as int),
        ensures
            match r {
                Ok(s) => s.reads_as(text@, now as int) && s.well_formed(),
                Err(e) => Self::refused(text@) && e is Invalid,
            },
    {
        let t = trimmed(text);
        if t.len() == 0 {
            return Err(DomainError::invalid("a schedule needs a time"));
        }
        if t.len() >= 3 && t[0] == 'i' && t[1] == 'n' && t[2] == ' ' {
            let rest = slice_chars(t.as_slice(), 3, t.len());
            assert(rest@ == t@.skip(3));
            let rest_text = string_of(rest.as_slice());
            let interval = Interval::parse(rest_text.as_str())?;
            return Ok(ScheduleSpec::OneTime { at: now + interval.as_secs() as i64 });
        }
        let whole = string_of(t.as_slice());
        match parse_rfc3339(whole.as_str()) {
            Some(at) => {
                return Ok(ScheduleSpec::OneTime { at });
            },
            None => {},
        }
        let fields = words_in(t.as_slice());
        if fields.len() == 5 {
            let expr = CronExpr::parse(whole.as_str())?;
            return Ok(ScheduleSpec::Cron { expr });
        }
        let mut m = owned("could not read schedule '");
        push_chars(&mut m, t.as_slice());
        push_str(
            &mut m,
            "'; use \"in 30m\", an RFC 3339 instant, or a cron expression like \"0 9 * * 1-5\"",
        );
        Err(DomainError::Invalid(m))
    }

    /// The first time the schedule fires strictly after `after`.
    pub fn next_after(&self, after: i64) -> (r: Option<i64>)
        requires
            self is Cron ==> in_calendar(after as int),
        ensures
            self.next_ok(after as int, r),
    {
        match self {
            ScheduleSpec::OneTime { at } => if *at > after {
                Some(*at)
            } else {
                None
            },
            ScheduleSpec::Cron { expr } => expr.next_after(after),
        }
    }

    pub fn is_recurring(&self) -> (r: bool)
        ensures
            r == self.spec_is_recurring(),
    {
        match self {
            ScheduleSpec::Cron { .. } => true,
            _ => false,
        }
    }

    pub open spec fn spec_describe(self) -> Seq<char> {
        match self {
            ScheduleSpec::OneTime { at } => "once at "@ + rfc3339_of(at as int),
            ScheduleSpec::Cron { expr } => "cron "@ + expr.spec_source(),
        }
    }

    pub fn describe(&self) -> (r: String)
        requires
            self.well_formed(),
        ensures
            r@ == self.spec_describe(),
    {
        match self {
            ScheduleSpec::OneTime { at } => {
                let mut m = owned("once at ");
                let when = rfc3339_text(*at);
                push_str(&mut m, when.as_str());
                m
            },
            ScheduleSpec::Cron { expr } => {
                let mut m = owned("cron ");
                push_str(&mut m, expr.source());
                m
            },
        }
    }
}

#[derive(Debug, Clone, Copy, PartialEq, Eq, Structural)]
pub enum JobStatus {
    Pending,
    /// A tick has been claimed and is being delivered. Claiming before
    /// delivering is what stops a crash from replaying an uncertain prompt.
    Claimed,
    Completed,
    Cancelled,
    Failed,
}

/// A prompt aimed at a session at a time.
#[derive(Debug, Clone, PartialEq, Eq)]
pub struct ScheduledJob {
    pub id: String,
    /// Session id or name. Resolved at delivery so a renamed agent keeps its
    /// schedule.
    pub target: String,
    pub prompt: String,
    pub spec: ScheduleSpec,
    pub delivery: DeliveryMode,
    pub status: JobStatus,
    pub created_at: i64,
    pub next_tick: Option<i64>,
    pub last_tick: Option<i64>,
    pub run_count: u64,
    pub last_error: Option<String>,
}

/// The fields a tick leaves alone.
pub open spec fn same_job(a: ScheduledJob, b: ScheduledJob) -> bool {
    &&& a.id == b.id
    &&& a.target == b.target
    &&& a.prompt == b.prompt
    &&& a.spec == b.spec
    &&& a.delivery == b.delivery
    &&& a.created_at == b.created_at
}

/// After a tick at `now`: a recurring job that still fires is pending for its
/// next firing; anything else has ended in `ended`.
pub open spec fn rescheduled(old_job: ScheduledJob, new_job: ScheduledJob, now: int, ended: JobStatus) -> bool {
    match old_job.spec {
        ScheduleSpec::OneTime { .. } => new_job.next_tick is None && new_job.status == ended,
        ScheduleSpec::Cron { .. } => {
            &&& old_job.spec.next_ok(now, new_job.next_tick)
            &&& new_job.next_tick is Some ==> new_job.status is Pending
            &&& new_job.next_tick is None ==> new_job.status == ended
        },
    }
}

impl ScheduledJob {
    pub open spec fn spec_is_due(self, now: int) -> bool {
        &&& self.status is Pending
        &&& self.next_tick matches Some(tick) && now >= tick
    }

    /// The job with its due tick claimed at `now`.
    pub open spec fn claimed(self, now: int) -> ScheduledJob {
        ScheduledJob { status: JobStatus::Claimed, last_tick: Some(now as i64), ..self }
    }

    pub fn new(
        id: &str,
        target: &str,
        prompt: &str,
        spec: ScheduleSpec,
        delivery: DeliveryMode,
        now: i64,
    ) -> (r: Result<ScheduledJob>)
        requires
            in_calendar(now as int),
            in_calendar(now - 1),
        ensures
            match r {
                Ok(j) => {
                    &&& trim(prompt@).len() > 0
                    &&& j.id@ == id@
                    &&& j.target@ == target@
                    &&& j.prompt@ == trim(prompt@)
                    &&& j.spec == spec
                    &&& j.delivery == delivery
                    &&& j.status is Pending
                    &&& j.created_at == now
                    &&& j.next_tick is Some
                    &&& spec.next_ok(now - 1, j.next_tick)
                    &&& j.last_tick is None
                    &&& j.run_count == 0
                    &&& j.last_error is None
                },
                Err(e) => e is Invalid && (trim(prompt@).len() == 0 || spec.next_ok(
                    now - 1,
                    None,
                )),
            },
    {
        let p = trimmed(prompt);
        if p.len() == 0 {
            return Err(DomainError::invalid("a scheduled job needs a prompt"));
        }
        let next_tick = spec.next_after(now - 1);
        if next_tick.is_none() {
            return Err(
                DomainError::invalid(
                    "that schedule will never fire; check the date or cron expression",
                ),
            );
        }
        Ok(ScheduledJob {
            id: owned(id),
            target: owned(target),
            prompt: string_of(p.as_slice()),
            spec,
            delivery,
            status: JobStatus::Pending,
            created_at: now,
            next_tick,
            last_tick: None,
            run_count: 0,
            last_error: None,
        })
    }

    pub fn is_due(&self, now: i64) -> (r: bool)
        ensures
            r == self.spec_is_due(now as int),
    {
        match self.next_tick {
            Some(tick) => self.status == JobStatus::Pending && now >= tick,
            None => false,
        }
    }

    /// Takes ownership of the due tick. Returns an error rather than a silent
    /// no-op, because two workers claiming the same tick is a bug worth seeing.
    pub fn claim(&mut self, now: i64) -> (r: Result<()>)
        ensures
            match r {
                Ok(()) => old(self).spec_is_due(now as int) && *final(self) == old(self).claimed(
                    now as int,
                ),
                Err(e) => !old(self).spec_is_due(now as int) && e is Forbidden && *final(self)
                    == *old(self),
            },
    {
        if !self.is_due(now) {
            let mut m = owned("job ");
            push_str(&mut m, self.id.as_str());
            push_str(&mut m, " is not due");
            return Err(DomainError::Forbidden(m));
        }
        self.status = JobStatus::Claimed;
        self.last_tick = Some(now);
        Ok(())
    }

    /// Records a delivered tick and either reschedules or finishes.
    pub fn complete_tick(&mut self, now: i64)
        requires
            old(self).run_count < u64::MAX,
            old(self).spec is Cron ==> in_calendar(now as int),
        ensures
            same_job(*old(self), *final(self)),
            final(self).run_count == old(self).run_count + 1,
            final(self).last_error is None,
            final(self).last_tick == old(self).last_tick,
            rescheduled(*old(self), *final(self), now as int, JobStatus::Completed),
    {
        self.run_count = self.run_count + 1;
        self.last_error = None;
        let next = self.spec.next_after(now);
        match next {
            Some(t) => {
                if self.spec.is_recurring() {
                    self.next_tick = Some(t);
                    self.status = JobStatus::Pending;
                } else {
                    self.next_tick = None;
                    self.status = JobStatus::Completed;
                }
            },
            None => {
                self.next_tick = None;
                self.status = JobStatus::Completed;
            },
        }
    }

    /// A failed delivery keeps a recurring job alive (the next tick may well
    /// work) but retires a one-time job that can no longer be delivered.
    pub fn fail_tick(&mut self, reason: &str, now: i64)
        requires
            old(self).spec is Cron ==> in_calendar(now as int),
        ensures
            same_job(*old(self), *final(self)),
            final(self).run_count == old(self).run_count,
            final(self).last_error matches Some(e) && e@ == reason@,
            final(self).last_tick == old(self).last_tick,
            rescheduled(*old(self), *final(self), now as int, JobStatus::Failed),
    {
        self.last_error = Some(owned(reason));
        let next = self.spec.next_after(now);
        match next {
            Some(t) => {
                if self.spec.is_recurring() {
                    self.next_tick = Some(t);
                    self.status = JobStatus::Pending;
                } else {
                    self.next_tick = None;
                    self.status = JobStatus::Failed;
                }
            },
            None => {
                self.next_tick = None;
                self.status = JobStatus::Failed;
            },
        }
    }

    pub fn cancel(&mut self)
        ensures
            *final(self) == (ScheduledJob {
                status: JobStatus::Cancelled,
                next_tick: None,
                ..*old(self)
            }),
    {
        self.status = JobStatus::Cancelled;
        self.next_tick = None;
    }
}

/// A tick cannot be claimed twice: once claimed, the job is not due again,
/// at any time, until a completed or failed tick requeues it.
pub proof fn lemma_claim_is_exclusive(job: ScheduledJob, now: int, later: int)
    ensures
        !job.claimed(now).spec_is_due(later),
{
}

/// A one-time job fires once: after its tick completes or fails it is never
/// due again.
pub proof fn lemma_one_time_jobs_end(old_job: ScheduledJob, new_job: ScheduledJob, now: int, t: int)
    requires
        old_job.spec is OneTime,
        rescheduled(old_job, new_job, now, JobStatus::Completed) || rescheduled(
            old_job,
            new_job,
            now,
            JobStatus::Failed,
        ),
    ensures
        !new_job.spec_is_due(t),
{
}

/// A recurring job whose expression fires again after a tick is requeued
/// for that firing rather than finished.
pub proof fn lemma_cron_jobs_requeue(old_job: ScheduledJob, new_job: ScheduledJob, now: int, t: int)
    requires
        old_job.spec matches ScheduleSpec::Cron { expr } && expr.first_firing(now, t),
        rescheduled(old_job, new_job, now, JobStatus::Completed),
    ensures
        new_job.next_tick == Some(t as i64),
        new_job.status is Pending,
{
    let expr = old_job.spec->expr;
    match new_job.next_tick {
        Some(u) => {
            if (u as int) < t {
                assert(expr.fires_at(u as int));
            } else if t < (u as int) {
                assert(expr.fires_at(t));
            }
        },
        None => {
            assert(expr.fires_at(t));
        },
    }
}

/// A request to schedule a prompt for an agent.
#[derive(Debug, Clone)]
pub struct AddJob {
    pub target: String,
    /// `in 30m`, an RFC 3339 instant, or a five-field cron expression.
    pub when: String,
    pub prompt: String,
    pub delivery: DeliveryMode,
}

/// The job a request schedules for the agent named `target_name`, with the
/// id it is given. The target is stored by name, so that a later rename of
/// the agent does not lose the schedule.
pub fn added(request: AddJob, target_name: &str, id: &str, now: i64) -> (r: Result<ScheduledJob>)
    requires
        in_calendar(now as int),
        in_calendar(now - 1),
    ensures
        match r {
            Ok(j) => {
                &&& !ScheduleSpec::refused(request.when@)
                &&& j.spec.reads_as(request.when@, now as int)
                &&& j.id@ == id@
                &&& j.target@ == target_name@
                &&& j.prompt@ == trim(request.prompt@)
                &&& j.delivery == request.delivery
                &&& j.status is Pending
                &&& j.created_at == now
                &&& j.next_tick is Some
                &&& j.spec.next_ok(now - 1, j.next_tick)
                &&& j.last_tick is None
                &&& j.run_count == 0
                &&& j.last_error is None
            },
            Err(e) => e is Invalid && (ScheduleSpec::refused(request.when@) || trim(
                request.prompt@,
            ).len() == 0 || exists|s: ScheduleSpec|
                s.reads_as(request.when@, now as int) && s.well_formed() && s.next_ok(
                    now - 1,
                    None,
                )),
        },
{
    let spec = ScheduleSpec::parse(request.when.as_str(), now)?;
    ScheduledJob::new(id, target_name, request.prompt.as_str(), spec, request.delivery, now)
}

/// A pending or claimed job still has work ahead of it; a completed, failed
/// or cancelled one is finished.
pub open spec fn is_unfinished(job: ScheduledJob) -> bool {
    job.status is Pending || job.status is Claimed
}

/// The jobs a listing shows, in their order: those aimed at `target` when one
/// is named, and only the unfinished ones unless finished ones are wanted.
pub open spec fn shown_jobs(
    s: Seq<ScheduledJob>,
    target: Option<Seq<char>>,
    include_finished: bool,
) -> Seq<ScheduledJob>
    decreases s.len(),
{
    if s.len() == 0 {
        s
    } else {
        let rest = shown_jobs(s.drop_last(), target, include_finished);
        let job = s.last();
        if (target matches Some(t) ==> job.target@ == t) && (include_finished || is_unfinished(job)) {
            rest.push(job)
        } else {
            rest
        }
    }
}

/// A listing that does not ask for finished jobs shows only pending and
/// claimed ones: no completed, failed or cancelled job appears in it. Every
/// job it shows is one of the rows, aimed at the target when one is named.
pub proof fn lemma_listing_hides_finished(s: Seq<ScheduledJob>, target: Option<Seq<char>>)
    ensures
        forall|i: int|
            0 <= i < shown_jobs(s, target, false).len() ==> {
                let job = #[trigger] shown_jobs(s, target, false)[i];
                &&& job.status is Pending || job.status is Claimed
                &&& !(job.status is Cancelled) && !(job.status is Completed) && !(job.status is Failed)
                &&& s.contains(job)
                &&& (target matches Some(t) ==> job.target@ == t)
            },
    decreases s.len(),
{
    if s.len() > 0 {
        let d = s.drop_last();
        lemma_listing_hides_finished(d, target);
        let rest = shown_jobs(d, target, false);
        assert forall|i: int| 0 <= i < shown_jobs(s, target, false).len() implies {
            let job = #[trigger] shown_jobs(s, target, false)[i];
            &&& job.status is Pending || job.status is Claimed
            &&& !(job.status is Cancelled) && !(job.status is Completed) && !(job.status is Failed)
            &&& s.contains(job)
            &&& (target matches Some(t) ==> job.target@ == t)
        } by {
            let out = shown_jobs(s, target, false);
            if i < rest.len() {
                assert(out[i] == rest[i]);
                let k = choose|k: int| 0 <= k < d.len() && d[k] == rest[i];
                assert(s[k] == d[k]);
            } else {
                assert(out[i] == s.last());
                assert(s[s.len() - 1] == s.last());
            }
        }
    }
}

/// Keeps the jobs a listing shows; see [`shown_jobs`].
pub fn shown(rows: Vec<ScheduledJob>, target: Option<&str>, include_finished: bool) -> (r: Vec<
    ScheduledJob,
>)
    ensures
        r@ == shown_jobs(
            rows@,
            match target {
                Some(t) => Some(t@),
                None => None,
            },
            include_finished,
        ),
        !include_finished ==> forall|i: int|
            0 <= i < r@.len() ==> (#[trigger] r@[i]).status is Pending || r@[i].status is Claimed,
{
    let ghost orig = rows@;
    let ghost want: Option<Seq<char>> = match target {
        Some(t) => Some(t@),
        None => None,
    };
    let n = rows.len();
    let mut rest = rows;
    let mut out: Vec<ScheduledJob> = Vec::new();
    let mut i: usize = 0;
    while rest.len() > 0
        invariant
            n == orig.len(),
            i + rest@.len() == n,
            rest@ == orig.skip(i as int),
            out@ == shown_jobs(orig.take(i as int), want, include_finished),
            want == (match target {
                Some(t) => Some(t@),
                None => None::<Seq<char>>,
            }),
        decreases rest@.len(),
    {
        let x = rest.remove(0);
        proof {
            assert(orig.take(i + 1).drop_last() =~= orig.take(i as int));
            assert(orig.take(i + 1).last() == x);
            assert(rest@ =~= orig.skip(i + 1));
        }
        let aimed = match target {
            Some(t) => same_text(x.target.as_str(), t),
            None => true,
        };
        let unfinished = x.status == JobStatus::Pending || x.status == JobStatus::Claimed;
        if aimed && (include_finished || unfinished) {
            out.push(x);
        }
        i = i + 1;
    }
    proof {
        assert(orig.take(n as int) =~= orig);
        lemma_listing_hides_finished(orig, want);
    }
    out
}

/// Listing order: a job with a next tick comes before one without, and
/// earlier ticks first.
pub open spec fn tick_le(a: ScheduledJob, b: ScheduledJob) -> bool {
    match (a.next_tick, b.next_tick) {
        (Some(x), Some(y)) => x <= y,
        (Some(_), None) => true,
        (None, Some(_)) => false,
        (None, None) => true,
    }
}

/// Where a stable insertion puts `x` into `t`.
pub open spec fn tick_pos(t: Seq<ScheduledJob>, x: ScheduledJob) -> int
    decreases t.len(),
{
    if t.len() == 0 {
        0
    } else if tick_le(t.last(), x) {
        t.len() as int
    } else {
        tick_pos(t.drop_last(), x)
    }
}

/// `s` sorted stably by next tick: jobs without one last, ties in their
/// order in `s`.
pub open spec fn by_next_tick(s: Seq<ScheduledJob>) -> Seq<ScheduledJob>
    decreases s.len(),
{
    if s.len() == 0 {
        s
    } else {
        let t = by_next_tick(s.drop_last());
        t.insert(tick_pos(t, s.last()), s.last())
    }
}

proof fn lemma_tick_pos_bounds(t: Seq<ScheduledJob>, x: ScheduledJob)
    ensures
        0 <= tick_pos(t, x) <= t.len(),
    decreases t.len(),
{
    if t.len() > 0 {
        lemma_tick_pos_bounds(t.drop_last(), x);
    }
}

fn tick_at_most(a: &ScheduledJob, b: &ScheduledJob) -> (r: bool)
    ensures
        r == tick_le(*a, *b),
{
    match (a.next_tick, b.next_tick) {
        (Some(x), Some(y)) => x <= y,
        (Some(_), None) => true,
        (None, Some(_)) => false,
        (None, None) => true,
    }
}

/// Jobs in the order they tick next.
pub fn listing(rows: Vec<ScheduledJob>) -> (r: Vec<ScheduledJob>)
    ensures
        r@ == by_next_tick(rows@),
{
    let ghost orig = rows@;
    let n = rows.len();
    let mut rest = rows;
    let mut out: Vec<ScheduledJob> = Vec::new();
    let mut i: usize = 0;
    while rest.len() > 0
        invariant
            n == orig.len(),
            i + rest@.len() == n,
            rest@ == orig.skip(i as int),
            out@ == by_next_tick(orig.take(i as int)),
        decreases rest@.len(),
    {
        let x = rest.remove(0);
        proof {
            assert(orig.take(i + 1).drop_last() =~= orig.take(i as int));
            assert(orig.take(i + 1).last() == x);
            assert(rest@ =~= orig.skip(i + 1));
            lemma_tick_pos_bounds(out@, x);
        }
        let mut p = out.len();
        assert(out@.take(p as int) =~= out@);
        while p > 0 && !tick_at_most(&out[p - 1], &x)
            invariant
                p <= out@.len(),
                tick_pos(out@, x) == tick_pos(out@.take(p as int), x),
            decreases p,
        {
            assert(out@.take(p as int).drop_last() =~= out@.take(p - 1));
            p -= 1;
        }
        proof {
            if p > 0 {
                assert(out@.take(p as int).last() == out@[p - 1]);
            }
        }
        out.insert(p, x);
        i += 1;
    }
    assert(orig.take(n as int) =~= orig);
    out
}

} // verus!
