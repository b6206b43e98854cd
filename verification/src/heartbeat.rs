//! Heartbeats: recurring instructions that re-enter a session.
use vstd::prelude::*;

use crate::error::{DomainError, Result};
use crate::text::{
    is_text, keyword, lower, owned, push_chars, replace_char, replaced, string_of, trim, trimmed,
};
use crate::time::{in_calendar, within_reach};
use crate::timespec::Interval;

verus! {

/// How a prompt is delivered to a session that may already be busy.
#[derive(Debug, Clone, Copy, PartialEq, Eq, Structural)]
pub enum DeliveryMode {
    /// Steer a busy target, deliver straight to an idle one.
    Auto,
    /// Interrupt active work on purpose.
    Steer,
    /// Wait until the current turn finishes.
    FollowUp,
}

/// The normal form a delivery mode is read in: trimmed, lower case, `-` as `_`.
pub open spec fn delivery_key(text: Seq<char>) -> Seq<char> {
    replace_char(lower(trim(text)), '-', '_')
}

impl DeliveryMode {
    /// The mode a normalised text names.
    pub open spec fn named(key: Seq<char>) -> Option<DeliveryMode> {
        if key == "auto"@ {
            Some(DeliveryMode::Auto)
        } else if key == "steer"@ {
            Some(DeliveryMode::Steer)
        } else if key == "follow_up"@ || key == "followup"@ {
            Some(DeliveryMode::FollowUp)
        } else {
            None
        }
    }

    pub fn parse(text: &str) -> (r: Result<DeliveryMode>)
        ensures
            match r {
                Ok(m) => Self::named(delivery_key(text@)) == Some(m),
                Err(e) => Self::named(delivery_key(text@)) is None && e is Invalid,
            },
    {
        let k = keyword(text);
        let key = replaced(k.as_slice(), '-', '_');
        if is_text(key.as_slice(), "auto") {
            Ok(DeliveryMode::Auto)
        } else if is_text(key.as_slice(), "steer") {
            Ok(DeliveryMode::Steer)
        } else if is_text(key.as_slice(), "follow_up") || is_text(key.as_slice(), "followup") {
            Ok(DeliveryMode::FollowUp)
        } else {
            let mut m = owned("unknown delivery mode '");
            push_chars(&mut m, key.as_slice());
            crate::text::push_str(&mut m, "'; expected auto, steer or follow-up");
            Err(DomainError::Invalid(m))
        }
    }

    pub open spec fn spec_label(self) -> Seq<char> {
        match self {
            DeliveryMode::Auto => "auto"@,
            DeliveryMode::Steer => "steer"@,
            DeliveryMode::FollowUp => "follow-up"@,
        }
    }

    pub fn label(self) -> (r: &'static str)
        ensures
            r@ == self.spec_label(),
    {
        match self {
            DeliveryMode::Auto => "auto",
            DeliveryMode::Steer => "steer",
            DeliveryMode::FollowUp => "follow-up",
        }
    }
}

#[derive(Debug, Clone, Copy, PartialEq, Eq, Structural)]
pub enum HeartbeatOwner {
    /// The one visible recurring instruction a person set with `heartbeat set`.
    User,
    /// Created programmatically by the agent. There may be many.
    Agent,
}

#[derive(Debug, Clone, Copy, PartialEq, Eq, Structural)]
pub enum HeartbeatStatus {
    Active,
    Paused,
}

/// A recurring instruction that re-enters a session. Instants are seconds
/// since 1970-01-01T00:00:00Z.
#[derive(Debug, Clone, PartialEq, Eq)]
pub struct Heartbeat {
    pub id: String,
    pub session_id: String,
    pub owner: HeartbeatOwner,
    /// Free label, used by the agent to find its own heartbeats again.
    pub label: Option<String>,
    pub prompt: String,
    pub interval: Interval,
    pub delivery: DeliveryMode,
    pub status: HeartbeatStatus,
    pub created_at: i64,
    pub next_fire_at: i64,
    pub last_fired_at: Option<i64>,
    pub fire_count: u64,
}

/// One interval on from `now` is an instant the calendar still holds.
pub open spec fn can_schedule(now: int, interval: Interval) -> bool {
    in_calendar(now) && within_reach(now + interval@)
}

impl Heartbeat {
    pub open spec fn spec_is_due(self, now: int) -> bool {
        self.status is Active && now >= self.next_fire_at
    }

    /// The heartbeat after a firing at `now`.
    pub open spec fn fired(self, now: int) -> Heartbeat {
        Heartbeat {
            last_fired_at: Some(now as i64),
            fire_count: (self.fire_count + 1) as u64,
            next_fire_at: (now + self.interval@) as i64,
            ..self
        }
    }

    pub fn new(
        id: &str,
        session_id: &str,
        owner: HeartbeatOwner,
        prompt: &str,
        interval: Interval,
        delivery: DeliveryMode,
        now: i64,
    ) -> (r: Result<Heartbeat>)
        requires
            can_schedule(now as int, interval),
        ensures
            match r {
                Ok(h) => {
                    &&& trim(prompt@).len() > 0
                    &&& h.id@ == id@
                    &&& h.session_id@ == session_id@
                    &&& h.owner == owner
                    &&& h.label is None
                    &&& h.prompt@ == trim(prompt@)
                    &&& h.interval == interval
                    &&& h.delivery == delivery
                    &&& h.status is Active
                    &&& h.created_at == now
                    &&& h.next_fire_at == now + interval@
                    &&& h.last_fired_at is None
                    &&& h.fire_count == 0
                },
                Err(e) => trim(prompt@).len() == 0 && e is Invalid,
            },
    {
        let p = trimmed(prompt);
        if p.len() == 0 {
            return Err(DomainError::invalid("a heartbeat needs a prompt"));
        }
        Ok(Heartbeat {
            id: owned(id),
            session_id: owned(session_id),
            owner,
            label: None,
            prompt: string_of(p.as_slice()),
            interval,
            delivery,
            status: HeartbeatStatus::Active,
            created_at: now,
            next_fire_at: now + interval.as_secs() as i64,
            last_fired_at: None,
            fire_count: 0,
        })
    }

    pub fn is_due(&self, now: i64) -> (r: bool)
        ensures
            r == self.spec_is_due(now as int),
    {
        self.status == HeartbeatStatus::Active && now >= self.next_fire_at
    }

    /// Marks a firing and schedules the next one.
    ///
    /// The next time is computed forward from *now*, never by adding an
    /// interval to a stale deadline: a worker that was asleep for an hour owes
    /// one heartbeat, not twelve.
    pub fn mark_fired(&mut self, now: i64)
        requires
            can_schedule(now as int, old(self).interval),
            old(self).fire_count < u64::MAX,
        ensures
            *final(self) == old(self).fired(now as int),
    {
        self.last_fired_at = Some(now);
        self.fire_count = self.fire_count + 1;
        self.next_fire_at = now + self.interval.as_secs() as i64;
    }

    pub fn pause(&mut self)
        ensures
            *final(self) == (Heartbeat { status: HeartbeatStatus::Paused, ..*old(self) }),
    {
        self.status = HeartbeatStatus::Paused;
    }

    /// Resumes the heartbeat, next due one interval from `now`.
    pub fn resume(&mut self, now: i64)
        requires
            can_schedule(now as int, old(self).interval),
        ensures
            *final(self) == (Heartbeat {
                status: HeartbeatStatus::Active,
                next_fire_at: (now + old(self).interval@) as i64,
                ..*old(self)
            }),
    {
        self.status = HeartbeatStatus::Active;
        self.next_fire_at = now + self.interval.as_secs() as i64;
    }

    /// The user's single visible heartbeat is theirs; the agent must not be
    /// able to silence it.
    pub fn is_agent_writable(&self) -> (r: bool)
        ensures
            r == (self.owner is Agent),
    {
        self.owner == HeartbeatOwner::Agent
    }
}

/// Missed ticks coalesce into one: after a firing at `now`, however late, the
/// heartbeat is not due again until a full interval has passed.
pub proof fn lemma_missed_ticks_coalesce(hb: Heartbeat, now: int, t: int)
    requires
        can_schedule(now, hb.interval),
        now <= t < now + hb.interval@,
    ensures
        !hb.fired(now).spec_is_due(t),
        hb.fired(now).next_fire_at == now + hb.interval@,
{
}

/// A paused heartbeat is never due.
pub proof fn lemma_paused_never_due(hb: Heartbeat, t: int)
    requires
        hb.status is Paused,
    ensures
        !hb.spec_is_due(t),
{
}

/// A request to set a heartbeat on the session `selector` names.
#[derive(Debug, Clone)]
pub struct CreateHeartbeat {
    pub selector: String,
    pub prompt: String,
    pub interval: Interval,
    pub owner: HeartbeatOwner,
    pub label: Option<String>,
    pub delivery: DeliveryMode,
}

/// The heartbeat a request creates, with the id it is given.
pub fn created(request: CreateHeartbeat, id: &str, session_id: &str, now: i64) -> (r: Result<
    Heartbeat,
>)
    requires
        can_schedule(now as int, request.interval),
    ensures
        match r {
            Ok(h) => {
                &&& trim(request.prompt@).len() > 0
                &&& h.id@ == id@
                &&& h.session_id@ == session_id@
                &&& h.owner == request.owner
                &&& h.label == request.label
                &&& h.prompt@ == trim(request.prompt@)
                &&& h.interval == request.interval
                &&& h.delivery == request.delivery
                &&& h.status is Active
                &&& h.created_at == now
                &&& h.next_fire_at == now + request.interval@
                &&& h.last_fired_at is None
                &&& h.fire_count == 0
            },
            Err(e) => trim(request.prompt@).len() == 0 && e is Invalid,
        },
{
    let CreateHeartbeat { selector: _, prompt, interval, owner, label, delivery } = request;
    let mut h = Heartbeat::new(id, session_id, owner, prompt.as_str(), interval, delivery, now)?;
    h.label = label;
    Ok(h)
}

/// The ids of the heartbeats that a new one owned by `owner` replaces among
/// `rows`, a session's heartbeats: every one of the user's when the user
/// sets theirs, since the user has only ever one; none when the agent adds
/// one of its own.
pub open spec fn replaced_ids(rows: Seq<Heartbeat>, owner: HeartbeatOwner) -> Seq<Seq<char>>
    decreases rows.len(),
{
    if rows.len() == 0 || owner is Agent {
        Seq::empty()
    } else {
        let rest = replaced_ids(rows.drop_last(), owner);
        if rows.last().owner is User {
            rest.push(rows.last().id@)
        } else {
            rest
        }
    }
}

/// The heartbeats a new one owned by `owner` replaces among `rows`.
pub fn replaced_by(rows: &Vec<Heartbeat>, owner: HeartbeatOwner) -> (r: Vec<String>)
    ensures
        r@.map_values(|s: String| s@) == replaced_ids(rows@, owner),
{
    let mut out: Vec<String> = Vec::new();
    if owner == HeartbeatOwner::Agent {
        assert(out@.map_values(|s: String| s@) =~= Seq::<Seq<char>>::empty());
        return out;
    }
    let mut i: usize = 0;
    assert(out@.map_values(|s: String| s@) =~= replaced_ids(rows@.take(0), owner));
    while i < rows.len()
        invariant
            owner is User,
            i <= rows.len(),
            out@.map_values(|s: String| s@) == replaced_ids(rows@.take(i as int), owner),
        decreases rows.len() - i,
    {
        proof {
            assert(rows@.take(i + 1).drop_last() =~= rows@.take(i as int));
            assert(rows@.take(i + 1).last() == rows@[i as int]);
        }
        if rows[i].owner == HeartbeatOwner::User {
            let id = rows[i].id.clone();
            let ghost before = out@;
            out.push(id);
            assert(out@.map_values(|s: String| s@) =~= before.map_values(|s: String| s@).push(
                rows@[i as int].id@,
            ));
        }
        i += 1;
    }
    assert(rows@.take(rows.len() as int) =~= rows@);
    out
}

/// The message an agent is refused with when it reaches for the user's
/// heartbeat.
pub open spec fn users_heartbeat_refusal() -> Seq<char> {
    "that heartbeat belongs to the user; the agent cannot change it"@
}

/// The user may change any heartbeat; the agent only its own.
pub open spec fn may_change(heartbeat: Heartbeat, actor: HeartbeatOwner) -> bool {
    actor is User || heartbeat.owner is Agent
}

/// May `actor` change `heartbeat`?
pub fn authorise(heartbeat: &Heartbeat, actor: HeartbeatOwner) -> (r: Result<()>)
    ensures
        match r {
            Ok(()) => may_change(*heartbeat, actor),
            Err(e) => !may_change(*heartbeat, actor) && (e matches DomainError::Forbidden(m) && m@
                == users_heartbeat_refusal()),
        },
{
    if actor == HeartbeatOwner::Agent && !heartbeat.is_agent_writable() {
        return Err(
            DomainError::forbidden("that heartbeat belongs to the user; the agent cannot change it"),
        );
    }
    Ok(())
}

/// The position of the user's heartbeat among `rows`, the first one owned by
/// the user.
pub open spec fn user_position(rows: Seq<Heartbeat>) -> Option<int> {
    crate::search::first_index(rows, |h: Heartbeat| h.owner is User)
}

/// The user's single visible heartbeat among a session's `rows`, if any.
pub fn user_heartbeat(rows: Vec<Heartbeat>) -> (r: Option<Heartbeat>)
    ensures
        match user_position(rows@) {
            Some(i) => r == Some(rows@[i]),
            None => r is None,
        },
{
    let ghost p = |h: Heartbeat| h.owner is User;
    let mut i: usize = 0;
    let n = rows.len();
    while i < n
        invariant
            n == rows.len(),
            i <= n,
            p == (|h: Heartbeat| h.owner is User),
            forall|k: int| 0 <= k < i ==> !p(#[trigger] rows@[k]),
        decreases n - i,
    {
        if rows[i].owner == HeartbeatOwner::User {
            proof {
                crate::search::lemma_first_index_scan(rows@, p, i as int);
            }
            let mut rows = rows;
            return Some(rows.swap_remove(i));
        }
        i += 1;
    }
    proof {
        crate::search::lemma_first_index_scan(rows@, p, i as int);
    }
    None
}

/// Where a stable insertion by next firing puts `x` into `t`.
pub open spec fn fire_pos(t: Seq<Heartbeat>, x: Heartbeat) -> int
    decreases t.len(),
{
    if t.len() == 0 {
        0
    } else if t.last().next_fire_at <= x.next_fire_at {
        t.len() as int
    } else {
        fire_pos(t.drop_last(), x)
    }
}

/// `s` sorted stably by next firing: heartbeats due at the same instant keep
/// their order.
pub open spec fn by_next_fire(s: Seq<Heartbeat>) -> Seq<Heartbeat>
    decreases s.len(),
{
    if s.len() == 0 {
        s
    } else {
        let t = by_next_fire(s.drop_last());
        t.insert(fire_pos(t, s.last()), s.last())
    }
}

proof fn lemma_fire_pos_bounds(t: Seq<Heartbeat>, x: Heartbeat)
    ensures
        0 <= fire_pos(t, x) <= t.len(),
    decreases t.len(),
{
    if t.len() > 0 {
        lemma_fire_pos_bounds(t.drop_last(), x);
    }
}

/// Heartbeats in the order they fire next.
pub fn listing(rows: Vec<Heartbeat>) -> (r: Vec<Heartbeat>)
    ensures
        r@ == by_next_fire(rows@),
{
    let ghost orig = rows@;
    let n = rows.len();
    let mut rest = rows;
    let mut out: Vec<Heartbeat> = Vec::new();
    let mut i: usize = 0;
    while rest.len() > 0
        invariant
            n == orig.len(),
            i + rest@.len() == n,
            rest@ == orig.skip(i as int),
            out@ == by_next_fire(orig.take(i as int)),
        decreases rest@.len(),
    {
        let x = rest.remove(0);
        proof {
            assert(orig.take(i + 1).drop_last() =~= orig.take(i as int));
            assert(orig.take(i + 1).last() == x);
            assert(rest@ =~= orig.skip(i + 1));
            lemma_fire_pos_bounds(out@, x);
        }
        let mut p = out.len();
        assert(out@.take(p as int) =~= out@);
        while p > 0 && out[p - 1].next_fire_at > x.next_fire_at
            invariant
                p <= out@.len(),
                fire_pos(out@, x) == fire_pos(out@.take(p as int), x),
            decreases p,
        {
            assert(out@.take(p as int).drop_last() =~= out@.take(p - 1));
            p -= 1;
        }
        proof {
            if p > 0 {
                assert(out@.take(p as int).last() == out@[p - 1]);
            }
        }
        out.insert(p, x);
        i += 1;
    }
    assert(orig.take(n as int) =~= orig);
    out
}

/// The agent can never touch the user's heartbeat, and the user can manage
/// every heartbeat, the agent's included.
pub proof fn lemma_agent_cannot_touch_users(heartbeat: Heartbeat)
    ensures
        heartbeat.owner is User ==> !may_change(heartbeat, HeartbeatOwner::Agent),
        may_change(heartbeat, HeartbeatOwner::User),
{
}

/// The user has one visible heartbeat: setting theirs replaces every
/// heartbeat of theirs already in the session, so what is left holds none
/// of the user's.
pub proof fn lemma_one_users_heartbeat(rows: Seq<Heartbeat>, i: int)
    requires
        0 <= i < rows.len(),
        rows[i].owner is User,
    ensures
        replaced_ids(rows, HeartbeatOwner::User).contains(rows[i].id@),
    decreases rows.len(),
{
    if i < rows.len() - 1 {
        lemma_one_users_heartbeat(rows.drop_last(), i);
        assert(rows.drop_last()[i] == rows[i]);
        let rest = replaced_ids(rows.drop_last(), HeartbeatOwner::User);
        let k = choose|k: int| 0 <= k < rest.len() && rest[k] == rows[i].id@;
        if rows.last().owner is User {
            assert(rest.push(rows.last().id@)[k] == rest[k]);
        }
    } else {
        let r = replaced_ids(rows, HeartbeatOwner::User);
        assert(r[r.len() - 1] == rows[i].id@);
    }
}

} // verus!
