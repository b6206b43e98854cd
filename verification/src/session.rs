//! Sessions: who is working, under which harness, and what it has cost.
use vstd::prelude::*;

use crate::error::{DomainError, Result};
use crate::text::{decimal, decimal_text, owned, push_str, slug, slug_of, string_of};

verus! {

#[derive(Debug, Clone, Copy, PartialEq, Eq, Structural)]
pub enum SessionStatus {
    /// Attached or working.
    Running,
    /// Alive, nothing in flight. The normal state of a detached worker.
    Idle,
    /// Finished and kept for its transcript.
    Completed,
    Cancelled,
    Failed,
}

impl SessionStatus {
    pub open spec fn spec_is_live(self) -> bool {
        self is Running || self is Idle
    }

    pub fn is_live(self) -> (r: bool)
        ensures
            r == self.spec_is_live(),
    {
        match self {
            SessionStatus::Running | SessionStatus::Idle => true,
            _ => false,
        }
    }

    pub open spec fn spec_label(self) -> Seq<char> {
        match self {
            SessionStatus::Running => "running"@,
            SessionStatus::Idle => "idle"@,
            SessionStatus::Completed => "completed"@,
            SessionStatus::Cancelled => "cancelled"@,
            SessionStatus::Failed => "failed"@,
        }
    }

    pub fn label(self) -> (r: &'static str)
        ensures
            r@ == self.spec_label(),
    {
        match self {
            SessionStatus::Running => "running",
            SessionStatus::Idle => "idle",
            SessionStatus::Completed => "completed",
            SessionStatus::Cancelled => "cancelled",
            SessionStatus::Failed => "failed",
        }
    }
}

#[derive(Debug, Clone, Copy, PartialEq, Eq, Structural)]
pub enum SessionKind {
    /// Started by a person.
    Root,
    /// Admitted by a parent through `agent spawn`.
    Child,
}

/// Token and turn counts.
#[derive(Debug, Clone, Copy, PartialEq, Eq, Structural)]
pub struct Usage {
    pub input_tokens: u64,
    pub output_tokens: u64,
    pub turns: u64,
    /// Tokens spent by children and folded into this session's totals. Kept
    /// separate so "own usage" stays recoverable.
    pub attributed_child_tokens: u64,
}

impl Default for Usage {
    fn default() -> (r: Self)
        ensures
            r == (Usage { input_tokens: 0, output_tokens: 0, turns: 0, attributed_child_tokens: 0 }),
    {
        Usage { input_tokens: 0, output_tokens: 0, turns: 0, attributed_child_tokens: 0 }
    }
}

impl Usage {
    pub open spec fn spec_zero() -> Self {
        Usage { input_tokens: 0, output_tokens: 0, turns: 0, attributed_child_tokens: 0 }
    }

    pub open spec fn spec_total(self) -> int {
        self.input_tokens + self.output_tokens
    }

    /// The totals of this usage fit the counters.
    pub open spec fn fits(self) -> bool {
        self.spec_total() <= u64::MAX
    }

    /// Tokens spent by this session itself, children's excluded.
    pub open spec fn spec_own(self) -> int {
        if self.spec_total() >= self.attributed_child_tokens {
            self.spec_total() - self.attributed_child_tokens
        } else {
            0
        }
    }

    pub fn total_tokens(&self) -> (r: u64)
        requires
            self.fits(),
        ensures
            r == self.spec_total(),
    {
        self.input_tokens + self.output_tokens
    }

    pub fn own_tokens(&self) -> (r: u64)
        requires
            self.fits(),
        ensures
            r == self.spec_own(),
    {
        self.total_tokens().saturating_sub(self.attributed_child_tokens)
    }

    /// `self` plus `other`, field by field, attributed tokens untouched.
    pub open spec fn spec_absorb(self, other: Usage) -> Usage {
        Usage {
            input_tokens: (self.input_tokens + other.input_tokens) as u64,
            output_tokens: (self.output_tokens + other.output_tokens) as u64,
            turns: (self.turns + other.turns) as u64,
            attributed_child_tokens: self.attributed_child_tokens,
        }
    }

    pub open spec fn can_absorb(self, other: Usage) -> bool {
        &&& self.input_tokens + other.input_tokens <= u64::MAX
        &&& self.output_tokens + other.output_tokens <= u64::MAX
        &&& self.turns + other.turns <= u64::MAX
    }

    pub fn absorb(&mut self, other: &Usage)
        requires
            old(self).can_absorb(*other),
        ensures
            *final(self) == old(self).spec_absorb(*other),
    {
        self.input_tokens = self.input_tokens + other.input_tokens;
        self.output_tokens = self.output_tokens + other.output_tokens;
        self.turns = self.turns + other.turns;
    }

    /// `self` with a child's tokens folded in and counted as the child's.
    pub open spec fn spec_attribute_child(self, child: Usage) -> Usage {
        Usage {
            input_tokens: (self.input_tokens + child.input_tokens) as u64,
            output_tokens: (self.output_tokens + child.output_tokens) as u64,
            turns: self.turns,
            attributed_child_tokens: (self.attributed_child_tokens + child.spec_total()) as u64,
        }
    }

    pub open spec fn can_attribute(self, child: Usage) -> bool {
        &&& child.fits()
        &&& self.input_tokens + child.input_tokens <= u64::MAX
        &&& self.output_tokens + child.output_tokens <= u64::MAX
        &&& self.attributed_child_tokens + child.spec_total() <= u64::MAX
    }

    pub fn attribute_child(&mut self, child: &Usage)
        requires
            old(self).can_attribute(*child),
        ensures
            *final(self) == old(self).spec_attribute_child(*child),
    {
        let tokens = child.total_tokens();
        self.input_tokens = self.input_tokens + child.input_tokens;
        self.output_tokens = self.output_tokens + child.output_tokens;
        self.attributed_child_tokens = self.attributed_child_tokens + tokens;
    }
}

/// Folding a child's usage into a parent raises the parent's total by the
/// child's total and leaves the parent's own usage where it was; own usage
/// is always the total less what was attributed to children, never below
/// zero.
pub proof fn lemma_child_usage_separable(parent: Usage, child: Usage)
    requires
        parent.can_attribute(child),
    ensures
        parent.spec_attribute_child(child).spec_total() == parent.spec_total() + child.spec_total(),
        parent.spec_attribute_child(child).spec_own() == parent.spec_own(),
        parent.spec_own() == (if parent.spec_total() >= parent.attributed_child_tokens {
            parent.spec_total() - parent.attributed_child_tokens
        } else {
            0
        }),
{
}

/// One agent session: a transcript, a working directory, and whatever durable
/// state hangs off it. Instants are seconds since 1970-01-01T00:00:00Z.
#[derive(Debug, Clone, PartialEq, Eq)]
pub struct Session {
    pub id: String,
    /// A stable readable handle; every command that takes an agent accepts
    /// either this or the id.
    pub name: String,
    pub kind: SessionKind,
    pub status: SessionStatus,
    pub workdir: String,
    /// The harness this session runs under.
    pub runner: String,
    pub model: Option<String>,
    pub parent_id: Option<String>,
    /// 0 for a root session.
    pub depth: u8,
    pub created_at: i64,
    pub updated_at: i64,
    pub usage: Usage,
    /// OS process id while a worker is resident.
    pub pid: Option<u32>,
}

/// The longest name an address may have.
pub const MAX_NAME_LEN: usize = 64;

impl Session {
    /// What `normalise_name` makes of `raw`, or `None` when it refuses it.
    pub open spec fn spec_normalise(raw: Seq<char>) -> Option<Seq<char>> {
        let name = slug(raw);
        if name.len() == 0 || name.len() > MAX_NAME_LEN {
            None
        } else {
            Some(name)
        }
    }

    /// Session names are addresses, so they are normalised the way a hostname
    /// would be: lowercase, hyphenated, no surprises when typed twice.
    pub fn normalise_name(raw: &str) -> (r: Result<String>)
        ensures
            match r {
                Ok(name) => Self::spec_normalise(raw@) == Some(name@),
                Err(e) => Self::spec_normalise(raw@) is None && e is Invalid,
            },
    {
        let name = slug_of(raw);
        if name.len() == 0 {
            return Err(DomainError::invalid("a session name needs at least one letter or digit"));
        }
        if name.len() > MAX_NAME_LEN {
            return Err(DomainError::invalid("session names are 64 characters or less"));
        }
        Ok(string_of(name.as_slice()))
    }

    /// A copy of this session.
    pub fn duplicate(&self) -> (r: Session)
        ensures
            r == *self,
    {
        Session {
            id: self.id.clone(),
            name: self.name.clone(),
            kind: self.kind,
            status: self.status,
            workdir: self.workdir.clone(),
            runner: self.runner.clone(),
            model: match &self.model {
                Some(m) => Some(m.clone()),
                None => None,
            },
            parent_id: match &self.parent_id {
                Some(p) => Some(p.clone()),
                None => None,
            },
            depth: self.depth,
            created_at: self.created_at,
            updated_at: self.updated_at,
            usage: self.usage,
            pid: self.pid,
        }
    }

    pub fn matches_selector(&self, selector: &str) -> (r: bool)
        ensures
            r == (self.id@ == selector@ || self.name@ == selector@),
    {
        crate::text::same_text(self.id.as_str(), selector) || crate::text::same_text(
            self.name.as_str(),
            selector,
        )
    }
}

/// A request to start a session.
#[derive(Debug, Clone)]
pub struct StartSession {
    pub name: Option<String>,
    pub workdir: String,
    pub runner: String,
    pub model: Option<String>,
    pub kind: SessionKind,
    pub parent: Option<Session>,
}

/// The raw name a new session is addressed by: the one asked for, or its id.
/// An unnamed session still needs an address.
pub open spec fn start_name(request: StartSession, id: Seq<char>) -> Seq<char> {
    match request.name {
        Some(n) => n@,
        None => id,
    }
}

/// The normalised name a new session with id `id` is started under.
pub fn starting_name(request: &StartSession, id: &str) -> (r: Result<String>)
    ensures
        match r {
            Ok(name) => Session::spec_normalise(start_name(*request, id@)) == Some(name@),
            Err(e) => Session::spec_normalise(start_name(*request, id@)) is None && e is Invalid,
        },
{
    match &request.name {
        Some(raw) => Session::normalise_name(raw.as_str()),
        None => Session::normalise_name(id),
    }
}

/// The session a request starts, under the id and name it was given: idle,
/// with nothing spent, one level below its parent when it has one.
pub fn started(request: StartSession, id: &str, name: &str, now: i64) -> (r: Session)
    requires
        request.parent matches Some(p) ==> p.depth < u8::MAX,
    ensures
        r.id@ == id@,
        r.name@ == name@,
        r.kind == request.kind,
        r.status == SessionStatus::Idle,
        r.workdir == request.workdir,
        r.runner == request.runner,
        r.model == request.model,
        r.parent_id == (match request.parent {
            Some(p) => Some(p.id),
            None => None,
        }),
        r.depth == (match request.parent {
            Some(p) => p.depth + 1,
            None => 0,
        }),
        r.created_at == now,
        r.updated_at == now,
        r.usage == Usage::spec_zero(),
        r.pid is None,
{
    let StartSession { name: _, workdir, runner, model, kind, parent } = request;
    let (parent_id, depth) = match parent {
        Some(p) => (Some(p.id), p.depth + 1),
        None => (None, 0u8),
    };
    Session {
        id: owned(id),
        name: owned(name),
        kind,
        status: SessionStatus::Idle,
        workdir,
        runner,
        model,
        parent_id,
        depth,
        created_at: now,
        updated_at: now,
        usage: Usage::default(),
        pid: None,
    }
}

/// A stopped session: no worker, cancelled.
pub fn stopped(session: &mut Session, now: i64)
    ensures
        *final(session) == (Session {
            pid: None,
            status: SessionStatus::Cancelled,
            updated_at: now,
            ..*old(session)
        }),
{
    session.pid = None;
    session.status = SessionStatus::Cancelled;
    session.updated_at = now;
}

/// What reconciling a session against the running workers finds, and the
/// note it leaves: a session marked running with no worker is idle, and one
/// whose worker is gone (`worker_alive` is false) has failed. `None` when
/// the record is right.
pub open spec fn reconciliation(session: Session, worker_alive: bool, now: i64) -> Option<
    (Session, Seq<char>),
> {
    match session.pid {
        None => if session.status is Running {
            Some(
                (
                    Session { status: SessionStatus::Idle, updated_at: now, ..session },
                    "was marked running with no worker; now idle"@,
                ),
            )
        } else {
            None
        },
        Some(pid) => if !worker_alive {
            Some(
                (
                    Session {
                        pid: None,
                        status: SessionStatus::Failed,
                        updated_at: now,
                        ..session
                    },
                    "worker "@ + decimal(pid as nat) + " is gone; marked failed"@,
                ),
            )
        } else {
            None
        },
    }
}

/// Reconciles what the registry believes of one session against whether its
/// worker is alive (consulted only when it has one). Returns the note to
/// report when the record had to be corrected.
pub fn reconcile(session: &mut Session, worker_alive: bool, now: i64) -> (r: Option<String>)
    ensures
        match reconciliation(*old(session), worker_alive, now) {
            Some((fixed, note)) => *final(session) == fixed && (r matches Some(m) && m@ == note),
            None => *final(session) == *old(session) && r is None,
        },
{
    match session.pid {
        None => {
            if session.status == SessionStatus::Running {
                session.status = SessionStatus::Idle;
                session.updated_at = now;
                return Some(owned("was marked running with no worker; now idle"));
            }
            None
        },
        Some(pid) => {
            if !worker_alive {
                session.pid = None;
                session.status = SessionStatus::Failed;
                session.updated_at = now;
                let mut m = owned("worker ");
                let t = decimal_text(pid as u64);
                push_str(&mut m, t.as_str());
                push_str(&mut m, " is gone; marked failed");
                return Some(m);
            }
            None
        },
    }
}

/// Listing order: live sessions first, then the rest, most recently updated
/// first within each group.
pub open spec fn session_le(a: Session, b: Session) -> bool {
    if a.status.spec_is_live() != b.status.spec_is_live() {
        a.status.spec_is_live()
    } else {
        a.updated_at >= b.updated_at
    }
}

/// The sessions a listing shows: all of them, or only the live ones.
pub open spec fn shown(s: Seq<Session>, include_finished: bool) -> Seq<Session>
    decreases s.len(),
{
    if s.len() == 0 {
        s
    } else {
        let rest = shown(s.drop_last(), include_finished);
        if include_finished || s.last().status.spec_is_live() {
            rest.push(s.last())
        } else {
            rest
        }
    }
}

/// Where a stable insertion puts `x` into `t`.
pub open spec fn session_pos(t: Seq<Session>, x: Session) -> int
    decreases t.len(),
{
    if t.len() == 0 {
        0
    } else if session_le(t.last(), x) {
        t.len() as int
    } else {
        session_pos(t.drop_last(), x)
    }
}

/// `s` sorted stably in listing order.
pub open spec fn sessions_sorted(s: Seq<Session>) -> Seq<Session>
    decreases s.len(),
{
    if s.len() == 0 {
        s
    } else {
        let t = sessions_sorted(s.drop_last());
        t.insert(session_pos(t, s.last()), s.last())
    }
}

proof fn lemma_session_pos_bounds(t: Seq<Session>, x: Session)
    ensures
        0 <= session_pos(t, x) <= t.len(),
    decreases t.len(),
{
    if t.len() > 0 {
        lemma_session_pos_bounds(t.drop_last(), x);
    }
}

fn session_at_most(a: &Session, b: &Session) -> (r: bool)
    ensures
        r == session_le(*a, *b),
{
    let la = a.status.is_live();
    let lb = b.status.is_live();
    if la != lb {
        la
    } else {
        a.updated_at >= b.updated_at
    }
}

/// Sessions as `agents` lists them: live ones first, then the rest (when
/// asked for), most recently updated first within each group.
pub fn listing(rows: Vec<Session>, include_finished: bool) -> (r: Vec<Session>)
    ensures
        r@ == sessions_sorted(shown(rows@, include_finished)),
{
    let ghost orig = rows@;
    let n = rows.len();
    let mut rest = rows;
    let mut out: Vec<Session> = Vec::new();
    let mut i: usize = 0;
    assert(orig.take(0) =~= Seq::<Session>::empty());
    while rest.len() > 0
        invariant
            n == orig.len(),
            i + rest@.len() == n,
            rest@ == orig.skip(i as int),
            out@ == sessions_sorted(shown(orig.take(i as int), include_finished)),
        decreases rest@.len(),
    {
        let x = rest.remove(0);
        proof {
            assert(orig.take(i + 1).drop_last() =~= orig.take(i as int));
            assert(orig.take(i + 1).last() == x);
            assert(rest@ =~= orig.skip(i + 1));
        }
        if include_finished || x.status.is_live() {
            proof {
                let f = shown(orig.take(i + 1), include_finished);
                assert(f == shown(orig.take(i as int), include_finished).push(x));
                assert(f.drop_last() =~= shown(orig.take(i as int), include_finished));
                lemma_session_pos_bounds(out@, x);
            }
            let mut p = out.len();
            assert(out@.take(p as int) =~= out@);
            while p > 0 && !session_at_most(&out[p - 1], &x)
                invariant
                    p <= out@.len(),
                    session_pos(out@, x) == session_pos(out@.take(p as int), x),
                decreases p,
            {
                assert(out@.take(p as int).drop_last() =~= out@.take(p - 1));
                p -= 1;
            }
            proof {
                if p > 0 {
                    assert(out@.take(p as int).last() == out@[p - 1]);
                }
            }
            out.insert(p, x);
        }
        i += 1;
    }
    assert(orig.take(n as int) =~= orig);
    out
}

/// Where the session with id `id` stands in `rows`: the first one carrying
/// it, or `None` when no session does. A record naming a session that is not
/// there is an orphan.
pub fn position_of(rows: &Vec<Session>, id: &str) -> (r: Option<usize>)
    ensures
        match r {
            Some(i) => i < rows@.len() && rows@[i as int].id@ == id@ && forall|k: int|
                0 <= k < i ==> (#[trigger] rows@[k]).id@ != id@,
            None => forall|k: int| 0 <= k < rows@.len() ==> (#[trigger] rows@[k]).id@ != id@,
        },
{
    let mut i: usize = 0;
    while i < rows.len()
        invariant
            i <= rows@.len(),
            forall|k: int| 0 <= k < i ==> (#[trigger] rows@[k]).id@ != id@,
        decreases rows@.len() - i,
    {
        if crate::text::same_text(rows[i].id.as_str(), id) {
            return Some(i);
        }
        i += 1;
    }
    None
}

} // verus!
