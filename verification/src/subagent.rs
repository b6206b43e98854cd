//! Recursive delegation.
//!
//! The invariant that matters: **a spawn returns an admission handle, never
//! an answer**. The handle proves a child was admitted and says where to find
//! it. Results come back later as messages or files. A parent that blocks on
//! a child is a parent that cannot do anything else, and that is the
//! difference between delegation and a function call.
use vstd::prelude::*;

use crate::error::{DomainError, Result};
use crate::runner::{RunOutcome, RunRequest, DEFAULT_RUN_TIMEOUT_SECS};
use crate::session::{Session, SessionKind, SessionStatus, Usage};
use crate::text::{
    decimal, decimal_text, is_text, keyword, lower, owned, push_chars, push_str, same_text, string_of, trim,
    trimmed,
};

verus! {

#[derive(Debug, Clone, Copy, PartialEq, Eq, Structural)]
pub enum SubagentStatus {
    /// Admitted, not yet started by the runner.
    Admitted,
    Running,
    Completed,
    Failed,
    Cancelled,
    /// Deleted by the parent. The registry keeps a tombstone; the transcript
    /// on disk is left alone.
    Deleted,
}

impl SubagentStatus {
    pub open spec fn spec_is_live(self) -> bool {
        self is Admitted || self is Running
    }

    pub open spec fn spec_is_addressable(self) -> bool {
        self is Admitted || self is Running || self is Completed
    }

    pub fn is_live(self) -> (r: bool)
        ensures
            r == self.spec_is_live(),
    {
        match self {
            SubagentStatus::Admitted | SubagentStatus::Running => true,
            _ => false,
        }
    }

    /// Can the parent still send this child a message?
    pub fn is_addressable(self) -> (r: bool)
        ensures
            r == self.spec_is_addressable(),
    {
        match self {
            SubagentStatus::Admitted | SubagentStatus::Running | SubagentStatus::Completed => true,
            _ => false,
        }
    }

    pub open spec fn spec_label(self) -> Seq<char> {
        match self {
            SubagentStatus::Admitted => "admitted"@,
            SubagentStatus::Running => "running"@,
            SubagentStatus::Completed => "completed"@,
            SubagentStatus::Failed => "failed"@,
            SubagentStatus::Cancelled => "cancelled"@,
            SubagentStatus::Deleted => "deleted"@,
        }
    }

    pub fn label(self) -> (r: &'static str)
        ensures
            r@ == self.spec_label(),
    {
        match self {
            SubagentStatus::Admitted => "admitted",
            SubagentStatus::Running => "running",
            SubagentStatus::Completed => "completed",
            SubagentStatus::Failed => "failed",
            SubagentStatus::Cancelled => "cancelled",
            SubagentStatus::Deleted => "deleted",
        }
    }
}

/// The finishing status a trimmed, lower-cased word names when a child is
/// settled by hand.
pub open spec fn settled_named(key: Seq<char>) -> Option<SubagentStatus> {
    if key == "completed"@ || key == "complete"@ || key == "done"@ {
        Some(SubagentStatus::Completed)
    } else if key == "failed"@ || key == "error"@ {
        Some(SubagentStatus::Failed)
    } else if key == "cancelled"@ || key == "canceled"@ {
        Some(SubagentStatus::Cancelled)
    } else {
        None
    }
}

/// Reads the status a child is settled with. Only the three finishing states
/// can be named; anything else is refused with the word that was given.
pub fn settle_status(text: &str) -> (r: Result<SubagentStatus>)
    ensures
        match r {
            Ok(status) => settled_named(lower(trim(text@))) == Some(status),
            Err(e) => settled_named(lower(trim(text@))) is None && (e matches DomainError::Invalid(m)
                && m@ == "unknown status '"@ + lower(trim(text@))
                + "'; expected completed, failed or cancelled"@),
        },
{
    let k = keyword(text);
    let key = k.as_slice();
    if is_text(key, "completed") || is_text(key, "complete") || is_text(key, "done") {
        Ok(SubagentStatus::Completed)
    } else if is_text(key, "failed") || is_text(key, "error") {
        Ok(SubagentStatus::Failed)
    } else if is_text(key, "cancelled") || is_text(key, "canceled") {
        Ok(SubagentStatus::Cancelled)
    } else {
        let mut m = owned("unknown status '");
        push_chars(&mut m, key);
        push_str(&mut m, "'; expected completed, failed or cancelled");
        Err(DomainError::Invalid(m))
    }
}

/// Every live child is addressable; a finished one stays addressable only
/// when it completed.
pub proof fn lemma_live_children_are_addressable(s: SubagentStatus)
    ensures
        s.spec_is_live() ==> s.spec_is_addressable(),
        s.spec_is_addressable() && !s.spec_is_live() <==> s is Completed,
{
}

/// What comes back the instant a child is admitted.
#[derive(Debug, Clone, PartialEq, Eq)]
pub struct SpawnHandle {
    pub child_id: String,
    pub name: String,
    pub session_id: String,
    pub session_dir: String,
    pub model: String,
    pub depth: u8,
}

/// What comes back from a **blocking** delegation: the parent asked a
/// question whose answer is the input to its next step, and waited for it.
#[derive(Debug, Clone, PartialEq, Eq)]
pub struct CallResult {
    pub handle: SpawnHandle,
    /// False when the child ran and failed. The text may still hold whatever
    /// it managed to say, so this is what a caller must branch on rather than
    /// on the text being non-empty.
    pub ok: bool,
    pub text: String,
    pub usage: Usage,
    pub error: Option<String>,
    pub duration_ms: u64,
}

/// A reusable delegation role, as stored in the harness.
#[derive(Debug, Clone, PartialEq, Eq)]
pub struct SubagentSpec {
    pub name: String,
    pub prompt: String,
    pub model: Option<String>,
    pub tools: Vec<String>,
    pub runner: Option<String>,
}

/// A child in the parent-scoped registry. Instants are seconds since
/// 1970-01-01T00:00:00Z.
#[derive(Debug, Clone, PartialEq, Eq)]
pub struct Subagent {
    pub child_id: String,
    pub parent_session_id: String,
    pub session_id: String,
    pub name: String,
    pub session_dir: String,
    pub model: String,
    pub runner: String,
    pub prompt: String,
    pub depth: u8,
    pub status: SubagentStatus,
    pub created_at: i64,
    pub updated_at: i64,
    pub usage: Usage,
    /// Set once the child's usage has been folded into the parent, so a
    /// replayed registry cannot double-charge.
    pub usage_attributed: bool,
    pub last_error: Option<String>,
}

impl Subagent {
    pub fn handle(&self) -> (r: SpawnHandle)
        ensures
            r == (SpawnHandle {
                child_id: self.child_id,
                name: self.name,
                session_id: self.session_id,
                session_dir: self.session_dir,
                model: self.model,
                depth: self.depth,
            }),
    {
        SpawnHandle {
            child_id: self.child_id.clone(),
            name: self.name.clone(),
            session_id: self.session_id.clone(),
            session_dir: self.session_dir.clone(),
            model: self.model.clone(),
            depth: self.depth,
        }
    }

    /// A child answers to its child id, its session id or its name.
    pub fn matches_selector(&self, selector: &str) -> (r: bool)
        ensures
            r == (self.child_id@ == selector@ || self.session_id@ == selector@ || self.name@
                == selector@),
    {
        same_text(self.child_id.as_str(), selector) || same_text(self.session_id.as_str(), selector)
            || same_text(self.name.as_str(), selector)
    }

    pub fn settle(&mut self, status: SubagentStatus, now: i64)
        ensures
            *final(self) == (Subagent { status, updated_at: now, ..*old(self) }),
    {
        self.status = status;
        self.updated_at = now;
    }
}

/// The message a child is refused with when its parent is already at the
/// deepest level the policy allows.
pub open spec fn depth_refusal(parent_depth: u8, max_depth: u8) -> Seq<char> {
    "recursion depth "@ + decimal(parent_depth as nat) + " reached (max "@ + decimal(
        max_depth as nat,
    ) + "); raise max-depth to go deeper"@
}

/// The recursion rule, kept in one place so both the caller and the host can
/// apply it and agree.
#[derive(Debug, Clone, Copy, PartialEq, Eq, Structural)]
pub struct DepthPolicy {
    pub max_depth: u8,
}

impl Default for DepthPolicy {
    /// One: a root session may create children, and those children may not
    /// create grandchildren unless this is raised.
    fn default() -> (r: Self)
        ensures
            r.max_depth == 1,
    {
        DepthPolicy { max_depth: 1 }
    }
}

impl DepthPolicy {
    /// The depth of a child of a session at `parent_depth`, if one may be made.
    pub fn child_depth(&self, parent_depth: u8) -> (r: Result<u8>)
        ensures
            match r {
                Ok(d) => parent_depth < self.max_depth && d == parent_depth + 1,
                Err(e) => parent_depth >= self.max_depth && (e matches DomainError::Forbidden(m)
                    && m@ == depth_refusal(parent_depth, self.max_depth)),
            },
    {
        if parent_depth >= self.max_depth {
            let mut m = owned("recursion depth ");
            let a = decimal_text(parent_depth as u64);
            push_str(&mut m, a.as_str());
            push_str(&mut m, " reached (max ");
            let b = decimal_text(self.max_depth as u64);
            push_str(&mut m, b.as_str());
            push_str(&mut m, "); raise max-depth to go deeper");
            return Err(DomainError::Forbidden(m));
        }
        Ok(parent_depth + 1)
    }
}

/// No chain of admissions goes deeper than the policy allows: every admitted
/// child sits at a depth of at most `max_depth`, one below its parent.
pub proof fn lemma_depth_is_bounded(policy: DepthPolicy, parent_depth: u8)
    requires
        parent_depth < policy.max_depth,
    ensures
        parent_depth + 1 <= policy.max_depth,
{
}

/// A request to delegate work to a child.
#[derive(Debug, Clone)]
pub struct Spawn {
    pub parent_selector: String,
    pub prompt: String,
    pub name: Option<String>,
    pub model: Option<String>,
    /// Defaults to the parent's runner: a panel that all thinks alike is not a
    /// panel, but a child that cannot be resumed is worse.
    pub runner: Option<String>,
    pub system_prompt: Option<String>,
}

/// The raw name a child is addressed by: the one asked for, or its id.
pub open spec fn requested_name(request: Spawn, child_id: Seq<char>) -> Seq<char> {
    match request.name {
        Some(n) => n@,
        None => child_id,
    }
}

/// The runner a child runs under: the one asked for, or its parent's.
pub open spec fn chosen_runner(request: Spawn, parent: Session) -> Seq<char> {
    match request.runner {
        Some(r) => r@,
        None => parent.runner@,
    }
}

/// The model a child runs: the one asked for, else its parent's, else
/// `default`. There is deliberately no fallback to some other model that
/// happens to be available.
pub open spec fn chosen_model(request: Spawn, parent: Session) -> Seq<char> {
    match request.model {
        Some(m) => m@,
        None => match parent.model {
            Some(m) => m@,
            None => "default"@,
        },
    }
}

/// The checks a child passes before anything is created for it: the depth
/// the policy allows below a parent at `parent_depth`, a prompt, and a name
/// that normalises (the one asked for, or `child_id`). Returns the child's
/// depth and normalised name; a refusal leaves nothing behind.
pub fn admission(request: &Spawn, parent_depth: u8, policy: DepthPolicy, child_id: &str) -> (r:
    Result<(u8, String)>)
    ensures
        match r {
            Ok((depth, name)) => {
                &&& parent_depth < policy.max_depth
                &&& depth == parent_depth + 1
                &&& trim(request.prompt@).len() > 0
                &&& Session::spec_normalise(requested_name(*request, child_id@)) == Some(name@)
            },
            Err(e) => {
                ||| parent_depth >= policy.max_depth && (e matches DomainError::Forbidden(m) && m@
                    == depth_refusal(parent_depth, policy.max_depth))
                ||| parent_depth < policy.max_depth && trim(request.prompt@).len() == 0 && (e matches DomainError::Invalid(
                    m,
                ) && m@ == "a subagent needs a prompt"@)
                ||| parent_depth < policy.max_depth && trim(request.prompt@).len() > 0
                    && Session::spec_normalise(requested_name(*request, child_id@)) is None
                    && e is Invalid
            },
        },
{
    let depth = policy.child_depth(parent_depth)?;
    let prompt = trimmed(request.prompt.as_str());
    if prompt.len() == 0 {
        return Err(DomainError::invalid("a subagent needs a prompt"));
    }
    let name = match &request.name {
        Some(raw) => Session::normalise_name(raw.as_str()),
        None => Session::normalise_name(child_id),
    };
    match name {
        Ok(n) => Ok((depth, n)),
        Err(e) => Err(e),
    }
}

/// The records of an admitted child: its registry entry and its session.
/// The child works in its parent's directory under its own name, keeps its
/// files under the parent's workdir in a directory named by its id, and
/// starts with nothing spent.
pub fn admitted(
    request: &Spawn,
    parent: &Session,
    depth: u8,
    name: &str,
    child_id: &str,
    session_id: &str,
    now: i64,
) -> (r: (Subagent, Session))
    ensures
        r.0.child_id@ == child_id@,
        r.0.parent_session_id@ == parent.id@,
        r.0.session_id@ == session_id@,
        r.0.name@ == name@,
        r.0.session_dir@ == parent.workdir@ + "/"@ + child_id@,
        r.0.model@ == chosen_model(*request, *parent),
        r.0.runner@ == chosen_runner(*request, *parent),
        r.0.prompt@ == trim(request.prompt@),
        r.0.depth == depth,
        r.0.status == SubagentStatus::Admitted,
        r.0.created_at == now,
        r.0.updated_at == now,
        r.0.usage == Usage::spec_zero(),
        !r.0.usage_attributed,
        r.0.last_error is None,
        r.1.id@ == session_id@,
        r.1.name@ == name@,
        r.1.kind == SessionKind::Child,
        r.1.status == SessionStatus::Running,
        r.1.workdir@ == parent.workdir@,
        r.1.runner@ == chosen_runner(*request, *parent),
        r.1.model matches Some(m) && m@ == chosen_model(*request, *parent),
        r.1.parent_id matches Some(p) && p@ == parent.id@,
        r.1.depth == depth,
        r.1.created_at == now,
        r.1.updated_at == now,
        r.1.usage == Usage::spec_zero(),
        r.1.pid is None,
{
    let runner = match &request.runner {
        Some(r) => r.clone(),
        None => parent.runner.clone(),
    };
    let model = match &request.model {
        Some(m) => m.clone(),
        None => match &parent.model {
            Some(m) => m.clone(),
            None => owned("default"),
        },
    };
    let mut session_dir = parent.workdir.clone();
    push_str(&mut session_dir, "/");
    push_str(&mut session_dir, child_id);
    let prompt = trimmed(request.prompt.as_str());
    let session = Session {
        id: owned(session_id),
        name: owned(name),
        kind: SessionKind::Child,
        status: SessionStatus::Running,
        workdir: parent.workdir.clone(),
        runner: runner.clone(),
        model: Some(model.clone()),
        parent_id: Some(parent.id.clone()),
        depth,
        created_at: now,
        updated_at: now,
        usage: Usage::default(),
        pid: None,
    };
    let child = Subagent {
        child_id: owned(child_id),
        parent_session_id: parent.id.clone(),
        session_id: owned(session_id),
        name: owned(name),
        session_dir,
        model,
        runner,
        prompt: string_of(prompt.as_slice()),
        depth,
        status: SubagentStatus::Admitted,
        created_at: now,
        updated_at: now,
        usage: Usage::default(),
        usage_attributed: false,
        last_error: None,
    };
    (child, session)
}

/// What settling does to a child and its parent: the child takes `usage`
/// and `status`, and its usage is folded into the parent's the first time
/// only.
pub open spec fn settled(
    child: Subagent,
    parent: Session,
    status: SubagentStatus,
    usage: Usage,
    now: i64,
) -> (Subagent, Session) {
    let c = Subagent { usage, status, updated_at: now, usage_attributed: true, ..child };
    if child.usage_attributed {
        (c, parent)
    } else {
        (c, Session { usage: parent.usage.spec_attribute_child(usage), updated_at: now, ..parent })
    }
}

/// Records a child finishing with `usage` and folds its cost into the
/// parent, once. Returns whether this call did the folding: the flag on the
/// child exists so that replaying a settlement cannot double-charge a parent.
pub fn settle_child(
    child: &mut Subagent,
    parent: &mut Session,
    status: SubagentStatus,
    usage: Usage,
    now: i64,
) -> (r: bool)
    requires
        old(child).usage_attributed || old(parent).usage.can_attribute(usage),
    ensures
        r == !old(child).usage_attributed,
        (*final(child), *final(parent)) == settled(*old(child), *old(parent), status, usage, now),
{
    child.usage = usage;
    child.settle(status, now);
    if !child.usage_attributed {
        parent.usage.attribute_child(&child.usage);
        parent.updated_at = now;
        child.usage_attributed = true;
        true
    } else {
        false
    }
}

/// Child usage is attributed to the parent exactly once: settling a child a
/// second time leaves the parent as the first settlement left it, and the
/// parent has been charged the first settlement's usage once.
pub proof fn lemma_attributed_once(
    child: Subagent,
    parent: Session,
    first: SubagentStatus,
    first_usage: Usage,
    first_at: i64,
    second: SubagentStatus,
    second_usage: Usage,
    second_at: i64,
)
    requires
        !child.usage_attributed,
    ensures
        ({
            let (c1, p1) = settled(child, parent, first, first_usage, first_at);
            let (c2, p2) = settled(c1, p1, second, second_usage, second_at);
            &&& p2 == p1
            &&& p1.usage == parent.usage.spec_attribute_child(first_usage)
            &&& c2.usage_attributed
        }),
{
}

/// The turn that runs a child: its prompt, in `workdir`, under the child's
/// own model and with the system prompt asked for. A spawned child runs
/// detached and nobody waits for it; a called one is waited for, under
/// `timeout_secs` when one is given.
pub fn child_request(
    child: &Subagent,
    workdir: &str,
    system_prompt: Option<String>,
    detached: bool,
    timeout_secs: Option<u64>,
) -> (r: Result<RunRequest>)
    ensures
        match r {
            Ok(q) => {
                &&& trim(child.prompt@).len() > 0
                &&& q.session_id@ == child.session_id@
                &&& q.runner_session is None
                &&& q.prompt@ == trim(child.prompt@)
                &&& q.system_prompt == system_prompt
                &&& q.model matches Some(m) && m@ == child.model@
                &&& q.workdir@ == workdir@
                &&& q.delivery is Auto
                &&& q.timeout_secs == (match timeout_secs {
                    Some(t) => t,
                    None => DEFAULT_RUN_TIMEOUT_SECS,
                })
                &&& q.detached == detached
            },
            Err(e) => trim(child.prompt@).len() == 0 && e is Invalid,
        },
{
    let q = RunRequest::new(child.session_id.as_str(), child.prompt.as_str(), workdir)?;
    let mut q = q.with_model(Some(child.model.clone())).with_system_prompt(system_prompt);
    if detached {
        q = q.detached();
    }
    match timeout_secs {
        Some(t) => {
            q.timeout_secs = t;
        },
        None => {},
    }
    Ok(q)
}

/// The children of `parent_id` in `s`, in order; deleted ones only when
/// asked for. A deleted child keeps its registry entry and its transcript,
/// but no longer answers to a listing.
pub open spec fn children_in(s: Seq<Subagent>, parent_id: Seq<char>, include_deleted: bool) -> Seq<Subagent>
    decreases s.len(),
{
    if s.len() == 0 {
        s
    } else {
        let rest = children_in(s.drop_last(), parent_id, include_deleted);
        let child = s.last();
        if child.parent_session_id@ == parent_id && (include_deleted || !(child.status is Deleted)) {
            rest.push(child)
        } else {
            rest
        }
    }
}

/// Keeps the children a listing shows; see [`children_in`].
pub fn children_of(rows: Vec<Subagent>, parent_id: &str, include_deleted: bool) -> (r: Vec<Subagent>)
    ensures
        r@ == children_in(rows@, parent_id@, include_deleted),
{
    let ghost orig = rows@;
    let n = rows.len();
    let mut rest = rows;
    let mut out: Vec<Subagent> = Vec::new();
    let mut i: usize = 0;
    while rest.len() > 0
        invariant
            n == orig.len(),
            i + rest@.len() == n,
            rest@ == orig.skip(i as int),
            out@ == children_in(orig.take(i as int), parent_id@, include_deleted),
        decreases rest@.len(),
    {
        let x = rest.remove(0);
        proof {
            assert(orig.take(i + 1).drop_last() =~= orig.take(i as int));
            assert(orig.take(i + 1).last() == x);
            assert(rest@ =~= orig.skip(i + 1));
        }
        let mine = same_text(x.parent_session_id.as_str(), parent_id);
        if mine && (include_deleted || x.status != SubagentStatus::Deleted) {
            out.push(x);
        }
        i = i + 1;
    }
    proof {
        assert(orig.take(n as int) =~= orig);
    }
    out
}

/// Some child of `parent_id` already answers to `name`: by its child id, its
/// session id or its name. A new child cannot take a name that is taken.
pub open spec fn taken(children: Seq<Subagent>, parent_id: Seq<char>, name: Seq<char>) -> bool {
    exists|k: int|
        0 <= k < children.len() && (#[trigger] children[k]).parent_session_id@ == parent_id && (
        children[k].child_id@ == name || children[k].session_id@ == name || children[k].name@ == name)
}

/// Whether `name` is taken among the children of `parent_id`; see [`taken`].
pub fn name_taken(children: &Vec<Subagent>, parent_id: &str, name: &str) -> (r: bool)
    ensures
        r == taken(children@, parent_id@, name@),
{
    let mut i: usize = 0;
    while i < children.len()
        invariant
            i <= children@.len(),
            forall|k: int|
                0 <= k < i ==> !((#[trigger] children@[k]).parent_session_id@ == parent_id@ && (
                children@[k].child_id@ == name@ || children@[k].session_id@ == name@ || children@[k].name@
                    == name@)),
        decreases children@.len() - i,
    {
        let c = &children[i];
        if same_text(c.parent_session_id.as_str(), parent_id) && c.matches_selector(name) {
            assert(children@[i as int] == *c);
            return true;
        }
        i += 1;
    }
    false
}

/// Records a child that never got off the ground. It stays in the registry
/// as a failed entry rather than vanishing: a delegation that never ran is
/// something the parent needs to find out about.
pub fn launch_failed(child: &mut Subagent, error: &DomainError)
    ensures
        *final(child) == (Subagent {
            status: SubagentStatus::Failed,
            last_error: final(child).last_error,
            ..*old(child)
        }),
        final(child).last_error matches Some(m) && m@ == error.spec_message(),
{
    child.status = SubagentStatus::Failed;
    child.last_error = Some(error.message());
}

/// The status a waited-for child settles in: completed when its run went
/// well, failed otherwise. A child that ran and failed is still a child that
/// ran, and is settled with what it cost.
pub fn call_status(ok: bool) -> (r: SubagentStatus)
    ensures
        r == (if ok {
            SubagentStatus::Completed
        } else {
            SubagentStatus::Failed
        }),
{
    if ok {
        SubagentStatus::Completed
    } else {
        SubagentStatus::Failed
    }
}

/// What a waited-for child hands back: its handle and everything its run
/// reported. `ok` is what a caller branches on, never whether the text is
/// empty.
pub fn call_result(handle: SpawnHandle, outcome: RunOutcome) -> (r: CallResult)
    ensures
        r.handle == handle,
        r.ok == outcome.ok,
        r.text == outcome.text,
        r.usage == outcome.usage,
        r.error == outcome.error,
        r.duration_ms == outcome.duration_ms,
{
    CallResult {
        handle,
        ok: outcome.ok,
        text: outcome.text,
        usage: outcome.usage,
        error: outcome.error,
        duration_ms: outcome.duration_ms,
    }
}

} // verus!
