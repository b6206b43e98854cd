//! Agent-to-agent messages, and the decisions the message bus makes.
//!
//! Delivery is decided by what the target is doing, not by what the sender
//! hopes. An idle target receives immediately; a busy one is either steered
//! (interrupted on purpose) or queued behind its current turn. The sender is
//! told which happened, because "delivered" and "queued" lead to different
//! next moves.
use vstd::prelude::*;

use crate::error::{DomainError, Result};
use crate::heartbeat::DeliveryMode;
use crate::session::{Session, SessionStatus};
use crate::subagent::{Subagent, SubagentStatus};
use crate::text::{
    chars_of, decimal, decimal_text, is_text, keyword, lower, lowered, owned, push_chars, push_str,
    same_text, string_of, trim, trimmed,
};

verus! {

/// Who, relative to the sender, is being addressed.
#[derive(Debug, Clone, Copy, PartialEq, Eq, Structural)]
pub enum ReceiverRole {
    Parent,
    Child,
    Sibling,
    /// Any addressable session on this machine, named directly.
    Peer,
    /// Everyone in the sender's family: parent, children, siblings. Never
    /// the whole machine: a broadcast that can reach unrelated work is a
    /// footgun.
    Broadcast,
}

impl ReceiverRole {
    /// The role a trimmed, lower-cased text names.
    pub open spec fn named(key: Seq<char>) -> Option<ReceiverRole> {
        if key == "parent"@ {
            Some(ReceiverRole::Parent)
        } else if key == "child"@ {
            Some(ReceiverRole::Child)
        } else if key == "sibling"@ {
            Some(ReceiverRole::Sibling)
        } else if key == "peer"@ || key == "agent"@ {
            Some(ReceiverRole::Peer)
        } else if key == "all"@ || key == "broadcast"@ {
            Some(ReceiverRole::Broadcast)
        } else {
            None
        }
    }

    pub fn parse(text: &str) -> (r: Result<ReceiverRole>)
        ensures
            match r {
                Ok(role) => Self::named(lower(trim(text@))) == Some(role),
                Err(e) => Self::named(lower(trim(text@))) is None && e is Invalid,
            },
    {
        let k = keyword(text);
        let key = k.as_slice();
        if is_text(key, "parent") {
            Ok(ReceiverRole::Parent)
        } else if is_text(key, "child") {
            Ok(ReceiverRole::Child)
        } else if is_text(key, "sibling") {
            Ok(ReceiverRole::Sibling)
        } else if is_text(key, "peer") || is_text(key, "agent") {
            Ok(ReceiverRole::Peer)
        } else if is_text(key, "all") || is_text(key, "broadcast") {
            Ok(ReceiverRole::Broadcast)
        } else {
            let mut m = owned("unknown receiver role '");
            push_chars(&mut m, key);
            push_str(&mut m, "'; expected parent, child, sibling, peer or all");
            Err(DomainError::Invalid(m))
        }
    }

    pub open spec fn spec_label(self) -> Seq<char> {
        match self {
            ReceiverRole::Parent => "parent"@,
            ReceiverRole::Child => "child"@,
            ReceiverRole::Sibling => "sibling"@,
            ReceiverRole::Peer => "peer"@,
            ReceiverRole::Broadcast => "all"@,
        }
    }

    pub fn label(self) -> (r: &'static str)
        ensures
            r@ == self.spec_label(),
    {
        match self {
            ReceiverRole::Parent => "parent",
            ReceiverRole::Child => "child",
            ReceiverRole::Sibling => "sibling",
            ReceiverRole::Peer => "peer",
            ReceiverRole::Broadcast => "all",
        }
    }

    pub open spec fn spec_needs_name(self) -> bool {
        self is Child || self is Sibling || self is Peer
    }

    pub fn needs_name(self) -> (r: bool)
        ensures
            r == self.spec_needs_name(),
    {
        match self {
            ReceiverRole::Child | ReceiverRole::Sibling | ReceiverRole::Peer => true,
            _ => false,
        }
    }
}

#[derive(Debug, Clone, Copy, PartialEq, Eq, Structural)]
pub enum DeliveryStatus {
    /// Reached an idle target's context immediately.
    Delivered,
    /// Accepted for later delivery to a busy target.
    Queued,
    /// Read by the receiving session.
    Consumed,
    Failed,
}

impl DeliveryStatus {
    pub open spec fn spec_label(self) -> Seq<char> {
        match self {
            DeliveryStatus::Delivered => "delivered"@,
            DeliveryStatus::Queued => "queued"@,
            DeliveryStatus::Consumed => "consumed"@,
            DeliveryStatus::Failed => "failed"@,
        }
    }

    pub fn label(self) -> (r: &'static str)
        ensures
            r@ == self.spec_label(),
    {
        match self {
            DeliveryStatus::Delivered => "delivered",
            DeliveryStatus::Queued => "queued",
            DeliveryStatus::Consumed => "consumed",
            DeliveryStatus::Failed => "failed",
        }
    }
}

/// Limits the bus enforces so one chatty agent cannot drown another.
#[derive(Debug, Clone, Copy, PartialEq, Eq, Structural)]
pub struct MessageLimits {
    pub max_body_bytes: usize,
    pub max_pending_per_target: usize,
}

impl Default for MessageLimits {
    fn default() -> (r: Self)
        ensures
            r == (MessageLimits { max_body_bytes: 65536, max_pending_per_target: 64 }),
    {
        MessageLimits { max_body_bytes: 64 * 1024, max_pending_per_target: 64 }
    }
}

/// A message between agents. Instants are seconds since 1970-01-01T00:00:00Z.
#[derive(Debug, Clone, PartialEq, Eq)]
pub struct AgentMessage {
    pub id: String,
    pub sender_session_id: String,
    pub sender_name: String,
    pub receiver_role: ReceiverRole,
    /// Resolved target session id. Set at accept time so a rename cannot
    /// misroute a message that was already queued.
    pub receiver_session_id: String,
    pub receiver_name: String,
    pub body: String,
    pub mode: DeliveryMode,
    pub status: DeliveryStatus,
    pub created_at: i64,
    pub delivered_at: Option<i64>,
    pub error: Option<String>,
}

/// The length in bytes `str::len` reports for text `s`: that of its UTF-8
/// encoding.
pub open spec fn utf8_len(s: Seq<char>) -> usize {
    vstd::utf8::encode_utf8(s).len() as usize
}

impl AgentMessage {
    pub fn new(
        id: &str,
        sender_session_id: &str,
        sender_name: &str,
        receiver_role: ReceiverRole,
        receiver_session_id: &str,
        receiver_name: &str,
        body: &str,
        mode: DeliveryMode,
        limits: MessageLimits,
        now: i64,
    ) -> (r: Result<AgentMessage>)
        ensures
            match r {
                Ok(m) => {
                    &&& trim(body@).len() > 0
                    &&& utf8_len(trim(body@)) <= limits.max_body_bytes
                    &&& m.id@ == id@
                    &&& m.sender_session_id@ == sender_session_id@
                    &&& m.sender_name@ == sender_name@
                    &&& m.receiver_role == receiver_role
                    &&& m.receiver_session_id@ == receiver_session_id@
                    &&& m.receiver_name@ == receiver_name@
                    &&& m.body@ == trim(body@)
                    &&& m.mode == mode
                    &&& m.status is Queued
                    &&& m.created_at == now
                    &&& m.delivered_at is None
                    &&& m.error is None
                },
                Err(e) => if trim(body@).len() == 0 {
                    e is Invalid
                } else {
                    &&& utf8_len(trim(body@)) > limits.max_body_bytes
                    &&& e matches DomainError::LimitReached { limit, reached, allowed }
                    &&& limit@ == "message size"@
                    &&& reached == utf8_len(trim(body@))
                    &&& allowed == limits.max_body_bytes
                },
            },
    {
        let t = trimmed(body);
        if t.len() == 0 {
            return Err(DomainError::invalid("a message needs a body"));
        }
        let text = string_of(t.as_slice());
        let bytes = text.as_str().len();
        if bytes > limits.max_body_bytes {
            return Err(
                DomainError::LimitReached {
                    limit: owned("message size"),
                    reached: bytes as u64,
                    allowed: limits.max_body_bytes as u64,
                },
            );
        }
        Ok(AgentMessage {
            id: owned(id),
            sender_session_id: owned(sender_session_id),
            sender_name: owned(sender_name),
            receiver_role,
            receiver_session_id: owned(receiver_session_id),
            receiver_name: owned(receiver_name),
            body: text,
            mode,
            status: DeliveryStatus::Queued,
            created_at: now,
            delivered_at: None,
            error: None,
        })
    }

    /// Records a delivery status; arriving (delivered or consumed) stamps the time.
    pub fn mark(&mut self, status: DeliveryStatus, now: i64)
        ensures
            *final(self) == (AgentMessage {
                status,
                delivered_at: if status is Delivered || status is Consumed {
                    Some(now)
                } else {
                    old(self).delivered_at
                },
                ..*old(self)
            }),
    {
        self.status = status;
        match status {
            DeliveryStatus::Delivered | DeliveryStatus::Consumed => {
                self.delivered_at = Some(now);
            },
            _ => {},
        }
    }

    pub fn is_pending(&self) -> (r: bool)
        ensures
            r == (self.status is Queued || self.status is Delivered),
    {
        match self.status {
            DeliveryStatus::Queued | DeliveryStatus::Delivered => true,
            _ => false,
        }
    }
}

/// What the sender gets back.
#[derive(Debug, Clone, PartialEq, Eq)]
pub struct Receipt {
    pub message_id: String,
    pub receiver_name: String,
    pub delivery_status: DeliveryStatus,
    pub note: Option<String>,
}

/// A request to send a message.
#[derive(Debug, Clone, PartialEq, Eq)]
pub struct Send {
    pub from_selector: String,
    pub role: ReceiverRole,
    /// Required for child, sibling and peer; ignored for parent and broadcast.
    pub to_name: Option<String>,
    pub body: String,
    pub mode: DeliveryMode,
}

/// Who `send TARGET` addresses: `all`, in any letter case, is the broadcast
/// form and names nobody; any other target is the name of one receiver, in
/// the role given.
pub fn addressing(target: &str, role: &str) -> (r: Result<(ReceiverRole, Option<String>)>)
    ensures
        lower(target@) == "all"@ ==> r matches Ok((ReceiverRole::Broadcast, None)),
        lower(target@) != "all"@ ==> match r {
            Ok((chosen, to)) => ReceiverRole::named(lower(trim(role@))) == Some(chosen) && (to matches Some(
                name,
            ) && name@ == target@),
            Err(e) => ReceiverRole::named(lower(trim(role@))) is None && e is Invalid,
        },
{
    let chars = chars_of(target);
    let folded = lowered(chars.as_slice());
    if is_text(folded.as_slice(), "all") {
        return Ok((ReceiverRole::Broadcast, None));
    }
    let chosen = ReceiverRole::parse(role)?;
    Ok((chosen, Some(owned(target))))
}

/// Who a session may talk to, and how they are related.
#[derive(Debug, Clone, PartialEq, Eq)]
pub struct RosterEntry {
    pub name: String,
    pub session_id: String,
    pub role: ReceiverRole,
    pub status: SessionStatus,
}

/// How a message reaches a target doing `target`'s work.
pub open spec fn delivery_for(mode: DeliveryMode, target: SessionStatus) -> DeliveryStatus {
    match mode {
        DeliveryMode::Steer => DeliveryStatus::Delivered,
        DeliveryMode::FollowUp => DeliveryStatus::Queued,
        DeliveryMode::Auto => if target is Running {
            DeliveryStatus::Queued
        } else {
            DeliveryStatus::Delivered
        },
    }
}

/// Steering lands now whatever the target is doing: for every status of the
/// target, a steered message is delivered. A follow-up is queued whatever
/// the target is doing, and an automatic one waits only for a running target.
pub proof fn lemma_delivery_by_mode(target: SessionStatus)
    ensures
        delivery_for(DeliveryMode::Steer, target) == DeliveryStatus::Delivered,
        delivery_for(DeliveryMode::FollowUp, target) == DeliveryStatus::Queued,
        delivery_for(DeliveryMode::Auto, target) == (if target is Running {
            DeliveryStatus::Queued
        } else {
            DeliveryStatus::Delivered
        }),
{
}

/// How a message reaches its target. Steering is an explicit request to
/// interrupt: it lands now whatever the target is doing. A follow-up always
/// waits, even for an idle target, because the sender asked for "after
/// whatever you're doing". Otherwise a busy target queues and an idle one
/// receives.
pub fn decide_delivery(mode: DeliveryMode, target: SessionStatus) -> (r: DeliveryStatus)
    ensures
        r == delivery_for(mode, target),
        mode is Steer ==> r is Delivered,
        mode is FollowUp ==> r is Queued,
        mode is Auto ==> (r is Queued <==> target is Running),
{
    match mode {
        DeliveryMode::Steer => DeliveryStatus::Delivered,
        DeliveryMode::FollowUp => DeliveryStatus::Queued,
        DeliveryMode::Auto => match target {
            SessionStatus::Running => DeliveryStatus::Queued,
            _ => DeliveryStatus::Delivered,
        },
    }
}

/// A roster entry as values: name, session id, role, status.
pub type RosterView = (Seq<char>, Seq<char>, ReceiverRole, SessionStatus);

pub open spec fn roster_view(e: RosterEntry) -> RosterView {
    (e.name@, e.session_id@, e.role, e.status)
}

pub open spec fn roster_views(v: Seq<RosterEntry>) -> Seq<RosterView> {
    v.map_values(|e: RosterEntry| roster_view(e))
}

/// The parent (when it could be found) and its other children, as siblings.
pub open spec fn family_above(me: Session, parent: Option<Session>, siblings: Seq<Session>) -> Seq<
    RosterView,
> {
    match parent {
        Some(p) => seq![(p.name@, p.id@, ReceiverRole::Parent, p.status)] + siblings.filter(
            |s: Session| s.id@ != me.id@,
        ).map_values(|s: Session| (s.name@, s.id@, ReceiverRole::Sibling, s.status)),
        None => Seq::empty(),
    }
}

/// The addressable children, each with its session's status, or `Running`
/// when the session could not be read.
pub open spec fn family_below(children: Seq<(Subagent, Option<SessionStatus>)>) -> Seq<RosterView> {
    children.filter(|c: (Subagent, Option<SessionStatus>)| c.0.status.spec_is_addressable()).map_values(
        |c: (Subagent, Option<SessionStatus>)|
            (
                c.0.name@,
                c.0.session_id@,
                ReceiverRole::Child,
                match c.1 {
                    Some(s) => s,
                    None => SessionStatus::Running,
                },
            ),
    )
}

/// Everyone `me` may address: its parent, its siblings, its children. A
/// broadcast reaches this roster and no further.
pub fn build_roster(
    me: &Session,
    parent: Option<&Session>,
    siblings: &Vec<Session>,
    children: &Vec<(Subagent, Option<SessionStatus>)>,
) -> (r: Vec<RosterEntry>)
    ensures
        roster_views(r@) == family_above(
            *me,
            match parent {
                Some(p) => Some(*p),
                None => None,
            },
            siblings@,
        ) + family_below(children@),
{
    let mut roster: Vec<RosterEntry> = Vec::new();
    let ghost sib_pred = |s: Session| s.id@ != me.id@;
    let ghost sib_view = |s: Session| (s.name@, s.id@, ReceiverRole::Sibling, s.status);
    match parent {
        Some(p) => {
            roster.push(
                RosterEntry {
                    name: p.name.clone(),
                    session_id: p.id.clone(),
                    role: ReceiverRole::Parent,
                    status: p.status,
                },
            );
            let ghost head = seq![(p.name@, p.id@, ReceiverRole::Parent, p.status)];
            assert(roster_views(roster@) =~= head);
            let mut i: usize = 0;
            assert(siblings@.take(0).filter(sib_pred) =~= Seq::<Session>::empty());
            while i < siblings.len()
                invariant
                    i <= siblings@.len(),
                    sib_pred == (|s: Session| s.id@ != me.id@),
                    sib_view == (|s: Session| (s.name@, s.id@, ReceiverRole::Sibling, s.status)),
                    roster_views(roster@) == head + siblings@.take(i as int).filter(
                        sib_pred,
                    ).map_values(sib_view),
                decreases siblings@.len() - i,
            {
                let s = &siblings[i];
                proof {
                    siblings@.take(i as int).lemma_filter_push(*s, sib_pred);
                    assert(siblings@.take(i + 1) =~= siblings@.take(i as int).push(*s));
                }
                if !same_text(s.id.as_str(), me.id.as_str()) {
                    let ghost prior = roster@;
                    roster.push(
                        RosterEntry {
                            name: s.name.clone(),
                            session_id: s.id.clone(),
                            role: ReceiverRole::Sibling,
                            status: s.status,
                        },
                    );
                    assert(roster_views(roster@) =~= roster_views(prior).push(sib_view(*s)));
                    assert(siblings@.take(i as int).filter(sib_pred).push(*s).map_values(sib_view)
                        =~= siblings@.take(i as int).filter(sib_pred).map_values(sib_view).push(
                        sib_view(*s),
                    ));
                }
                i += 1;
            }
            assert(siblings@.take(i as int) =~= siblings@);
        },
        None => {
            assert(roster_views(roster@) =~= Seq::<RosterView>::empty());
        },
    }
    let ghost above = roster_views(roster@);
    let ghost kid_pred = |c: (Subagent, Option<SessionStatus>)| c.0.status.spec_is_addressable();
    let ghost kid_view = |c: (Subagent, Option<SessionStatus>)|
        (
            c.0.name@,
            c.0.session_id@,
            ReceiverRole::Child,
            match c.1 {
                Some(s) => s,
                None => SessionStatus::Running,
            },
        );
    let mut j: usize = 0;
    assert(children@.take(0).filter(kid_pred) =~= Seq::<(Subagent, Option<SessionStatus>)>::empty());
    assert(above + children@.take(0).filter(kid_pred).map_values(kid_view) =~= above);
    while j < children.len()
        invariant
            j <= children@.len(),
            kid_pred == (|c: (Subagent, Option<SessionStatus>)| c.0.status.spec_is_addressable()),
            kid_view == (|c: (Subagent, Option<SessionStatus>)|
                (
                    c.0.name@,
                    c.0.session_id@,
                    ReceiverRole::Child,
                    match c.1 {
                        Some(s) => s,
                        None => SessionStatus::Running,
                    },
                )),
            roster_views(roster@) == above + children@.take(j as int).filter(kid_pred).map_values(
                kid_view,
            ),
        decreases children@.len() - j,
    {
        let c = &children[j];
        proof {
            children@.take(j as int).lemma_filter_push(*c, kid_pred);
            assert(children@.take(j + 1) =~= children@.take(j as int).push(*c));
        }
        if c.0.status.is_addressable() {
            let status = match c.1 {
                Some(s) => s,
                None => SessionStatus::Running,
            };
            let ghost prior = roster@;
            roster.push(
                RosterEntry {
                    name: c.0.name.clone(),
                    session_id: c.0.session_id.clone(),
                    role: ReceiverRole::Child,
                    status,
                },
            );
            assert(roster_views(roster@) =~= roster_views(prior).push(kid_view(*c)));
            assert(children@.take(j as int).filter(kid_pred).push(*c).map_values(kid_view)
                =~= children@.take(j as int).filter(kid_pred).map_values(kid_view).push(
                kid_view(*c),
            ));
        }
        j += 1;
    }
    assert(children@.take(j as int) =~= children@);
    roster
}

/// The name given, or nothing.
pub open spec fn given_name(to_name: Option<&str>) -> Seq<char> {
    match to_name {
        Some(n) => n@,
        None => Seq::empty(),
    }
}

/// A role that names its target was given no name.
pub open spec fn missing_name(role: ReceiverRole, to_name: Option<&str>) -> bool {
    role.spec_needs_name() && trim(given_name(to_name)).len() == 0
}

/// Refuses a role that needs a name when none was given.
pub fn require_name(role: ReceiverRole, to_name: Option<&str>) -> (r: Result<()>)
    ensures
        match r {
            Ok(()) => !missing_name(role, to_name),
            Err(e) => missing_name(role, to_name) && (e matches DomainError::Invalid(m) && m@
                == "a "@ + role.spec_label() + " message needs a name"@),
        },
{
    if role.needs_name() {
        let empty = match to_name {
            Some(n) => trimmed(n).len() == 0,
            None => true,
        };
        proof {
            assert(to_name is None ==> trim(given_name(to_name)) =~= Seq::<char>::empty());
        }
        if empty {
            let mut m = owned("a ");
            push_str(&mut m, role.label());
            push_str(&mut m, " message needs a name");
            return Err(DomainError::Invalid(m));
        }
    }
    Ok(())
}

/// The roster entries a message with `role` goes to: everyone for a
/// broadcast, the parent for a reply, otherwise the entries with the wanted
/// name (and the role asked for, unless any peer will do).
pub open spec fn target_pred(role: ReceiverRole, wanted: Seq<char>) -> spec_fn(RosterEntry) -> bool {
    match role {
        ReceiverRole::Broadcast => |e: RosterEntry| true,
        ReceiverRole::Parent => |e: RosterEntry| e.role is Parent,
        _ => |e: RosterEntry| e.name@ == wanted && (role is Peer || e.role == role),
    }
}

/// Picks the targets of a message from the sender's roster.
pub fn select_targets(roster: Vec<RosterEntry>, role: ReceiverRole, to_name: Option<&str>) -> (r:
    Result<Vec<RosterEntry>>)
    ensures
        match r {
            Ok(ts) => {
                &&& !missing_name(role, to_name)
                &&& ts@.len() > 0
                &&& exists|wanted: Seq<char>|
                    {
                        &&& (role.spec_needs_name() ==> Session::spec_normalise(given_name(to_name))
                            == Some(wanted))
                        &&& ts@ == roster@.filter(#[trigger] target_pred(role, wanted))
                    }
            },
            Err(e) => {
                ||| missing_name(role, to_name) && e is Invalid
                ||| role.spec_needs_name() && Session::spec_normalise(given_name(to_name)) is None
                    && e is Invalid
                ||| e matches DomainError::NotFound { kind, id } && kind@ == "message target"@ && id@
                    == match to_name {
                    Some(n) => n@,
                    None => role.spec_label(),
                } && (forall|wanted: Seq<char>|
                    (role.spec_needs_name() ==> Session::spec_normalise(given_name(to_name))
                        == Some(wanted)) ==> #[trigger] roster@.filter(target_pred(role, wanted)).len()
                        == 0)
            },
        },
{
    require_name(role, to_name)?;
    let wanted: Vec<char> = if role.needs_name() {
        let raw = match to_name {
            Some(n) => n,
            None => "",
        };
        proof {
            reveal_strlit("");
        }
        let name = Session::normalise_name(raw)?;
        crate::text::chars_of(name.as_str())
    } else {
        Vec::new()
    };
    let ghost pred = target_pred(role, wanted@);
    let mut targets: Vec<RosterEntry> = Vec::new();
    let mut rest = roster;
    let ghost all = rest@;
    let mut i: usize = 0;
    let n = rest.len();
    assert(all.take(0).filter(pred) =~= Seq::<RosterEntry>::empty());
    while rest.len() > 0
        invariant
            all.len() <= usize::MAX,
            i + rest@.len() == all.len(),
            rest@ == all.skip(i as int),
            pred == target_pred(role, wanted@),
            targets@ == all.take(i as int).filter(pred),
        decreases rest@.len(),
    {
        let e = rest.remove(0);
        proof {
            assert(all.take(i + 1) =~= all.take(i as int).push(e));
            assert(rest@ =~= all.skip(i + 1));
            all.take(i as int).lemma_filter_push(e, pred);
        }
        let keep = match role {
            ReceiverRole::Broadcast => true,
            ReceiverRole::Parent => e.role == ReceiverRole::Parent,
            _ => {
                let name = crate::text::chars_of(e.name.as_str());
                crate::text::chars_eq(name.as_slice(), wanted.as_slice()) && (role
                    == ReceiverRole::Peer || e.role == role)
            },
        };
        if keep {
            targets.push(e);
        }
        i += 1;
    }
    assert(all.take(i as int) =~= all);
    if targets.len() == 0 {
        let id = match to_name {
            Some(n) => owned(n),
            None => owned(role.label()),
        };
        proof {
            assert forall|w: Seq<char>|
                (role.spec_needs_name() ==> Session::spec_normalise(given_name(to_name)) == Some(w))
                    implies #[trigger] all.filter(target_pred(role, w)).len() == 0 by {
                if role.spec_needs_name() {
                    assert(w == wanted@);
                } else {
                    assert(target_pred(role, w) == target_pred(role, wanted@));
                }
            }
        }
        return Err(DomainError::NotFound { kind: owned("message target"), id });
    }
    Ok(targets)
}

/// The receipt for a target that already has too many messages waiting, or
/// `None` when it has room.
pub fn pending_refusal(target: &RosterEntry, pending: usize, limits: MessageLimits) -> (r: Option<
    Receipt,
>)
    ensures
        match r {
            Some(rc) => {
                &&& pending >= limits.max_pending_per_target
                &&& rc.message_id@.len() == 0
                &&& rc.receiver_name@ == target.name@
                &&& rc.delivery_status is Failed
                &&& rc.note matches Some(n) && n@ == target.name@ + " already has "@ + decimal(
                    pending as nat,
                ) + " pending messages"@
            },
            None => pending < limits.max_pending_per_target,
        },
{
    if pending >= limits.max_pending_per_target {
        let mut note = owned(target.name.as_str());
        push_str(&mut note, " already has ");
        let n = decimal_text(pending as u64);
        push_str(&mut note, n.as_str());
        push_str(&mut note, " pending messages");
        return Some(
            Receipt {
                message_id: String::new(),
                receiver_name: target.name.clone(),
                delivery_status: DeliveryStatus::Failed,
                note: Some(note),
            },
        );
    }
    None
}

/// A broadcast stops at the family: whatever role a message is addressed
/// by, each of its targets is an entry of the sender's roster.
pub proof fn lemma_targets_within_roster(
    roster: Seq<RosterEntry>,
    role: ReceiverRole,
    wanted: Seq<char>,
    t: RosterEntry,
)
    requires
        roster.filter(target_pred(role, wanted)).contains(t),
    ensures
        roster.contains(t),
{
    roster.lemma_filter_contains_rev(target_pred(role, wanted), t);
}

/// The message sent to one target, marked as the target's state decides,
/// and the receipt the sender gets for it.
pub fn dispatched(
    id: &str,
    sender_session_id: &str,
    sender_name: &str,
    role: ReceiverRole,
    target: &RosterEntry,
    body: &str,
    mode: DeliveryMode,
    limits: MessageLimits,
    now: i64,
) -> (r: Result<(AgentMessage, Receipt)>)
    ensures
        match r {
            Ok((m, rc)) => {
                let status = delivery_for(mode, target.status);
                &&& trim(body@).len() > 0
                &&& utf8_len(trim(body@)) <= limits.max_body_bytes
                &&& m.id@ == id@
                &&& m.sender_session_id@ == sender_session_id@
                &&& m.sender_name@ == sender_name@
                &&& m.receiver_role == role
                &&& m.receiver_session_id@ == target.session_id@
                &&& m.receiver_name@ == target.name@
                &&& m.body@ == trim(body@)
                &&& m.mode == mode
                &&& m.status == status
                &&& m.created_at == now
                &&& m.delivered_at == (if status is Delivered {
                    Some(now)
                } else {
                    None
                })
                &&& m.error is None
                &&& rc.message_id@ == id@
                &&& rc.receiver_name@ == target.name@
                &&& rc.delivery_status == status
                &&& rc.note is None
            },
            Err(e) => if trim(body@).len() == 0 {
                e is Invalid
            } else {
                &&& utf8_len(trim(body@)) > limits.max_body_bytes
                &&& e matches DomainError::LimitReached { limit, reached, allowed }
                &&& limit@ == "message size"@
                &&& reached == utf8_len(trim(body@))
                &&& allowed == limits.max_body_bytes
            },
        },
{
    let mut message = AgentMessage::new(
        id,
        sender_session_id,
        sender_name,
        role,
        target.session_id.as_str(),
        target.name.as_str(),
        body,
        mode,
        limits,
        now,
    )?;
    let status = decide_delivery(mode, target.status);
    message.mark(status, now);
    let receipt = Receipt {
        message_id: message.id.clone(),
        receiver_name: target.name.clone(),
        delivery_status: status,
        note: None,
    };
    Ok((message, receipt))
}

} // verus!
