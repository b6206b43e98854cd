use umoja::error::DomainError;
use umoja::heartbeat::DeliveryMode;
use umoja::message::{
    build_roster, dispatched, pending_refusal, require_name, select_targets, AgentMessage,
    DeliveryStatus, MessageLimits, Receipt, ReceiverRole,
};
use umoja::session::{Session, SessionKind, SessionStatus, Usage};
use umoja::subagent::{admission, admitted, DepthPolicy, Spawn, Subagent, SubagentStatus};

fn now() -> i64 {
    chrono::DateTime::parse_from_rfc3339("2026-08-16T12:00:00Z").unwrap().timestamp()
}

/// Sessions, children and messages, held in memory.
#[derive(Default)]
struct World {
    sessions: Vec<Session>,
    children: Vec<Subagent>,
    messages: Vec<AgentMessage>,
    next: u32,
}

impl World {
    fn fresh(&mut self, prefix: &str) -> String {
        self.next += 1;
        format!("{prefix}-{}", self.next)
    }

    fn resolve(&self, selector: &str) -> Session {
        self.sessions.iter().find(|s| s.matches_selector(selector)).unwrap().clone()
    }

    fn start(&mut self, name: &str) {
        let id = self.fresh("ses");
        self.sessions.push(Session {
            id,
            name: name.into(),
            kind: SessionKind::Root,
            status: SessionStatus::Idle,
            workdir: "/work".into(),
            runner: "opencode".into(),
            model: Some("sonnet".into()),
            parent_id: None,
            depth: 0,
            created_at: now(),
            updated_at: now(),
            usage: Usage::default(),
            pid: None,
        });
    }

    fn spawn(&mut self, parent: &str, name: &str) {
        let request = Spawn {
            parent_selector: parent.into(),
            prompt: "check".into(),
            name: Some(name.into()),
            model: None,
            runner: None,
            system_prompt: None,
        };
        let parent = self.resolve(parent);
        let child_id = self.fresh("sub");
        let (depth, name) = admission(&request, parent.depth, DepthPolicy { max_depth: 2 }, &child_id).unwrap();
        let session_id = self.fresh("ses");
        let (child, session) = admitted(&request, &parent, depth, &name, &child_id, &session_id, now());
        self.sessions.push(session);
        self.children.push(child);
    }

    fn send(&mut self, from: &str, role: ReceiverRole, to: Option<&str>, mode: DeliveryMode)
        -> Result<Vec<Receipt>, DomainError>
    {
        let me = self.resolve(from);
        require_name(role, to)?;
        let parent = me.parent_id.as_ref().map(|p| self.resolve(p));
        let siblings: Vec<Session> = match &parent {
            Some(p) => self.sessions.iter().filter(|s| s.parent_id.as_deref() == Some(p.id.as_str())).cloned().collect(),
            None => vec![],
        };
        let children: Vec<(Subagent, Option<SessionStatus>)> = self
            .children
            .iter()
            .filter(|c| c.parent_session_id == me.id)
            .map(|c| (c.clone(), Some(self.resolve(&c.session_id).status)))
            .collect();
        let roster = build_roster(&me, parent.as_ref(), &siblings, &children);
        let targets = select_targets(roster, role, to)?;
        let limits = MessageLimits::default();
        let mut receipts = Vec::new();
        for target in targets {
            let pending = self
                .messages
                .iter()
                .filter(|m| m.receiver_session_id == target.session_id && m.is_pending())
                .count();
            if let Some(refusal) = pending_refusal(&target, pending, limits) {
                receipts.push(refusal);
                continue;
            }
            let id = self.fresh("msg");
            let (message, receipt) = dispatched(&id, &me.id, &me.name, role, &target, "recheck the endpoint", mode, limits, now())?;
            self.messages.push(message);
            receipts.push(receipt);
        }
        Ok(receipts)
    }

    fn inbox(&self, name: &str) -> Vec<AgentMessage> {
        let me = self.resolve(name);
        self.messages.iter().filter(|m| m.receiver_session_id == me.id && m.is_pending()).cloned().collect()
    }

    fn consume(&mut self, name: &str) -> Vec<AgentMessage> {
        let me = self.resolve(name);
        let mut taken = Vec::new();
        for m in self.messages.iter_mut() {
            if m.receiver_session_id == me.id && m.is_pending() {
                m.mark(DeliveryStatus::Consumed, now());
                taken.push(m.clone());
            }
        }
        taken
    }
}

fn family() -> World {
    let mut world = World::default();
    world.start("root");
    world.spawn("root", "api-checker");
    world.spawn("root", "test-checker");
    world
}

#[test]
fn a_parent_can_address_its_child_by_name() {
    let mut world = family();
    let receipts = world.send("root", ReceiverRole::Child, Some("api-checker"), DeliveryMode::Auto).unwrap();
    assert_eq!(receipts.len(), 1);
    assert_eq!(receipts[0].receiver_name, "api-checker");
    assert_eq!(world.inbox("api-checker").len(), 1);
}

#[test]
fn a_child_can_reply_to_its_parent_without_naming_it() {
    let mut world = family();
    let receipts = world.send("api-checker", ReceiverRole::Parent, None, DeliveryMode::Auto).unwrap();
    assert_eq!(receipts[0].receiver_name, "root");
}

#[test]
fn siblings_can_reach_each_other() {
    let mut world = family();
    let receipts = world
        .send("api-checker", ReceiverRole::Sibling, Some("test-checker"), DeliveryMode::Auto)
        .unwrap();
    assert_eq!(receipts[0].receiver_name, "test-checker");
}

#[test]
fn a_broadcast_stops_at_the_family() {
    let mut world = family();
    world.start("stranger");
    let receipts = world.send("root", ReceiverRole::Broadcast, None, DeliveryMode::Auto).unwrap();
    let names: Vec<&str> = receipts.iter().map(|r| r.receiver_name.as_str()).collect();
    assert_eq!(names, vec!["api-checker", "test-checker"]);
    assert!(world.inbox("stranger").is_empty());
}

#[test]
fn a_busy_target_queues_and_an_idle_one_receives() {
    let mut world = family();
    let receipts = world.send("root", ReceiverRole::Child, Some("api-checker"), DeliveryMode::Auto).unwrap();
    assert_eq!(receipts[0].delivery_status, DeliveryStatus::Queued);

    let at = world.sessions.iter().position(|s| s.name == "api-checker").unwrap();
    world.sessions[at].status = SessionStatus::Idle;
    let receipts = world.send("root", ReceiverRole::Child, Some("api-checker"), DeliveryMode::Auto).unwrap();
    assert_eq!(receipts[0].delivery_status, DeliveryStatus::Delivered);
}

#[test]
fn steering_lands_even_on_busy_work() {
    let mut world = family();
    let receipts = world.send("root", ReceiverRole::Child, Some("api-checker"), DeliveryMode::Steer).unwrap();
    assert_eq!(receipts[0].delivery_status, DeliveryStatus::Delivered);
}

#[test]
fn consuming_the_inbox_empties_it() {
    let mut world = family();
    world.send("root", ReceiverRole::Child, Some("api-checker"), DeliveryMode::Auto).unwrap();
    let taken = world.consume("api-checker");
    assert_eq!(taken.len(), 1);
    assert_eq!(taken[0].status, DeliveryStatus::Consumed);
    assert!(world.inbox("api-checker").is_empty());
}

#[test]
fn an_unknown_target_is_an_error_not_a_silent_drop() {
    let mut world = family();
    assert!(matches!(
        world.send("root", ReceiverRole::Child, Some("nobody"), DeliveryMode::Auto),
        Err(DomainError::NotFound { .. })
    ));
}

#[test]
fn a_deleted_child_can_no_longer_be_addressed() {
    let mut world = family();
    let at = world.children.iter().position(|c| c.name == "api-checker").unwrap();
    world.children[at].settle(SubagentStatus::Deleted, now());
    assert!(world.send("root", ReceiverRole::Child, Some("api-checker"), DeliveryMode::Auto).is_err());
}

#[test]
fn a_dispatched_message_carries_its_receipt() {
    let mut world = family();
    let receipts = world.send("root", ReceiverRole::Child, Some("test-checker"), DeliveryMode::FollowUp).unwrap();
    let m = world.messages.last().unwrap();
    assert_eq!(receipts[0].message_id, m.id);
    assert_eq!(m.status, DeliveryStatus::Queued);
    assert_eq!(m.delivered_at, None);
    assert_eq!(m.body, "recheck the endpoint");
    assert_eq!(m.sender_name, "root");
    assert_eq!(receipts[0].note, None);
}
