use umoja::error::DomainError;
use umoja::heartbeat::DeliveryMode;
use umoja::message::{
    addressing, build_roster, decide_delivery, pending_refusal, require_name, select_targets, AgentMessage,
    DeliveryStatus, MessageLimits, ReceiverRole, RosterEntry,
};
use umoja::session::{Session, SessionKind, SessionStatus, Usage};

fn now() -> i64 {
    chrono::DateTime::parse_from_rfc3339("2026-08-16T12:00:00Z").unwrap().timestamp()
}

fn message(body: &str) -> Result<AgentMessage, DomainError> {
    AgentMessage::new(
        "msg-1",
        "ses-1",
        "root",
        ReceiverRole::Child,
        "ses-2",
        "api-checker",
        body,
        DeliveryMode::Auto,
        MessageLimits::default(),
        now(),
    )
}

#[test]
fn empty_and_oversized_bodies_are_refused() {
    assert!(message("   ").is_err());
    let huge = "x".repeat(64 * 1024 + 1);
    assert!(matches!(message(&huge), Err(DomainError::LimitReached { .. })));
}

#[test]
fn roles_that_name_a_target_say_so() {
    assert!(ReceiverRole::Child.needs_name());
    assert!(!ReceiverRole::Parent.needs_name());
    assert!(!ReceiverRole::Broadcast.needs_name());
}

#[test]
fn delivery_stamps_a_time_only_when_it_arrives() {
    let mut msg = message("hello").unwrap();
    assert!(msg.delivered_at.is_none());
    msg.mark(DeliveryStatus::Delivered, now());
    assert!(msg.delivered_at.is_some());
}

#[test]
fn steering_lands_follow_ups_wait_and_auto_reads_the_target() {
    assert_eq!(decide_delivery(DeliveryMode::Steer, SessionStatus::Running), DeliveryStatus::Delivered);
    assert_eq!(decide_delivery(DeliveryMode::FollowUp, SessionStatus::Idle), DeliveryStatus::Queued);
    assert_eq!(decide_delivery(DeliveryMode::Auto, SessionStatus::Running), DeliveryStatus::Queued);
    assert_eq!(decide_delivery(DeliveryMode::Auto, SessionStatus::Idle), DeliveryStatus::Delivered);
}

fn entry(name: &str, id: &str, role: ReceiverRole) -> RosterEntry {
    RosterEntry {
        name: name.into(),
        session_id: id.into(),
        role,
        status: SessionStatus::Idle,
    }
}

fn roster() -> Vec<RosterEntry> {
    vec![
        entry("root", "ses-1", ReceiverRole::Parent),
        entry("test-checker", "ses-3", ReceiverRole::Sibling),
        entry("helper", "ses-4", ReceiverRole::Child),
    ]
}

#[test]
fn targets_come_from_the_roster_only() {
    let all = select_targets(roster(), ReceiverRole::Broadcast, None).unwrap();
    assert_eq!(all.len(), 3);
    let parent = select_targets(roster(), ReceiverRole::Parent, None).unwrap();
    assert_eq!(parent[0].name, "root");
    let sib = select_targets(roster(), ReceiverRole::Sibling, Some("Test Checker")).unwrap();
    assert_eq!(sib[0].session_id, "ses-3");
    let peer = select_targets(roster(), ReceiverRole::Peer, Some("helper")).unwrap();
    assert_eq!(peer.len(), 1);
    assert!(matches!(
        select_targets(roster(), ReceiverRole::Child, Some("nobody")),
        Err(DomainError::NotFound { .. })
    ));
    assert!(matches!(
        select_targets(roster(), ReceiverRole::Child, Some("root")),
        Err(DomainError::NotFound { .. })
    ));
    assert!(matches!(require_name(ReceiverRole::Child, Some("  ")), Err(DomainError::Invalid(_))));
    assert!(require_name(ReceiverRole::Parent, None).is_ok());
}

fn session(id: &str, name: &str, parent: Option<&str>) -> Session {
    Session {
        id: id.into(),
        name: name.into(),
        kind: if parent.is_some() { SessionKind::Child } else { SessionKind::Root },
        status: SessionStatus::Idle,
        workdir: "/work".into(),
        runner: "coder".into(),
        model: None,
        parent_id: parent.map(str::to_string),
        depth: if parent.is_some() { 1 } else { 0 },
        created_at: now(),
        updated_at: now(),
        usage: Usage::default(),
        pid: None,
    }
}

#[test]
fn a_roster_holds_the_parent_the_siblings_and_the_children() {
    let me = session("ses-2", "api-checker", Some("ses-1"));
    let parent = session("ses-1", "root", None);
    let siblings = vec![me.clone(), session("ses-3", "test-checker", Some("ses-1"))];
    let r = build_roster(&me, Some(&parent), &siblings, &vec![]);
    let names: Vec<&str> = r.iter().map(|e| e.name.as_str()).collect();
    assert_eq!(names, vec!["root", "test-checker"]);
    assert_eq!(r[0].role, ReceiverRole::Parent);
    assert_eq!(r[1].role, ReceiverRole::Sibling);
}

#[test]
fn a_crowded_inbox_refuses_more() {
    let target = entry("busy", "ses-9", ReceiverRole::Child);
    let limits = MessageLimits::default();
    assert!(pending_refusal(&target, 63, limits).is_none());
    let receipt = pending_refusal(&target, 64, limits).unwrap();
    assert_eq!(receipt.delivery_status, DeliveryStatus::Failed);
    assert_eq!(receipt.note.as_deref(), Some("busy already has 64 pending messages"));
}

#[test]
fn roles_read_their_spellings() {
    assert_eq!(ReceiverRole::parse("ALL").unwrap(), ReceiverRole::Broadcast);
    assert_eq!(ReceiverRole::parse("agent").unwrap(), ReceiverRole::Peer);
    assert!(ReceiverRole::parse("cousin").is_err());
    assert_eq!(ReceiverRole::Broadcast.label(), "all");
    assert_eq!(DeliveryStatus::Queued.label(), "queued");
}

#[test]
fn all_in_any_case_is_the_broadcast_form() {
    assert_eq!(addressing("all", "child").unwrap(), (ReceiverRole::Broadcast, None));
    assert_eq!(addressing("ALL", "nonsense").unwrap(), (ReceiverRole::Broadcast, None));
}

#[test]
fn any_other_target_is_one_receiver_in_the_given_role() {
    assert_eq!(
        addressing("api-checker", "child").unwrap(),
        (ReceiverRole::Child, Some("api-checker".to_string()))
    );
    assert_eq!(addressing("mum", " Parent ").unwrap(), (ReceiverRole::Parent, Some("mum".to_string())));
    assert!(matches!(addressing("x", "stranger"), Err(DomainError::Invalid(_))));
}
