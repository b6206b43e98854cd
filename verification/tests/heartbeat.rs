use umoja::heartbeat::{DeliveryMode, Heartbeat, HeartbeatOwner};
use umoja::timespec::Interval;

fn t(text: &str) -> i64 {
    chrono::DateTime::parse_from_rfc3339(text).unwrap().timestamp()
}

fn beat() -> Heartbeat {
    Heartbeat::new(
        "hb-1",
        "ses-1",
        HeartbeatOwner::Agent,
        "check the deployment",
        Interval::parse("10m").unwrap(),
        DeliveryMode::Auto,
        t("2026-08-16T12:00:00Z"),
    )
    .unwrap()
}

#[test]
fn missed_ticks_coalesce_into_one() {
    let mut hb = beat();
    assert!(hb.is_due(t("2026-08-16T13:00:00Z")));
    hb.mark_fired(t("2026-08-16T13:00:00Z"));
    // An hour late, but only one debt: the next fire is 10m from now.
    assert_eq!(hb.next_fire_at, t("2026-08-16T13:10:00Z"));
    assert_eq!(hb.fire_count, 1);
}

#[test]
fn a_paused_heartbeat_is_never_due() {
    let mut hb = beat();
    hb.pause();
    assert!(!hb.is_due(t("2026-08-17T00:00:00Z")));
    hb.resume(t("2026-08-17T00:00:00Z"));
    assert!(!hb.is_due(t("2026-08-17T00:05:00Z")));
    assert!(hb.is_due(t("2026-08-17T00:10:00Z")));
}

#[test]
fn the_user_heartbeat_is_not_agent_writable() {
    let mut hb = beat();
    hb.owner = HeartbeatOwner::User;
    assert!(!hb.is_agent_writable());
}

#[test]
fn a_heartbeat_needs_a_prompt() {
    let made = Heartbeat::new(
        "hb-2",
        "ses-1",
        HeartbeatOwner::User,
        "  ",
        Interval::parse("10m").unwrap(),
        DeliveryMode::Auto,
        t("2026-08-16T12:00:00Z"),
    );
    assert!(made.is_err());
    assert_eq!(beat().next_fire_at, t("2026-08-16T12:10:00Z"));
    assert!(!beat().is_due(t("2026-08-16T12:09:59Z")));
}

#[test]
fn delivery_modes_read_their_spellings() {
    assert_eq!(DeliveryMode::parse("follow-up").unwrap(), DeliveryMode::FollowUp);
    assert_eq!(DeliveryMode::parse(" FOLLOWUP ").unwrap(), DeliveryMode::FollowUp);
    assert_eq!(DeliveryMode::parse("steer").unwrap(), DeliveryMode::Steer);
    assert_eq!(DeliveryMode::parse("Auto").unwrap(), DeliveryMode::Auto);
    assert!(DeliveryMode::parse("later").is_err());
    assert_eq!(DeliveryMode::FollowUp.label(), "follow-up");
}
