use umoja::error::DomainError;
use umoja::heartbeat::{
    authorise, created, listing, replaced_by, user_heartbeat, CreateHeartbeat, DeliveryMode,
    Heartbeat, HeartbeatOwner, HeartbeatStatus,
};
use umoja::timespec::Interval;

fn start() -> i64 {
    chrono::DateTime::parse_from_rfc3339("2026-08-16T12:00:00Z").unwrap().timestamp()
}

/// The heartbeats of one session, held in memory, with a clock.
struct Service {
    rows: Vec<Heartbeat>,
    now: i64,
    next: u32,
}

impl Service {
    fn new() -> Service {
        Service { rows: vec![], now: start(), next: 0 }
    }

    fn create(&mut self, owner: HeartbeatOwner, every: &str) -> Heartbeat {
        let request = CreateHeartbeat {
            selector: "root".into(),
            prompt: "check the deployment".into(),
            interval: Interval::parse(every).unwrap(),
            owner,
            label: None,
            delivery: DeliveryMode::Auto,
        };
        for id in replaced_by(&self.rows, request.owner) {
            self.rows.retain(|h| h.id != id);
        }
        self.next += 1;
        let h = created(request, &format!("hb-{}", self.next), "ses-root", self.now).unwrap();
        self.rows.push(h.clone());
        h
    }

    fn at(&mut self, id: &str, actor: HeartbeatOwner) -> Result<usize, DomainError> {
        let i = self.rows.iter().position(|h| h.id == id).unwrap();
        authorise(&self.rows[i], actor)?;
        Ok(i)
    }

    fn pause(&mut self, id: &str, actor: HeartbeatOwner) -> Result<(), DomainError> {
        let i = self.at(id, actor)?;
        self.rows[i].pause();
        Ok(())
    }

    fn remove(&mut self, id: &str, actor: HeartbeatOwner) -> Result<(), DomainError> {
        let i = self.at(id, actor)?;
        self.rows.remove(i);
        Ok(())
    }

    fn due(&self) -> Vec<Heartbeat> {
        self.rows.iter().filter(|h| h.is_due(self.now)).cloned().collect()
    }

    fn list(&self) -> Vec<Heartbeat> {
        listing(self.rows.clone())
    }
}

#[test]
fn setting_the_user_heartbeat_replaces_the_previous_one() {
    let mut service = Service::new();
    service.create(HeartbeatOwner::User, "10m");
    service.create(HeartbeatOwner::User, "5m");
    let all = service.list();
    assert_eq!(all.len(), 1);
    assert_eq!(all[0].interval.to_text(), "5m");
}

#[test]
fn agent_heartbeats_accumulate_alongside_the_users() {
    let mut service = Service::new();
    service.create(HeartbeatOwner::User, "10m");
    service.create(HeartbeatOwner::Agent, "5m");
    service.create(HeartbeatOwner::Agent, "1m");
    assert_eq!(service.list().len(), 3);
}

#[test]
fn the_agent_cannot_touch_the_users_heartbeat() {
    let mut service = Service::new();
    let user = service.create(HeartbeatOwner::User, "10m");
    assert!(service.pause(&user.id, HeartbeatOwner::Agent).is_err());
    assert!(service.remove(&user.id, HeartbeatOwner::Agent).is_err());
    assert!(service.pause(&user.id, HeartbeatOwner::User).is_ok());
    assert_eq!(service.rows[0].status, HeartbeatStatus::Paused);
}

#[test]
fn the_user_can_manage_an_agents_heartbeat() {
    let mut service = Service::new();
    let agent = service.create(HeartbeatOwner::Agent, "10m");
    assert!(service.remove(&agent.id, HeartbeatOwner::User).is_ok());
}

#[test]
fn due_heartbeats_appear_only_after_their_interval() {
    let mut service = Service::new();
    service.create(HeartbeatOwner::Agent, "10m");
    assert!(service.due().is_empty());
    service.now += 600;
    assert_eq!(service.due().len(), 1);
}

#[test]
fn firing_reschedules_from_now_so_a_backlog_cannot_build_up() {
    let mut service = Service::new();
    service.create(HeartbeatOwner::Agent, "10m");
    service.now += 3600;
    let now = service.now;
    service.rows[0].mark_fired(now);
    assert_eq!(service.rows[0].fire_count, 1);
    assert!(service.due().is_empty());
}

#[test]
fn listing_is_ordered_by_what_fires_next() {
    let mut service = Service::new();
    service.create(HeartbeatOwner::Agent, "10m");
    service.create(HeartbeatOwner::Agent, "1m");
    let rows = service.list();
    assert_eq!(rows[0].interval.to_text(), "1m");
}

#[test]
fn the_refusal_says_whose_heartbeat_it_is() {
    let mut service = Service::new();
    let user = service.create(HeartbeatOwner::User, "10m");
    match service.remove(&user.id, HeartbeatOwner::Agent) {
        Err(DomainError::Forbidden(m)) => {
            assert_eq!(m, "that heartbeat belongs to the user; the agent cannot change it")
        }
        other => panic!("expected a refusal, got {other:?}"),
    }
}

#[test]
fn the_users_heartbeat_is_found_among_the_agents() {
    let mut service = Service::new();
    service.create(HeartbeatOwner::Agent, "1m");
    let user = service.create(HeartbeatOwner::User, "10m");
    let mut labelled = CreateHeartbeat {
        selector: "root".into(),
        prompt: "  ping  ".into(),
        interval: Interval::parse("2m").unwrap(),
        owner: HeartbeatOwner::Agent,
        label: Some("poll".into()),
        delivery: DeliveryMode::Steer,
    };
    let h = created(labelled.clone(), "hb-9", "ses-root", start()).unwrap();
    assert_eq!(h.label.as_deref(), Some("poll"));
    assert_eq!(h.prompt, "ping");
    assert_eq!(h.next_fire_at, start() + 120);
    assert_eq!(user_heartbeat(service.rows.clone()).unwrap().id, user.id);
    assert!(user_heartbeat(vec![h]).is_none());
    labelled.prompt = " ".into();
    assert!(created(labelled, "hb-10", "ses-root", start()).is_err());
    assert!(replaced_by(&service.rows, HeartbeatOwner::Agent).is_empty());
    assert_eq!(replaced_by(&service.rows, HeartbeatOwner::User), vec![user.id.clone()]);
}
