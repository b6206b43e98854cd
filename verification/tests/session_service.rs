use umoja::error::DomainError;
use umoja::session::{
    listing, reconcile, started, starting_name, stopped, Session, SessionKind, SessionStatus,
    StartSession,
};

fn now() -> i64 {
    chrono::DateTime::parse_from_rfc3339("2026-08-16T12:00:00Z").unwrap().timestamp()
}

/// Sessions held in memory, with the workers that are alive.
#[derive(Default)]
struct Service {
    rows: Vec<Session>,
    alive: Vec<u32>,
    terminated: Vec<u32>,
    next: u32,
    clock: i64,
}

impl Service {
    fn resolve(&self, selector: &str) -> Option<Session> {
        self.rows.iter().find(|s| s.matches_selector(selector)).cloned()
    }

    fn start(&mut self, name: Option<&str>) -> Result<Session, DomainError> {
        self.next += 1;
        self.clock += 1;
        let request = StartSession {
            name: name.map(str::to_string),
            workdir: "/work".into(),
            runner: "opencode".into(),
            model: None,
            kind: SessionKind::Root,
            parent: None,
        };
        let id = format!("ses-{}", self.next);
        let name = starting_name(&request, &id)?;
        if self.resolve(&name).is_some() {
            return Err(DomainError::conflict("session name", &name));
        }
        let session = started(request, &id, &name, now() + self.clock);
        self.rows.push(session.clone());
        Ok(session)
    }

    fn rename(&mut self, selector: &str, new_name: &str) -> Result<Session, DomainError> {
        let session = self.resolve(selector).unwrap();
        let name = Session::normalise_name(new_name)?;
        if name != session.name && self.resolve(&name).is_some() {
            return Err(DomainError::conflict("session name", &name));
        }
        let row = self.rows.iter_mut().find(|s| s.id == session.id).unwrap();
        row.name = name;
        Ok(row.clone())
    }

    fn row(&mut self, selector: &str) -> &mut Session {
        self.rows.iter_mut().find(|s| s.matches_selector(selector)).unwrap()
    }
}

#[test]
fn a_started_session_is_addressable_by_name() {
    let mut service = Service::default();
    let session = service.start(Some("API Checker")).unwrap();
    assert_eq!(session.name, "api-checker");
    assert_eq!(service.resolve("api-checker").unwrap().id, session.id);
    assert_eq!(service.resolve(&session.id).unwrap().id, session.id);
}

#[test]
fn an_unnamed_session_still_gets_an_address() {
    let mut service = Service::default();
    let session = service.start(None).unwrap();
    assert!(!session.name.is_empty());
    assert!(service.resolve(&session.name).is_some());
}

#[test]
fn names_cannot_collide() {
    let mut service = Service::default();
    service.start(Some("worker")).unwrap();
    assert!(matches!(service.start(Some("worker")), Err(DomainError::Conflict { .. })));
}

#[test]
fn renaming_onto_a_taken_name_is_refused() {
    let mut service = Service::default();
    service.start(Some("one")).unwrap();
    service.start(Some("two")).unwrap();
    assert!(service.rename("two", "one").is_err());
    assert_eq!(service.rename("two", "Two Point Oh").unwrap().name, "two-point-oh");
}

#[test]
fn stopping_terminates_the_worker() {
    let mut service = Service::default();
    service.start(Some("worker")).unwrap();
    service.alive.push(99);
    {
        let s = service.row("worker");
        s.pid = Some(99);
        s.status = SessionStatus::Running;
    }
    let pid = service.row("worker").pid.unwrap();
    if service.alive.contains(&pid) {
        service.terminated.push(pid);
    }
    stopped(service.row("worker"), now());
    let s = service.resolve("worker").unwrap();
    assert_eq!(s.status, SessionStatus::Cancelled);
    assert!(s.pid.is_none());
    assert_eq!(service.terminated, vec![99]);
}

#[test]
fn a_dead_worker_is_marked_failed_with_its_pid() {
    let mut service = Service::default();
    service.start(Some("worker")).unwrap();
    {
        let s = service.row("worker");
        s.pid = Some(1234);
        s.status = SessionStatus::Running;
    }
    let mut fixes = Vec::new();
    for s in service.rows.iter_mut() {
        let alive = s.pid.is_some_and(|p| service.alive.contains(&p));
        if let Some(note) = reconcile(s, alive, now()) {
            fixes.push((s.name.clone(), note));
        }
    }
    assert_eq!(fixes.len(), 1);
    assert!(fixes[0].1.contains("1234"));
    assert_eq!(fixes[0].1, "worker 1234 is gone; marked failed");
    assert_eq!(service.resolve("worker").unwrap().status, SessionStatus::Failed);
}

#[test]
fn listing_puts_live_sessions_first() {
    let mut service = Service::default();
    let done = service.start(Some("done")).unwrap();
    service.start(Some("live")).unwrap();
    service.row(&done.id).status = SessionStatus::Completed;

    let all = listing(service.rows.clone(), true);
    assert_eq!(all[0].name, "live");
    let live_only = listing(service.rows.clone(), false);
    assert_eq!(live_only.len(), 1);
}

#[test]
fn newer_sessions_come_first_within_a_group() {
    let mut service = Service::default();
    service.start(Some("a")).unwrap();
    service.start(Some("b")).unwrap();
    service.start(Some("c")).unwrap();
    let names: Vec<String> = listing(service.rows.clone(), true).into_iter().map(|s| s.name).collect();
    assert_eq!(names, vec!["c", "b", "a"]);
}

#[test]
fn a_running_session_without_a_worker_is_idle_again() {
    let mut service = Service::default();
    service.start(Some("worker")).unwrap();
    service.row("worker").status = SessionStatus::Running;
    let note = reconcile(service.row("worker"), false, now()).unwrap();
    assert_eq!(note, "was marked running with no worker; now idle");
    assert_eq!(service.resolve("worker").unwrap().status, SessionStatus::Idle);
    assert!(reconcile(service.row("worker"), false, now()).is_none());
}

#[test]
fn a_child_session_sits_one_below_its_parent() {
    let mut service = Service::default();
    let parent = service.start(Some("root")).unwrap();
    let request = StartSession {
        name: Some("kid".into()),
        workdir: "/w".into(),
        runner: "codex".into(),
        model: Some("opus".into()),
        kind: SessionKind::Child,
        parent: Some(parent.clone()),
    };
    let child = started(request, "ses-9", "kid", now());
    assert_eq!(child.depth, 1);
    assert_eq!(child.parent_id.as_deref(), Some(parent.id.as_str()));
    assert_eq!(child.status, SessionStatus::Idle);
    assert_eq!(child.model.as_deref(), Some("opus"));
}
