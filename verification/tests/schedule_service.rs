use umoja::heartbeat::DeliveryMode;
use umoja::schedule::{added, listing, shown, AddJob, JobStatus, ScheduledJob};

fn at(text: &str) -> i64 {
    chrono::DateTime::parse_from_rfc3339(text).unwrap().timestamp()
}

/// Jobs held in memory, the agents they may target, and a clock.
struct Service {
    jobs: Vec<ScheduledJob>,
    agents: Vec<String>,
    now: i64,
    next: u32,
}

impl Service {
    fn new() -> Service {
        Service { jobs: vec![], agents: vec!["worker".into()], now: at("2026-08-16T12:00:00Z"), next: 0 }
    }

    fn add_for(&mut self, target: &str, when: &str) -> Result<ScheduledJob, String> {
        let request = AddJob {
            target: target.into(),
            when: when.into(),
            prompt: "check the benchmark".into(),
            delivery: DeliveryMode::Auto,
        };
        let name = self
            .agents
            .iter()
            .find(|a| **a == request.target)
            .cloned()
            .ok_or_else(|| format!("no agent '{target}'"))?;
        self.next += 1;
        let job = added(request, &name, &format!("job-{}", self.next), self.now)
            .map_err(|e| format!("{e:?}"))?;
        self.jobs.push(job.clone());
        Ok(job)
    }

    fn add(&mut self, when: &str) -> ScheduledJob {
        self.add_for("worker", when).unwrap()
    }

    fn job(&mut self, id: &str) -> &mut ScheduledJob {
        self.jobs.iter_mut().find(|j| j.id == id).unwrap()
    }

    fn due(&self) -> Vec<ScheduledJob> {
        self.jobs.iter().filter(|j| j.is_due(self.now)).cloned().collect()
    }

    fn list(&self, include_finished: bool) -> Vec<ScheduledJob> {
        listing(shown(self.jobs.clone(), None, include_finished))
    }
}

#[test]
fn a_relative_job_becomes_due_when_the_clock_reaches_it() {
    let mut service = Service::new();
    service.add("in 30m");
    assert!(service.due().is_empty());
    service.now += 1800;
    assert_eq!(service.due().len(), 1);
}

#[test]
fn an_unknown_target_fails_at_the_prompt() {
    let mut service = Service::new();
    assert!(service.add_for("nobody", "in 5m").is_err());
}

#[test]
fn a_renamed_agent_keeps_its_schedule() {
    let mut service = Service::new();
    service.add("in 5m");
    service.agents = vec!["builder".into()];
    service.now += 300;
    let due = service.due();
    assert_eq!(due.len(), 1);
    assert_eq!(due[0].target, "worker");
}

#[test]
fn a_cron_job_reschedules_and_a_one_time_job_retires() {
    let mut service = Service::new();
    let once = service.add("in 10m");
    let cron = service.add("*/15 * * * *");

    service.now = at("2026-08-16T12:15:00Z");
    let now = service.now;
    service.job(&once.id).claim(now).unwrap();
    service.job(&once.id).complete_tick(now);
    assert_eq!(service.job(&once.id).status, JobStatus::Completed);

    service.job(&cron.id).claim(now).unwrap();
    service.job(&cron.id).complete_tick(now);
    assert_eq!(service.job(&cron.id).status, JobStatus::Pending);
    assert_eq!(service.job(&cron.id).next_tick, Some(at("2026-08-16T12:30:00Z")));
}

#[test]
fn a_failed_delivery_retries_a_cron_job_and_retires_a_one_time_one() {
    let mut service = Service::new();
    let once = service.add("in 10m");
    let cron = service.add("*/15 * * * *");
    service.now = at("2026-08-16T12:15:00Z");
    let now = service.now;

    service.job(&once.id).claim(now).unwrap();
    service.job(&once.id).fail_tick("worker gone", now);
    assert_eq!(service.job(&once.id).status, JobStatus::Failed);

    service.job(&cron.id).claim(now).unwrap();
    service.job(&cron.id).fail_tick("worker gone", now);
    assert_eq!(service.job(&cron.id).status, JobStatus::Pending);
}

#[test]
fn a_cancelled_job_never_fires_again() {
    let mut service = Service::new();
    let job = service.add("*/1 * * * *");
    service.job(&job.id).cancel();
    service.now += 3600;
    assert!(service.due().is_empty());
}

#[test]
fn listing_hides_finished_jobs_unless_asked() {
    let mut service = Service::new();
    let job = service.add("in 1m");
    service.now += 60;
    let now = service.now;
    service.job(&job.id).claim(now).unwrap();
    service.job(&job.id).complete_tick(now);

    assert!(service.list(false).is_empty());
    assert_eq!(service.list(true).len(), 1);
}

#[test]
fn listing_puts_the_next_tick_first_and_finished_jobs_last() {
    let mut service = Service::new();
    let late = service.add("in 2h");
    let soon = service.add("in 5m");
    let done = service.add("in 1m");
    service.now += 60;
    let now = service.now;
    service.job(&done.id).claim(now).unwrap();
    service.job(&done.id).complete_tick(now);
    let ids: Vec<String> = service.list(true).into_iter().map(|j| j.id).collect();
    assert_eq!(ids, vec![soon.id, late.id, done.id]);
}

#[test]
fn an_added_job_keeps_its_request() {
    let now = at("2026-08-16T12:00:00Z");
    let request = AddJob {
        target: "w".into(),
        when: "in 30m".into(),
        prompt: "  run it  ".into(),
        delivery: DeliveryMode::Steer,
    };
    let job = added(request.clone(), "worker", "job-7", now).unwrap();
    assert_eq!(job.id, "job-7");
    assert_eq!(job.target, "worker");
    assert_eq!(job.prompt, "run it");
    assert_eq!(job.delivery, DeliveryMode::Steer);
    assert_eq!(job.next_tick, Some(at("2026-08-16T12:30:00Z")));
    assert!(added(AddJob { when: "30m".into(), ..request.clone() }, "worker", "job-8", now).is_err());
    assert!(added(AddJob { prompt: " ".into(), ..request }, "worker", "job-9", now).is_err());
}

#[test]
fn a_listing_for_one_target_shows_only_its_jobs() {
    let mut service = Service::new();
    service.agents.push("auditor".into());
    let mine = service.add("in 5m");
    let theirs = service.add_for("auditor", "in 10m").unwrap();
    let ids: Vec<String> = shown(service.jobs.clone(), Some("auditor"), false).into_iter().map(|j| j.id).collect();
    assert_eq!(ids, vec![theirs.id.clone()]);
    let all: Vec<String> = shown(service.jobs.clone(), None, false).into_iter().map(|j| j.id).collect();
    assert_eq!(all, vec![mine.id, theirs.id]);
}

fn ran(ok: bool) -> umoja::runner::RunOutcome {
    umoja::runner::RunOutcome {
        ok,
        text: String::new(),
        usage: umoja::session::Usage::default(),
        runner_session: None,
        exit_code: Some(if ok { 0 } else { 1 }),
        error: if ok { None } else { Some("harness crashed".into()) },
        pid: None,
        duration_ms: 1,
    }
}

#[test]
fn a_tick_is_finished_by_how_its_delivery_went() {
    let mut service = Service::new();
    let good = service.add("in 1m");
    let bad = service.add("in 1m");
    let cron = service.add("*/5 * * * *");
    service.now += 60 * 5;
    let now = service.now;
    for id in [&good.id, &bad.id, &cron.id] {
        service.job(id).claim(now).unwrap();
    }
    umoja::supervisor::finish_tick(service.job(&good.id), &Ok(ran(true)), now);
    umoja::supervisor::finish_tick(service.job(&bad.id), &Ok(ran(false)), now);
    let missing = umoja::error::DomainError::not_found("runner", "opencode");
    umoja::supervisor::finish_tick(service.job(&cron.id), &Err(missing), now);

    assert_eq!(service.job(&good.id).status, JobStatus::Completed);
    assert_eq!(service.job(&good.id).run_count, 1);
    assert_eq!(service.job(&bad.id).status, JobStatus::Failed);
    assert_eq!(service.job(&bad.id).last_error.as_deref(), Some("harness crashed"));
    assert_eq!(service.job(&cron.id).status, JobStatus::Pending);
    assert_eq!(service.job(&cron.id).run_count, 0);
    assert!(service.job(&cron.id).last_error.is_some());
}
