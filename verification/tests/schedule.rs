use umoja::heartbeat::DeliveryMode;
use umoja::schedule::{JobStatus, ScheduleSpec, ScheduledJob};

fn t(text: &str) -> i64 {
    chrono::DateTime::parse_from_rfc3339(text).unwrap().timestamp()
}

#[test]
fn relative_schedules_resolve_against_now() {
    let now = t("2026-08-16T12:00:00Z");
    let spec = ScheduleSpec::parse("in 30m", now).unwrap();
    assert_eq!(spec.next_after(now), Some(t("2026-08-16T12:30:00Z")));
}

#[test]
fn a_bare_interval_is_refused_rather_than_guessed() {
    let now = t("2026-08-16T12:00:00Z");
    assert!(ScheduleSpec::parse("30m", now).is_err());
}

#[test]
fn one_time_jobs_complete_and_cron_jobs_requeue() {
    let now = t("2026-08-16T12:00:00Z");
    let mut once = ScheduledJob::new(
        "job-1",
        "worker",
        "check the benchmark",
        ScheduleSpec::parse("in 30m", now).unwrap(),
        DeliveryMode::Auto,
        now,
    )
    .unwrap();

    let fire = t("2026-08-16T12:30:00Z");
    assert!(once.is_due(fire));
    once.claim(fire).unwrap();
    once.complete_tick(fire);
    assert_eq!(once.status, JobStatus::Completed);
    assert!(once.next_tick.is_none());

    let mut cron = ScheduledJob::new(
        "job-2",
        "worker",
        "review open work",
        ScheduleSpec::parse("0 9 * * 1-5", now).unwrap(),
        DeliveryMode::FollowUp,
        now,
    )
    .unwrap();
    let fire = t("2026-08-17T09:00:00Z");
    cron.claim(fire).unwrap();
    cron.complete_tick(fire);
    assert_eq!(cron.status, JobStatus::Pending);
    assert_eq!(cron.next_tick, Some(t("2026-08-18T09:00:00Z")));
}

#[test]
fn a_tick_cannot_be_claimed_twice() {
    let now = t("2026-08-16T12:00:00Z");
    let mut job = ScheduledJob::new(
        "job-1",
        "worker",
        "go",
        ScheduleSpec::parse("in 1m", now).unwrap(),
        DeliveryMode::Auto,
        now,
    )
    .unwrap();
    let fire = t("2026-08-16T12:01:00Z");
    job.claim(fire).unwrap();
    assert!(job.claim(fire).is_err());
}

#[test]
fn impossible_schedules_are_refused_at_creation() {
    let now = t("2026-08-16T12:00:00Z");
    let spec = ScheduleSpec::parse("2020-01-01T00:00:00Z", now).unwrap();
    assert!(ScheduledJob::new("job-1", "w", "go", spec, DeliveryMode::Auto, now).is_err());
}

#[test]
fn a_failed_one_time_job_retires_and_a_cron_job_retries() {
    let now = t("2026-08-16T12:00:00Z");
    let mut once = ScheduledJob::new(
        "job-1",
        "w",
        "go",
        ScheduleSpec::parse("in 1m", now).unwrap(),
        DeliveryMode::Auto,
        now,
    )
    .unwrap();
    once.claim(now + 60).unwrap();
    once.fail_tick("target vanished", now + 60);
    assert_eq!(once.status, JobStatus::Failed);
    assert_eq!(once.last_error.as_deref(), Some("target vanished"));

    let mut cron = ScheduledJob::new(
        "job-2",
        "w",
        "go",
        ScheduleSpec::parse("*/15 * * * *", now).unwrap(),
        DeliveryMode::Auto,
        now,
    )
    .unwrap();
    assert_eq!(cron.next_tick, Some(now));
    cron.claim(now).unwrap();
    cron.fail_tick("busy", now);
    assert_eq!(cron.status, JobStatus::Pending);
    assert_eq!(cron.next_tick, Some(now + 900));
}

#[test]
fn cancelled_jobs_are_never_due() {
    let now = t("2026-08-16T12:00:00Z");
    let mut job = ScheduledJob::new(
        "job-1",
        "w",
        "go",
        ScheduleSpec::parse("in 1m", now).unwrap(),
        DeliveryMode::Auto,
        now,
    )
    .unwrap();
    job.cancel();
    assert!(!job.is_due(now + 3_600));
    assert_eq!(job.status, JobStatus::Cancelled);
}

#[test]
fn schedules_describe_themselves() {
    let now = t("2026-08-16T12:00:00Z");
    let cron = ScheduleSpec::parse("0 9 * * 1-5", now).unwrap();
    assert!(cron.is_recurring());
    assert_eq!(cron.describe(), "cron 0 9 * * 1-5");
    let once = ScheduleSpec::parse("2026-09-01T08:00:00Z", now).unwrap();
    assert!(!once.is_recurring());
    assert_eq!(once.describe(), "once at 2026-09-01T08:00:00+00:00");
    assert!(ScheduleSpec::parse("   ", now).is_err());
    assert!(ScheduleSpec::parse("in forever", now).is_err());
}
