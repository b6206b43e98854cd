use umoja::timespec::{CronExpr, Interval};

fn at(text: &str) -> i64 {
    chrono::DateTime::parse_from_rfc3339(text).unwrap().timestamp()
}

#[test]
fn parses_compound_intervals() {
    assert_eq!(Interval::parse("30s").unwrap().as_secs(), 30);
    assert_eq!(Interval::parse("1h30m").unwrap().as_secs(), 5_400);
    assert_eq!(Interval::parse("2d").unwrap().as_secs(), 172_800);
}

#[test]
fn bare_number_means_minutes() {
    assert_eq!(Interval::parse("10").unwrap().as_secs(), 600);
}

#[test]
fn rejects_nonsense_intervals() {
    for bad in ["", "0m", "h", "10x", "-5m"] {
        assert!(Interval::parse(bad).is_err(), "{bad} should not parse");
    }
}

#[test]
fn interval_round_trips_through_display() {
    let interval = Interval::parse("1h30m").unwrap();
    assert_eq!(interval.to_text(), "1h30m");
    assert_eq!(Interval::parse(&interval.to_text()).unwrap(), interval);
}

#[test]
fn weekday_cron_skips_the_weekend() {
    let cron = CronExpr::parse("0 9 * * 1-5").unwrap();
    // Friday 09:00 -> Monday 09:00.
    let next = cron.next_after(at("2026-08-14T09:00:00Z")).unwrap();
    assert_eq!(next, at("2026-08-17T09:00:00Z"));
}

#[test]
fn step_fields_fire_every_nth_minute() {
    let cron = CronExpr::parse("*/15 * * * *").unwrap();
    assert_eq!(
        cron.next_after(at("2026-08-16T10:07:00Z")).unwrap(),
        at("2026-08-16T10:15:00Z")
    );
}

#[test]
fn named_fields_are_accepted() {
    let cron = CronExpr::parse("0 0 1 jan *").unwrap();
    assert_eq!(
        cron.next_after(at("2026-08-16T10:00:00Z")).unwrap(),
        at("2027-01-01T00:00:00Z")
    );
}

#[test]
fn both_day_fields_restricted_means_either() {
    // The 1st of the month, or any Monday.
    let cron = CronExpr::parse("0 0 1 * 1").unwrap();
    assert!(cron.matches(at("2026-09-01T00:00:00Z"))); // a Tuesday, but the 1st
    assert!(cron.matches(at("2026-08-17T00:00:00Z"))); // a Monday, not the 1st
    assert!(!cron.matches(at("2026-08-18T00:00:00Z")));
}

#[test]
fn impossible_dates_terminate_instead_of_looping() {
    let cron = CronExpr::parse("0 0 30 2 *").unwrap();
    assert!(cron.next_after(at("2026-08-16T10:00:00Z")).is_none());
}

#[test]
fn rejects_malformed_expressions() {
    for bad in ["* * * *", "60 * * * *", "* 24 * * *", "*/0 * * * *", "5-1 * * * *"] {
        assert!(CronExpr::parse(bad).is_err(), "{bad} should not parse");
    }
}

#[test]
fn interval_text_uses_the_largest_units_first() {
    assert_eq!(Interval::from_secs(5_400).to_text(), "1h30m");
    assert_eq!(Interval::from_secs(90_061).to_text(), "1d1h1m1s");
    assert_eq!(Interval::from_secs(45).to_text(), "45s");
    assert_eq!(Interval::parse("1w").unwrap().as_secs(), 604_800);
    assert_eq!(Interval::parse(" 1H30M ").unwrap().as_secs(), 5_400);
}

#[test]
fn every_interval_reads_back_from_its_text() {
    for secs in [1u64, 59, 60, 61, 3_599, 3_600, 86_399, 86_400, 90_061, 31_536_000] {
        let interval = Interval::from_secs(secs);
        assert_eq!(Interval::parse(&interval.to_text()).unwrap(), interval);
    }
}

#[test]
fn intervals_over_a_year_are_refused() {
    assert!(Interval::parse("366d").is_err());
    assert!(Interval::parse("365d").is_ok());
    assert!(Interval::checked(0).is_err());
}

#[test]
fn cron_text_is_normalised_to_single_spaces() {
    let cron = CronExpr::parse("  0   9 * *  1-5 ").unwrap();
    assert_eq!(cron.source(), "0 9 * * 1-5");
    assert_eq!(cron.to_text(), "0 9 * * 1-5");
}

#[test]
fn a_parsed_source_reads_back_as_the_same_expression() {
    let c = CronExpr::parse("  */15   9-17 * jan-mar  mon-fri ").unwrap();
    assert_eq!(c.source(), "*/15 9-17 * jan-mar mon-fri");
    assert_eq!(CronExpr::parse(c.source()).unwrap(), c);
}

#[test]
fn the_next_firing_is_found_far_from_1970() {
    let every_minute = CronExpr::parse("* * * * *").unwrap();
    let late = umoja::time::CALENDAR_LIMIT - 90;
    let next = every_minute.next_after(late).unwrap();
    assert!(next > late && next - late <= 60 && next % 60 == 0);
    let early = -umoja::time::CALENDAR_LIMIT + 30;
    let next = every_minute.next_after(early).unwrap();
    assert!(next > early && next - early <= 60 && next % 60 == 0);
}
