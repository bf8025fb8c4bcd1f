use jobsdone::domain::rule::{next_dates, MonthDay, Rule};
use jobsdone::domain::time::Date;
use jobsdone::domain::{Weekday, WorkDays};

fn on(text: &str) -> Date {
    let parts: Vec<&str> = text.split('-').collect();
    Date {
        year: parts[0].parse().expect("a year"),
        month: parts[1].parse().expect("a month"),
        day: parts[2].parse().expect("a day"),
    }
}

fn written(date: &Date) -> String {
    format!("{:04}-{:02}-{:02}", date.year, date.month, date.day)
}

fn dates(rule: &Rule, after: &str, count: usize) -> Vec<String> {
    dates_worked(rule, after, count, WorkDays::default())
}

fn dates_worked(rule: &Rule, after: &str, count: usize, work_days: WorkDays) -> Vec<String> {
    next_dates(rule, on(after), count, &work_days).iter().map(written).collect()
}

#[test]
fn work_days_are_monday_to_friday_until_the_settings_say_otherwise() {
    assert_eq!(
        dates(&Rule::Workdays, "2026-09-10", 4),
        ["2026-09-11", "2026-09-14", "2026-09-15", "2026-09-16"]
    );
}

#[test]
fn a_work_days_rule_repeats_over_a_sunday_to_thursday_week() {
    let week = WorkDays::of(&[Weekday::Sun, Weekday::Mon, Weekday::Tue, Weekday::Wed, Weekday::Thu]);

    // From a Thursday: the Friday and the Saturday are skipped.
    assert_eq!(
        dates_worked(&Rule::Workdays, "2026-09-10", 4, week),
        ["2026-09-13", "2026-09-14", "2026-09-15", "2026-09-16"]
    );
}

#[test]
fn every_day_is_every_day() {
    assert_eq!(dates(&Rule::Daily, "2026-09-10", 3), ["2026-09-11", "2026-09-12", "2026-09-13"]);
}

#[test]
fn weekly_is_a_set_of_weekdays() {
    let rule = Rule::Weekly { weekdays: vec![Weekday::Mon, Weekday::Thu] };
    assert_eq!(dates(&rule, "2026-09-07", 4), ["2026-09-10", "2026-09-14", "2026-09-17", "2026-09-21"]);
}

#[test]
fn monthly_clamps_a_day_to_the_months_last() {
    let rule = Rule::Monthly { day: MonthDay::Day(31) };
    assert_eq!(dates(&rule, "2026-01-31", 3), ["2026-02-28", "2026-03-31", "2026-04-30"]);

    let first = Rule::Monthly { day: MonthDay::Day(1) };
    assert_eq!(dates(&first, "2026-09-05", 2), ["2026-10-01", "2026-11-01"]);
}

#[test]
fn monthly_on_the_last_is_the_last_day_of_each_month() {
    let rule = Rule::Monthly { day: MonthDay::Last };
    assert_eq!(dates(&rule, "2026-01-01", 3), ["2026-01-31", "2026-02-28", "2026-03-31"]);
}

#[test]
fn every_n_weeks_is_one_weekday_counted_from_a_date() {
    let rule = Rule::EveryNWeeks { n: 2, from: on("2026-09-04") };
    assert_eq!(dates(&rule, "2026-09-04", 3), ["2026-09-18", "2026-10-02", "2026-10-16"]);
    // Asked from before the start, the start itself is the first date.
    assert_eq!(dates(&rule, "2026-08-01", 1), ["2026-09-04"]);
}

#[test]
fn a_rule_that_never_comes_round_has_no_dates() {
    assert!(dates(&Rule::Weekly { weekdays: vec![] }, "2026-09-07", 3).is_empty());
    assert!(dates(&Rule::EveryNWeeks { n: 0, from: on("2026-09-04") }, "2026-09-07", 3).is_empty());
}

#[test]
fn every_n_weeks_counts_from_a_start_that_may_be_ahead() {
    let ahead = Rule::EveryNWeeks { n: 1, from: on("2027-01-08") };
    assert_eq!(dates(&ahead, "2026-09-07", 2), ["2027-01-08", "2027-01-15"]);

    let rare = Rule::EveryNWeeks { n: 52, from: on("2026-09-04") };
    assert_eq!(dates(&rare, "2026-09-07", 2), ["2027-09-03", "2028-09-01"]);
}

#[test]
fn a_leap_day_is_a_day_of_the_calendar() {
    assert_eq!(dates(&Rule::Daily, "2028-02-28", 2), ["2028-02-29", "2028-03-01"]);
    assert_eq!(dates(&Rule::Daily, "2100-02-28", 1), ["2100-03-01"]);
    assert_eq!(dates(&Rule::Daily, "2026-12-31", 1), ["2027-01-01"]);
}

#[test]
fn the_calendar_ends_where_jiff_ends_it() {
    assert!(dates(&Rule::Daily, "9999-12-31", 3).is_empty());
    assert_eq!(dates(&Rule::Daily, "9999-12-30", 3), ["9999-12-31"]);
}

#[test]
fn no_dates_are_asked_for() {
    assert!(dates(&Rule::Daily, "2026-09-07", 0).is_empty());
}
