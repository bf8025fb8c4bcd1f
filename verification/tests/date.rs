use jobsdone::domain::date::parse_date;
use jobsdone::domain::time::{civil_date_string, parse_civil_date, Date};

fn on(text: &str) -> Date {
    parse_civil_date(text).expect("a date")
}

/// The date card's field, read on Friday 5 September 2025.
fn typed(text: &str) -> Option<String> {
    parse_date(text, on("2025-09-05")).map(civil_date_string)
}

#[test]
fn a_typed_date_is_read_the_few_ways_a_date_is_written() {
    for (text, wanted) in [
        ("2025-09-30", "2025-09-30"),
        ("30 sep", "2025-09-30"),
        ("30 september", "2025-09-30"),
        ("sep 30", "2025-09-30"),
        ("30/9", "2025-09-30"),
        ("30.9", "2025-09-30"),
        ("1/10/2026", "2026-10-01"),
        ("30 sep 2027", "2027-09-30"),
        ("  30   SEP  ", "2025-09-30"),
    ] {
        assert_eq!(typed(text).as_deref(), Some(wanted), "{text}");
    }
}

#[test]
fn a_typed_date_with_no_year_is_the_next_one_that_has_not_passed() {
    assert_eq!(typed("1 sep").as_deref(), Some("2026-09-01"));
    assert_eq!(typed("30 sep").as_deref(), Some("2025-09-30"));
    assert_eq!(typed("30").as_deref(), Some("2025-09-30"));
    assert_eq!(typed("3").as_deref(), Some("2025-10-03"));
    assert_eq!(
        parse_date("30", on("2026-01-31")).map(civil_date_string),
        Some("2026-03-30".to_owned())
    );
}

#[test]
fn a_weekday_a_word_and_a_count_of_days_are_dates_too() {
    assert_eq!(typed("today").as_deref(), Some("2025-09-05"));
    assert_eq!(typed("tomorrow").as_deref(), Some("2025-09-06"));
    assert_eq!(typed("+3").as_deref(), Some("2025-09-08"));
    assert_eq!(typed("-3").as_deref(), Some("2025-09-02"));
    assert_eq!(typed("mon").as_deref(), Some("2025-09-08"));
    assert_eq!(typed("monday").as_deref(), Some("2025-09-08"));
    assert_eq!(typed("fri").as_deref(), Some("2025-09-12"));
}

#[test]
fn what_cannot_be_read_as_a_date_is_nothing() {
    for text in ["", "   ", "someday", "31 feb", "40", "9 13", "1 2 3 4", "+"] {
        assert_eq!(typed(text), None, "{text}");
    }
}

#[test]
fn a_count_of_days_crosses_months_and_years() {
    assert_eq!(typed("+30").as_deref(), Some("2025-10-05"));
    assert_eq!(typed("+ 118").as_deref(), Some("2026-01-01"));
    assert_eq!(typed("-247").as_deref(), Some("2025-01-01"));
    assert_eq!(typed("-248").as_deref(), Some("2024-12-31"));
    assert_eq!(
        parse_date("+1", on("2024-02-28")).map(civil_date_string).as_deref(),
        Some("2024-02-29")
    );
}

#[test]
fn a_count_past_the_end_of_the_calendar_is_nothing() {
    assert_eq!(parse_date("+1", on("9999-12-31")), None);
    let first = Date { year: -9999, month: 1, day: 1 };
    assert_eq!(parse_date("-1", first), None);
    assert_eq!(typed("+99999999999"), None);
}

#[test]
fn months_and_weekdays_are_read_whole_or_by_three_letters_only() {
    assert_eq!(typed("1 october").as_deref(), Some("2025-10-01"));
    assert_eq!(typed("1 oct").as_deref(), Some("2025-10-01"));
    assert_eq!(typed("1 octo"), None);
    assert_eq!(typed("1 oc"), None);
    assert_eq!(typed("WED").as_deref(), Some("2025-09-10"));
    assert_eq!(typed("thurs"), None);
}

#[test]
fn a_day_missing_from_the_last_month_of_the_calendar_is_nothing() {
    assert_eq!(parse_date("31", on("9999-12-31")).map(civil_date_string).as_deref(), Some("9999-12-31"));
    assert_eq!(parse_date("30", on("9999-12-31")), None);
    assert_eq!(parse_date("1 jan", on("9999-12-31")), None);
}
