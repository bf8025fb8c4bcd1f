use jobsdone::domain::{DateStyle, Settings, WeekStart, Weekday, WindowSize, WorkDays};

fn rows(rows: &[(&str, &str)]) -> Vec<(String, String)> {
    rows.iter()
        .map(|(key, value)| ((*key).to_owned(), (*value).to_owned()))
        .collect()
}

#[test]
fn the_defaults_are_what_section_19_says() {
    let settings = Settings::default();

    assert_eq!(settings.day_starts_at(), 5);
    assert_eq!(settings.week_starts_on(), WeekStart::Monday);
    assert_eq!(
        settings.work_days().iter(),
        [
            Weekday::Mon,
            Weekday::Tue,
            Weekday::Wed,
            Weekday::Thu,
            Weekday::Fri
        ]
    );
    assert!(settings.review_opens_itself());
    assert_eq!(settings.due_ahead_days(), 0);
    assert_eq!(settings.backfill_days(), 0);
    assert_eq!(settings.pile_horizon_days(), 0);
    assert!(settings.floating_window());
    assert_eq!(settings.window_size(), WindowSize::new(870, 650));
    assert!(settings.mouse());
    assert_eq!(settings.message_seconds(), 4);
    assert_eq!(settings.date_style(), DateStyle::Locale);
    assert!(!settings.confirm_delete());
    assert!(!settings.spell_check_notes());
}

#[test]
fn every_setting_reads_back_as_what_was_written() {
    let mut settings = Settings::default();
    settings.set_day_starts_at(8);
    settings.set_week_starts_on(WeekStart::Sunday);
    settings.set_work_days(WorkDays::of(&[Weekday::Sun, Weekday::Mon]));
    settings.set_review_opens_itself(false);
    settings.set_due_ahead_days(3);
    settings.set_backfill_days(7);
    settings.set_pile_horizon_days(30);
    settings.set_floating_window(false);
    settings.set_window_size(WindowSize::new(1200, 800));
    settings.set_mouse(false);
    settings.set_message_seconds(0);
    settings.set_date_style(DateStyle::MonthFirst);
    settings.set_confirm_delete(true);
    settings.set_spell_check_notes(true);

    assert_eq!(Settings::from_pairs(&settings.to_pairs()), settings);
}

#[test]
fn a_key_the_codec_does_not_know_leaves_the_settings_alone() {
    let settings = Settings::from_pairs(&rows(&[
        ("day_starts_at", "8"),
        ("what_a_later_version_added", "whatever it holds"),
    ]));

    assert_eq!(settings.day_starts_at(), 8);
    assert_eq!(settings.week_starts_on(), WeekStart::Monday);
}

#[test]
fn a_value_the_codec_cannot_read_is_the_default() {
    let settings = Settings::from_pairs(&rows(&[
        ("day_starts_at", "the small hours"),
        ("work_days", "mon,funday"),
        ("window_size", "wide"),
        ("mouse", "yes"),
        ("date_style", "american"),
        ("spell_check_notes", "sometimes"),
    ]));

    assert_eq!(settings, Settings::default());
}

#[test]
fn notes_are_unchecked_until_explicitly_enabled() {
    assert!(!Settings::from_pairs(&rows(&[("day_starts_at", "8")])).spell_check_notes());
    assert!(!Settings::from_pairs(&rows(&[("spell_check_notes", "off")])).spell_check_notes());
    assert!(Settings::from_pairs(&rows(&[("spell_check_notes", "true")])).spell_check_notes());
    assert!(!Settings::from_pairs(&rows(&[("spell_check_notes", "false")])).spell_check_notes());
}

#[test]
fn a_number_out_of_its_range_is_held_to_the_range() {
    let settings = Settings::from_pairs(&rows(&[
        ("day_starts_at", "48"),
        ("due_ahead_days", "-4"),
        ("pile_horizon_days", "9999"),
        ("message_seconds", "600"),
        ("window_size", "20x99999"),
    ]));

    assert_eq!(settings.day_starts_at(), 23);
    assert_eq!(settings.due_ahead_days(), 0);
    assert_eq!(settings.pile_horizon_days(), 3650);
    assert_eq!(settings.message_seconds(), 60);
    assert_eq!(settings.window_size(), WindowSize::new(200, 10_000));
}

#[test]
fn only_a_preset_size_names_a_grid() {
    assert_eq!(WindowSize::default().cells(), Some((120, 36)));
    assert_eq!(WindowSize::presets()[0].cells(), Some((100, 30)));
    assert_eq!(WindowSize::presets()[4].cells(), Some((180, 54)));
    assert_eq!(WindowSize::new(900, 700).cells(), None);
}

#[test]
fn the_presets_climb() {
    let presets = WindowSize::presets();
    let mut sizes = presets.iter();
    let mut last = *sizes.next().expect("a first preset");
    for size in sizes {
        assert!(
            size.width > last.width && size.height > last.height,
            "{size:?} is not larger than {last:?}"
        );
        last = *size;
    }
}

#[test]
fn a_work_day_goes_on_and_off_the_set() {
    let mut days = WorkDays::default();
    days.toggle(Weekday::Sat);
    assert!(days.contains(Weekday::Sat));

    days.toggle(Weekday::Sat);
    assert!(!days.contains(Weekday::Sat));
    assert_eq!(days, WorkDays::default());
}

// ---- beyond the scenarios above -------------------------------------

#[test]
fn the_rows_name_every_setting_in_the_order_the_table_has_them() {
    let pairs = Settings::default().to_pairs();
    let keys: Vec<&str> = pairs.iter().map(|(key, _)| key.as_str()).collect();
    assert_eq!(
        keys,
        [
            "day_starts_at",
            "week_starts_on",
            "work_days",
            "review_opens_itself",
            "due_ahead_days",
            "backfill_days",
            "pile_horizon_days",
            "floating_window",
            "window_size",
            "mouse",
            "message_seconds",
            "date_style",
            "confirm_delete",
            "spell_check_notes",
        ]
    );
    assert_eq!(pairs[2].1, "mon,tue,wed,thu,fri");
    assert_eq!(pairs[8].1, "870x650");
}

#[test]
fn a_value_is_read_with_its_outer_whitespace_taken_off() {
    let settings = Settings::from_pairs(&rows(&[
        ("day_starts_at", "  7 "),
        ("work_days", " sat , ,sun "),
        ("window_size", " 1000 x 700 "),
        ("week_starts_on", "\tsunday\n"),
    ]));
    assert_eq!(settings.day_starts_at(), 7);
    assert_eq!(settings.work_days().iter(), [Weekday::Sat, Weekday::Sun]);
    assert_eq!(settings.window_size(), WindowSize::new(1000, 700));
    assert_eq!(settings.week_starts_on(), WeekStart::Sunday);
}

#[test]
fn a_later_row_for_a_key_wins() {
    let settings = Settings::from_pairs(&rows(&[("mouse", "false"), ("mouse", "true")]));
    assert!(settings.mouse());
}

#[test]
fn an_empty_set_of_work_days_is_the_problem_settings_can_have() {
    let mut settings = Settings::default();
    assert_eq!(settings.problem(), None);
    settings.set_work_days(WorkDays::of(&[]));
    assert_eq!(
        settings.problem(),
        Some("At least one day of the week must be a work day.")
    );
    assert!(settings.work_days().is_empty());
    settings.toggle_work_day(Weekday::Wed);
    assert_eq!(settings.problem(), None);
}

#[test]
fn a_set_of_work_days_is_the_days_it_lists() {
    let days = WorkDays::of(&[Weekday::Sun, Weekday::Wed, Weekday::Mon, Weekday::Wed]);
    let listed = days.iter();
    assert_eq!(listed, vec![Weekday::Mon, Weekday::Wed, Weekday::Sun]);
    let again = WorkDays::of(&listed);
    assert_eq!(again.iter(), listed);
    assert!(!days.is_empty());

    let none = WorkDays::of(&[]);
    assert!(none.is_empty());
    assert!(none.iter().is_empty());
}
