use jobsdone::cli::json::Json;
use jobsdone::cli::reading::{rule, Reading};
use jobsdone::cli::render::{text as render_text, View};
use jobsdone::cli::{Operation, Then};
use jobsdone::domain::DateOrder;

fn text(s: &str) -> Json {
    Json::Text(s.to_owned())
}

fn object(fields: Vec<(&str, Json)>) -> Json {
    Json::Object(fields.into_iter().map(|(k, v)| (k.to_owned(), v)).collect())
}

fn reading(data: Json) -> Reading {
    Reading { data, today: Some("2026-09-07".to_owned()), dates: DateOrder::DayFirst }
}

fn report_row() -> Json {
    object(vec![
        ("id", Json::Number(12)),
        ("title", text("Write the report")),
        ("place", object(vec![("kind", text("day")), ("day", text("2026-09-07"))])),
        ("position", Json::Number(1)),
        ("open", Json::Bool(true)),
        ("focus", Json::Bool(true)),
        ("waiting", Json::Bool(false)),
        ("closed_at", Json::Null),
        ("due_on", text("2026-09-10")),
        ("remind_on", Json::Null),
        ("schedule", Json::Null),
    ])
}

#[test]
fn a_task_row_is_one_line_with_its_mark_and_what_it_says_of_itself() {
    let r = reading(Json::Null);
    assert_eq!(r.row(&report_row(), false), "    12  [*] Write the report · due Thu 10 Sep");
    assert_eq!(
        r.row(&report_row(), true),
        "    12  [*] Write the report · Mon 7 Sep (today) · due Thu 10 Sep"
    );
}

#[test]
fn a_closed_row_says_when_it_was_closed() {
    let row = object(vec![
        ("id", Json::Number(1)),
        ("title", text("One")),
        ("place", object(vec![("kind", text("backlog"))])),
        ("open", Json::Bool(false)),
        ("closed_at", text("2026-09-07T14:35:00+02:00[Europe/Copenhagen]")),
    ]);
    assert_eq!(reading(Json::Null).row(&row, true), "     1  [x] One · backlog · closed Mon 7 Sep 14:35");
}

#[test]
fn a_view_row_reads_its_chips_and_its_flags() {
    let row = object(vec![
        ("id", Json::Number(12345)),
        ("title", text("Call")),
        ("waiting", Json::Bool(true)),
        ("was_focus", Json::Bool(true)),
        ("due", object(vec![("on", text("2026-09-01")), ("overdue", Json::Bool(true))])),
        ("remind", text("2026-09-08")),
        ("repeat", object(vec![("kind", text("daily"))])),
        ("on_the_pile", Json::Bool(true)),
        ("still_open", Json::Bool(true)),
        ("from_backlog", Json::Bool(true)),
    ]);
    assert_eq!(
        reading(Json::Null).row(&row, false),
        "  12345  [ ] Call · waiting · was focus · due Tue 1 Sep, overdue · remind Tue 8 Sep · repeats every day · on the pile · still open · from the backlog"
    );
}

#[test]
fn a_month_first_locale_writes_the_month_first() {
    let r = Reading { data: Json::Null, today: None, dates: DateOrder::MonthFirst };
    assert_eq!(r.row(&report_row(), true), "    12  [*] Write the report · Mon Sep 7 · due Thu Sep 10");
}

#[test]
fn a_rule_is_read_in_the_words_the_app_uses() {
    let weekly = object(vec![("kind", text("weekly")), ("weekdays", Json::List(vec![text("mon"), Json::Number(3), text("fri")]))]);
    assert_eq!(rule(&weekly), "every mon, fri");
    assert_eq!(rule(&object(vec![("kind", text("workdays"))])), "every work day");
    assert_eq!(rule(&object(vec![("kind", text("daily"))])), "every day");
    assert_eq!(rule(&object(vec![("kind", text("monthly")), ("day", Json::Number(15))])), "the 15 of the month");
    assert_eq!(rule(&object(vec![("kind", text("monthly")), ("day", text("last"))])), "the last day of the month");
    assert_eq!(rule(&object(vec![("kind", text("monthly"))])), "monthly");
    assert_eq!(
        rule(&object(vec![("kind", text("every_n_weeks")), ("n", Json::Number(2)), ("from", text("2026-01-05"))])),
        "every 2 weeks from 2026-01-05"
    );
    assert_eq!(
        rule(&object(vec![("kind", text("every_n_weeks")), ("from", text("2026-01-05"))])),
        "every week from 2026-01-05"
    );
    assert_eq!(rule(&object(vec![("kind", text("yearly"))])), "on a schedule");
    assert_eq!(rule(&Json::Null), "on a schedule");
}

#[test]
fn a_value_with_no_plain_reading_is_written_as_json() {
    let size = object(vec![("width", Json::Number(1000)), ("height", Json::Number(700))]);
    assert_eq!(rule(&object(vec![("kind", text("monthly")), ("day", size)])), "the 1000x700 of the month");
    let odd = object(vec![("a", text("x\"y\n")), ("b", Json::List(vec![Json::Bool(true), Json::Null, Json::Number(-4)]))]);
    assert_eq!(
        rule(&object(vec![("kind", text("monthly")), ("day", odd)])),
        "the {\"a\":\"x\\\"y\\n\",\"b\":[true,null,-4]} of the month"
    );
    let list = Json::List(vec![text("a"), Json::Bool(false), Json::Number(2)]);
    assert_eq!(rule(&object(vec![("kind", text("monthly")), ("day", list)])), "the a,off,2 of the month");
}

#[test]
fn the_review_reads_the_pile_day_by_day_and_what_surfaced() {
    let data = object(vec![
        ("started", Json::Bool(true)),
        (
            "pile",
            object(vec![
                ("total", Json::Number(1)),
                (
                    "days",
                    Json::List(vec![object(vec![
                        ("day", text("2026-09-06")),
                        ("age", Json::Number(1)),
                        ("rows", Json::List(vec![object(vec![("id", Json::Number(3)), ("title", text("Old"))])])),
                    ])]),
                ),
            ]),
        ),
        (
            "surfaced",
            object(vec![
                ("total", Json::Number(1)),
                ("due", Json::List(vec![object(vec![("id", Json::Number(4)), ("title", text("Pay"))])])),
                ("reminders", Json::List(vec![])),
            ]),
        ),
        (
            "gate",
            object(vec![
                ("started_today", Json::Bool(true)),
                ("opens_itself", Json::Bool(false)),
                ("would_open", Json::Bool(false)),
            ]),
        ),
    ]);
    assert_eq!(
        reading(data).review(),
        "The review has been started.\nReview · 1 on the pile · 1 surfaced\nstarted today: yes · opens itself: no · would open: no\n\nPile\n  Sun 6 Sep · 1 day ago\n       3  [ ] Old\nDue\n     4  [ ] Pay\n"
    );
}

#[test]
fn an_empty_review_says_only_its_counts() {
    let data = object(vec![("started", Json::Bool(false))]);
    assert_eq!(
        reading(data).review(),
        "The review had already been started today.\nReview · 0 on the pile · 0 surfaced\n\n"
    );
}

fn operate(op: &str, view: View) -> Operation {
    Operation {
        request: object(vec![("op", text(op))]),
        view,
        after: Then::Nothing,
        body: None,
        input: None,
    }
}

fn envelope(data: Json) -> Json {
    object(vec![
        ("schema_version", Json::Number(1)),
        ("ok", Json::Bool(true)),
        ("data", data),
        ("context", object(vec![("today", text("2026-09-07")), ("recurrence_pending", Json::Bool(false))])),
    ])
}

#[test]
fn a_reading_of_an_answer_is_a_list_rather_than_the_envelope() {
    let data = object(vec![("tasks", Json::List(vec![report_row()])), ("total", Json::Number(1))]);
    let written = render_text(&operate("task.list", View::TaskList), &envelope(data), DateOrder::DayFirst).unwrap();
    assert_eq!(written, "Mon 7 Sep (today)\n    12  [*] Write the report · due Thu 10 Sep\n\n1 task\n");
    assert!(!written.contains('{'));
    assert!(!written.contains('\u{1b}'), "no escape sequences");
}

#[test]
fn a_mutation_says_what_it_did_and_how_to_take_it_back() {
    let closed = |id: i128, title: &str| {
        object(vec![
            ("id", Json::Number(id)),
            ("title", text(title)),
            ("place", object(vec![("kind", text("backlog"))])),
            ("open", Json::Bool(false)),
            ("closed_at", text("2026-09-07T14:35:00+02:00[Europe/Copenhagen]")),
        ])
    };
    let data = object(vec![
        ("tasks", Json::List(vec![closed(1, "One"), closed(2, "Two")])),
        ("count", Json::Number(2)),
        ("undo", object(vec![("id", Json::Number(4)), ("label", text("Closed \"One\" and one more change"))])),
    ]);
    let written = render_text(&operate("task.close", View::Tasks), &envelope(data), DateOrder::DayFirst).unwrap();
    assert!(written.starts_with("Closed 2 tasks.\n"), "{written}");
    assert!(written.contains("jobsdone undo apply --entry 4"), "{written}");
    assert_eq!(
        written,
        "Closed 2 tasks.\n     1  [x] One · backlog · closed Mon 7 Sep 14:35\n     2  [x] Two · backlog · closed Mon 7 Sep 14:35\nundo: Closed \"One\" and one more change · jobsdone undo apply --entry 4\n"
    );
}

#[test]
fn an_answer_with_no_data_cannot_be_read() {
    let bare = object(vec![("ok", Json::Bool(true))]);
    let failure = render_text(&operate("task.list", View::TaskList), &bare, DateOrder::DayFirst).unwrap_err();
    assert_eq!(failure.code, "unreadable_response");
    assert_eq!(failure.exit_code, 1);
}

#[test]
fn an_empty_day_says_nothing_is_planned() {
    let data = object(vec![
        ("day", text("2026-09-07")),
        ("counts", object(vec![("planned", Json::Number(0)), ("done", Json::Number(0))])),
    ]);
    let written = render_text(&operate("day.get", View::Day), &envelope(data), DateOrder::DayFirst).unwrap();
    assert_eq!(written, "Mon 7 Sep (today) · 0 planned · 0 done\n\nNothing planned.\n");
}

#[test]
fn a_day_with_rows_lists_them_under_their_groups() {
    let data = object(vec![
        ("day", text("2026-09-08")),
        ("counts", object(vec![("planned", Json::Number(1))])),
        ("plan", Json::List(vec![object(vec![("id", Json::Number(5)), ("title", text("Plan it"))])])),
    ]);
    let written = render_text(&operate("day.get", View::Day), &envelope(data), DateOrder::DayFirst).unwrap();
    assert_eq!(written, "Tue 8 Sep · 1 planned\n\nPlan\n     5  [ ] Plan it\n");
}

#[test]
fn settings_are_a_column_of_keys_and_plain_values() {
    let data = object(vec![
        (
            "settings",
            object(vec![
                ("confirm_delete", Json::Bool(true)),
                ("day_starts_at", Json::Number(4)),
                ("window_size", object(vec![("width", Json::Number(1000)), ("height", Json::Number(700))])),
            ]),
        ),
        ("date_order", text("month_first")),
        ("desktop", object(vec![("window_rule_changed", Json::Bool(true))])),
    ]);
    let written = render_text(&operate("settings.set", View::Settings), &envelope(data), DateOrder::DayFirst).unwrap();
    assert_eq!(
        written,
        "Saved.\n  confirm_delete  on\n  day_starts_at   4\n  window_size     1000x700\n\nDates are written the month before the day.\n\nThe window settings changed. Run `jobsdone desktop` to write the\nwindow rule and reload it; this command does not touch the window\nmanager itself.\n"
    );
}

#[test]
fn notes_are_listed_by_their_first_line() {
    let data = object(vec![(
        "notes",
        Json::List(vec![
            object(vec![
                ("id", Json::Number(3)),
                ("body", text("Groceries\r\nmilk")),
                ("created_at", text("2026-09-07T08:05:00+02:00[Europe/Copenhagen]")),
            ]),
            object(vec![
                ("id", Json::Number(4)),
                ("first_line", text("Ideas")),
                ("archived_at", text("2026-09-06T20:00:00+02:00[Europe/Copenhagen]")),
            ]),
        ]),
    )]);
    let written = render_text(&operate("note.list", View::Notes), &envelope(data), DateOrder::DayFirst).unwrap();
    assert_eq!(
        written,
        "     3  Groceries · Mon 7 Sep 08:05\n     4  Ideas · archived Sun 6 Sep 20:00\n\n2 notes\n"
    );
}

#[test]
fn the_undo_stack_and_what_undoing_did_are_read_out() {
    let empty = render_text(&operate("undo.peek", View::Undo), &envelope(object(vec![])), DateOrder::DayFirst).unwrap();
    assert_eq!(empty, "There is nothing to undo.\n");
    let top = object(vec![
        ("entry", object(vec![("id", Json::Number(9)), ("label", text("Added \"Call\""))])),
        ("depth", Json::Number(1)),
    ]);
    let written = render_text(&operate("undo.peek", View::Undo), &envelope(top), DateOrder::DayFirst).unwrap();
    assert_eq!(written, "Added \"Call\" · entry 9 · 1 entry on the stack\n");
    let undone = object(vec![
        ("applied", Json::Bool(false)),
        ("label", text("Moved \"Call\"")),
        ("dropped", text("That task is gone.")),
        ("depth", Json::Number(0)),
    ]);
    let written = render_text(&operate("undo.apply", View::Undone), &envelope(undone), DateOrder::DayFirst).unwrap();
    assert_eq!(written, "Dropped: Moved \"Call\"\nThat task is gone.\n0 entries left on the stack\n");
}
