//! What a command line means: `parse` is a function of the arguments, so
//! every form of a command line is a test rather than a run.

use jobsdone::cli::json::Json;
use jobsdone::cli::parse::{all_commands, format_hint, parse};
use jobsdone::cli::render::View;
use jobsdone::cli::{Body, Failure, Format, Operation, Parsed, Plan, Source, Then};

fn read(arguments: &[&str]) -> Result<Parsed, Failure> {
    let arguments: Vec<String> = arguments.iter().map(|word| (*word).to_owned()).collect();
    parse(&arguments)
}

/// The request a command line sends.
fn request(arguments: &[&str]) -> Json {
    operation(arguments).request
}

fn operation(arguments: &[&str]) -> Operation {
    match read(arguments) {
        Ok(parsed) => match parsed.plan {
            Plan::Operate(operation) => operation,
            other => panic!("{arguments:?} is {other:?} rather than an operation"),
        },
        Err(failure) => panic!("{arguments:?} is refused: {}", failure.message),
    }
}

fn refused(arguments: &[&str]) -> String {
    match read(arguments) {
        Ok(parsed) => panic!("{arguments:?} should be refused, and is {:?}", parsed.plan),
        Err(failure) => failure.message,
    }
}

// ---- JSON values, built and compared the way serde_json does -----------

fn t(text: &str) -> Json {
    Json::Text(text.to_owned())
}

fn n(number: i128) -> Json {
    Json::Number(number)
}

fn list(items: Vec<Json>) -> Json {
    Json::List(items)
}

fn obj(fields: Vec<(&str, Json)>) -> Json {
    Json::Object(fields.into_iter().map(|(key, value)| (key.to_owned(), value)).collect())
}

/// Equal as JSON: an object is the same whatever order its fields stand in.
fn same(a: &Json, b: &Json) -> bool {
    match (a, b) {
        (Json::Null, Json::Null) => true,
        (Json::Bool(x), Json::Bool(y)) => x == y,
        (Json::Number(x), Json::Number(y)) => x == y,
        (Json::Text(x), Json::Text(y)) => x == y,
        (Json::List(xs), Json::List(ys)) => {
            xs.len() == ys.len() && xs.iter().zip(ys.iter()).all(|(x, y)| same(x, y))
        }
        (Json::Object(xs), Json::Object(ys)) => {
            xs.len() == ys.len()
                && xs.iter().all(|(key, x)| {
                    ys.iter().any(|(other, y)| key == other && same(x, y))
                })
        }
        _ => false,
    }
}

fn assert_same(got: &Json, wanted: &Json) {
    assert!(same(got, wanted), "got {got:?}, wanted {wanted:?}");
}

fn get<'a>(value: &'a Json, key: &str) -> Option<&'a Json> {
    match value {
        Json::Object(fields) => fields.iter().find(|(name, _)| name == key).map(|(_, v)| v),
        _ => None,
    }
}

fn field<'a>(value: &'a Json, key: &str) -> &'a Json {
    get(value, key).unwrap_or_else(|| panic!("{value:?} has no {key}"))
}

// ---- what a command line is at all ----------------------------------

#[test]
fn nothing_on_the_command_line_opens_the_app() {
    assert!(matches!(read(&[]).unwrap().plan, Plan::Run));
}

#[test]
fn a_data_directory_opens_the_app_on_that_database() {
    let parsed = read(&["--data-dir", "/tmp/scratch"]).unwrap();
    assert!(matches!(parsed.plan, Plan::Run));
    assert_eq!(parsed.data_dir, Some("/tmp/scratch".to_owned()));
}

#[test]
fn an_option_about_an_operation_does_not_open_the_app() {
    for stray in [vec!["--json"], vec!["--format", "json"], vec!["--input", "-"]] {
        let said = refused(&stray);
        assert!(said.contains("there is no command here"), "{stray:?} said {said}");
    }
}

#[test]
fn a_word_that_is_not_a_command_is_refused_by_name() {
    assert_eq!(refused(&["fly"]), "fly is not a command");
    assert!(refused(&["task"]).contains("task wants one of"));
    assert!(refused(&["task", "frobnicate"]).contains("is not a command"));
}

#[test]
fn help_and_version_and_the_skill_need_no_command() {
    assert!(matches!(read(&["--help"]).unwrap().plan, Plan::Help(_)));
    assert!(matches!(read(&["-h"]).unwrap().plan, Plan::Help(_)));
    assert!(matches!(read(&["--version"]).unwrap().plan, Plan::Version));
    assert!(matches!(read(&["-V"]).unwrap().plan, Plan::Version));
    assert!(matches!(read(&["--skill"]).unwrap().plan, Plan::Skill));
}

#[test]
fn help_after_a_command_is_that_command_s_help() {
    let Plan::Help(text) = read(&["task", "add", "--help"]).unwrap().plan else {
        panic!("not help");
    };
    assert!(text.contains("jobsdone task add TITLE"));

    let Plan::Help(text) = read(&["help", "note", "check"]).unwrap().plan else {
        panic!("not help");
    };
    assert!(text.contains("note check"));
}

#[test]
fn help_wins_over_a_command_line_that_makes_no_sense() {
    assert!(matches!(read(&["task", "add", "--help"]).unwrap().plan, Plan::Help(_)));
}

// ---- the format -----------------------------------------------------

#[test]
fn the_format_is_asked_for_in_two_ways_that_must_agree() {
    assert_eq!(read(&["--json", "backlog", "get"]).unwrap().format, Format::Json);
    assert_eq!(read(&["backlog", "get", "--format", "json"]).unwrap().format, Format::Json);
    assert_eq!(read(&["backlog", "get"]).unwrap().format, Format::Text);
    assert!(refused(&["backlog", "get", "--json", "--format", "text"])
        .contains("ask for different formats"));
}

#[test]
fn toon_is_refused_by_name() {
    let said = refused(&["backlog", "get", "--format", "toon"]);
    assert!(said.contains("toon"), "{said}");
    assert!(said.contains("text and json"), "{said}");
}

#[test]
fn the_format_survives_a_command_line_that_cannot_be_read() {
    let json = ["--json".to_owned(), "task".to_owned(), "fly".to_owned()];
    assert_eq!(format_hint(&json), Format::Json);
    let after = ["task".to_owned(), "fly".to_owned(), "--json".to_owned()];
    assert_eq!(format_hint(&after), Format::Json);
    assert!(parse(&json).is_err());
}

#[test]
fn a_global_option_stands_anywhere() {
    for line in [
        vec!["--json", "task", "get", "1"],
        vec!["task", "--json", "get", "1"],
        vec!["task", "get", "--json", "1"],
        vec!["task", "get", "1", "--json"],
    ] {
        let parsed = read(&line).unwrap();
        assert_eq!(parsed.format, Format::Json, "{line:?}");
        let Plan::Operate(operation) = parsed.plan else {
            panic!("{line:?}")
        };
        assert_same(&operation.request, &obj(vec![("op", t("task.get")), ("id", n(1))]));
    }
}

// ---- the names of things --------------------------------------------

#[test]
fn a_command_s_name_is_the_operation_it_sends() {
    for (command, op) in [
        (vec!["task", "list"], "task.list"),
        (vec!["day", "get"], "day.get"),
        (vec!["backlog", "get"], "backlog.get"),
        (vec!["history", "list"], "history.list"),
        (vec!["review", "get"], "review.get"),
        (vec!["review", "start"], "review.start"),
        (vec!["refresh"], "refresh"),
        (vec!["schedule", "list"], "schedule.list"),
        (vec!["note", "list"], "note.list"),
        (vec!["settings", "get"], "settings.get"),
        (vec!["dictionary", "list"], "dictionary.list"),
        (vec!["undo", "get"], "undo.get"),
    ] {
        assert_same(field(&request(&command), "op"), &t(op));
    }
}

/// One command line per command in the table, so that every form the help
/// advertises is a form the parser takes.
const SAMPLES: &[(&str, &[&str])] = &[
    ("task list", &["task", "list"]),
    ("task get", &["task", "get", "1"]),
    ("task add", &["task", "add", "A title"]),
    ("task update", &["task", "update", "1", "--focus"]),
    ("task rename", &["task", "rename", "1", "A title"]),
    ("task focus", &["task", "focus", "1"]),
    ("task unfocus", &["task", "unfocus", "1"]),
    ("task waiting", &["task", "waiting", "1"]),
    ("task unwait", &["task", "unwait", "1"]),
    ("task due", &["task", "due", "1", "today"]),
    ("task remind", &["task", "remind", "1", "today"]),
    ("task close", &["task", "close", "1"]),
    ("task reopen", &["task", "reopen", "1"]),
    ("task move", &["task", "move", "1", "--to", "today"]),
    ("task reorder", &["task", "reorder", "1", "--top"]),
    ("task delete", &["task", "delete", "1", "--yes"]),
    ("day get", &["day", "get"]),
    ("day reorder", &["day", "reorder", "--order", "1,2"]),
    ("backlog get", &["backlog", "get"]),
    ("backlog reorder", &["backlog", "reorder", "--order", "1,2"]),
    ("history list", &["history", "list"]),
    ("search", &["search", "report"]),
    ("review get", &["review", "get"]),
    ("review start", &["review", "start"]),
    ("refresh", &["refresh"]),
    ("schedule list", &["schedule", "list"]),
    ("schedule get", &["schedule", "get", "1"]),
    ("schedule create", &["schedule", "create", "1", "daily"]),
    ("schedule update", &["schedule", "update", "1", "--rule", "daily"]),
    ("schedule stop", &["schedule", "stop", "1"]),
    ("schedule preview", &["schedule", "preview", "daily"]),
    ("note list", &["note", "list"]),
    ("note get", &["note", "get", "1"]),
    ("note create", &["note", "create"]),
    ("note update", &["note", "update", "1", "a thought"]),
    ("note delete", &["note", "delete", "1", "--yes"]),
    ("note archive", &["note", "archive", "1"]),
    ("note unarchive", &["note", "unarchive", "1"]),
    ("note spell-check", &["note", "spell-check", "1", "off"]),
    ("note check", &["note", "check", "1"]),
    ("note copy", &["note", "copy", "1"]),
    ("settings get", &["settings", "get"]),
    ("settings set", &["settings", "set", "mouse=off"]),
    ("dictionary list", &["dictionary", "list"]),
    ("dictionary add", &["dictionary", "add", "Acme"]),
    ("dictionary update", &["dictionary", "update", "acme", "ACME"]),
    ("dictionary delete", &["dictionary", "delete", "acme"]),
    ("undo get", &["undo", "get"]),
    ("undo apply", &["undo", "apply", "--entry", "1"]),
    ("desktop", &["desktop", "--tiled"]),
    ("help", &["help"]),
];

#[test]
fn every_command_in_the_table_parses_and_sends_its_own_operation() {
    for spec in all_commands() {
        let (_, arguments) = SAMPLES
            .iter()
            .find(|(name, _)| *name == spec.name)
            .unwrap_or_else(|| panic!("{} has no sample command line", spec.name));

        let parsed = read(arguments)
            .unwrap_or_else(|failure| panic!("{arguments:?} is refused: {}", failure.message));
        if spec.op.is_empty() {
            continue;
        }
        let Plan::Operate(operation) = parsed.plan else {
            panic!("{arguments:?} is not an operation");
        };
        assert_same(field(&operation.request, "op"), &t(spec.op));
    }
}

#[test]
fn a_verb_is_not_eaten_by_a_noun_that_is_a_command_by_itself() {
    assert_same(field(&request(&["history", "list"]), "op"), &t("history.list"));
    assert!(read(&["history", "list", "--limit", "3"]).is_ok());
    assert_same(field(&request(&["history"]), "op"), &t("history.list"));
    let Plan::Help(text) = read(&["help", "day", "get"]).unwrap().plan else {
        panic!("not help")
    };
    assert!(text.contains("jobsdone day get"), "{text}");
}

#[test]
fn the_aliases_reach_the_same_operations() {
    for (line, op) in [
        (vec!["tasks", "ls"], "task.list"),
        (vec!["task", "show", "3"], "task.get"),
        (vec!["task", "edit", "3", "--focus"], "task.update"),
        (vec!["notes", "ls"], "note.list"),
        (vec!["dict", "ls"], "dictionary.list"),
        (vec!["dict", "rm", "acme"], "dictionary.delete"),
        (vec!["day", "list"], "history.list"),
        (vec!["history"], "history.list"),
        (vec!["undo", "show"], "undo.get"),
    ] {
        assert_same(field(&request(&line), "op"), &t(op));
    }
}

#[test]
fn an_unknown_option_is_named_against_the_command_it_was_written_on() {
    assert_eq!(
        refused(&["task", "add", "x", "--quickly"]),
        "--quickly is not an option of `task add`"
    );
    assert_eq!(refused(&["--colour"]), "--colour is not an option");
    assert!(refused(&["task", "list", "--yes"]).contains("`task list`"));
}

// ---- tasks ----------------------------------------------------------

fn backlog() -> Json {
    obj(vec![("kind", t("backlog"))])
}

fn day(written: &str) -> Json {
    obj(vec![("kind", t("day")), ("day", t(written))])
}

#[test]
fn a_task_goes_to_the_backlog_unless_a_day_is_named() {
    assert_same(
        &request(&["task", "add", "Fix the tap"]),
        &obj(vec![("op", t("task.add")), ("title", t("Fix the tap")), ("place", backlog())]),
    );
    assert_same(field(&request(&["task", "add", "Report", "--today"]), "place"), &day("today"));
    assert_same(
        field(&request(&["task", "add", "Report", "--day", "2026-09-30"]), "place"),
        &day("2026-09-30"),
    );
    assert_same(
        field(&request(&["task", "add", "Report", "--place", "backlog"]), "place"),
        &backlog(),
    );
}

#[test]
fn a_title_written_without_quotes_still_arrives_as_one_title() {
    assert_same(
        field(&request(&["task", "add", "Write", "the", "report"]), "title"),
        &t("Write the report"),
    );
    assert_same(field(&request(&["search", "the", "report"]), "text"), &t("the report"));
}

#[test]
fn everything_a_new_task_starts_with_goes_in_one_request() {
    assert_same(
        &request(&[
            "task", "add", "Report", "--today", "--focus", "--due", "tomorrow", "--remind",
            "2026-09-09", "--repeat", "weekly:mon,thu", "--position", "2",
        ]),
        &obj(vec![
            ("op", t("task.add")),
            ("title", t("Report")),
            ("place", day("today")),
            ("focus", Json::Bool(true)),
            ("due", t("tomorrow")),
            ("remind", t("2026-09-09")),
            ("repeat", obj(vec![("kind", t("weekly")), ("weekdays", list(vec![t("mon"), t("thu")]))])),
            ("position", n(2)),
        ]),
    );
}

#[test]
fn two_places_for_one_task_is_refused_rather_than_resolved() {
    assert!(refused(&["task", "add", "x", "--today", "--backlog"]).contains("name different places"));
    assert!(read(&["task", "add", "x", "--today", "--today"]).is_ok());
}

#[test]
fn a_date_is_passed_through_for_the_service_to_read() {
    for written in ["2026-09-30", "today", "tomorrow", "next-work-day"] {
        assert_same(field(&request(&["task", "due", "3", written]), "due"), &t(written));
    }
}

#[test]
fn clearing_a_date_is_null_and_leaving_it_is_absent() {
    assert_same(
        &request(&["task", "update", "3", "--clear-due"]),
        &obj(vec![("op", t("task.update")), ("id", n(3)), ("due", Json::Null)]),
    );
    assert_same(field(&request(&["task", "due", "3", "none"]), "due"), &Json::Null);
    assert_same(field(&request(&["task", "due", "3", "clear"]), "due"), &Json::Null);
    let leaving = request(&["task", "update", "3", "--focus"]);
    assert!(get(&leaving, "due").is_none());
}

#[test]
fn a_property_and_its_opposite_cannot_both_be_asked_for() {
    assert!(refused(&["task", "update", "3", "--focus", "--no-focus"]).contains("opposites"));
    assert!(refused(&["task", "update", "3", "--due", "today", "--clear-due"]).contains("opposites"));
}

#[test]
fn the_short_ways_of_changing_a_task_are_one_update_each() {
    let update = |key: &str, value: Json| {
        obj(vec![("op", t("task.update")), ("id", n(3)), (key, value)])
    };
    assert_same(&request(&["task", "focus", "3"]), &update("focus", Json::Bool(true)));
    assert_same(&request(&["task", "unfocus", "3"]), &update("focus", Json::Bool(false)));
    assert_same(&request(&["task", "waiting", "3"]), &update("waiting", Json::Bool(true)));
    assert_same(&request(&["task", "unwait", "3"]), &update("waiting", Json::Bool(false)));
    assert_same(
        &request(&["task", "rename", "3", "A", "new", "title"]),
        &update("title", t("A new title")),
    );
    assert_same(
        field(&request(&["task", "rename", "3", "Standup", "--scope", "future"]), "title_scope"),
        &t("future"),
    );
    assert!(refused(&["task", "rename", "3", "x", "--scope", "later"]).contains("not a scope"));
}

#[test]
fn several_tasks_move_in_one_request() {
    let by_space = request(&["task", "move", "3", "4", "5", "--to", "backlog"]);
    let by_comma = request(&["task", "move", "3,4,5", "--to", "backlog"]);
    assert_same(&by_space, &by_comma);
    assert_same(
        &by_space,
        &obj(vec![
            ("op", t("task.move")),
            ("ids", list(vec![n(3), n(4), n(5)])),
            ("place", backlog()),
        ]),
    );
    assert_same(field(&request(&["task", "close", "1", "2"]), "ids"), &list(vec![n(1), n(2)]));
    assert_same(field(&request(&["task", "delete", "9"]), "ids"), &list(vec![n(9)]));
}

#[test]
fn an_id_given_twice_is_refused() {
    assert_eq!(refused(&["task", "close", "3", "3"]), "3 is given twice");
    assert_eq!(refused(&["task", "close", "3,4,3"]), "3 is given twice");
}

#[test]
fn a_deletion_is_confirmed_only_where_it_was_asked_to_be() {
    assert!(get(&request(&["task", "delete", "9"]), "confirm").is_none());
    assert_same(field(&request(&["task", "delete", "9", "--yes"]), "confirm"), &Json::Bool(true));
    assert_same(field(&request(&["note", "delete", "4", "--yes"]), "confirm"), &Json::Bool(true));
}

#[test]
fn a_task_is_reordered_one_way_at_a_time() {
    assert_same(
        &request(&["task", "reorder", "3", "--position", "2"]),
        &obj(vec![("op", t("task.reorder")), ("id", n(3)), ("position", n(2))]),
    );
    assert_same(field(&request(&["task", "reorder", "3", "--top"]), "position"), &n(1));
    assert_same(field(&request(&["task", "reorder", "3", "--before", "7"]), "before"), &n(7));
    assert_same(field(&request(&["task", "reorder", "3", "--after", "7"]), "after"), &n(7));
    assert!(refused(&["task", "reorder", "3", "--top", "--after", "7"]).contains("use one"));
    assert!(refused(&["task", "reorder", "3"]).contains("--position"));
}

#[test]
fn a_whole_order_is_one_request_for_a_day_or_for_the_backlog() {
    assert_same(
        &request(&["day", "reorder", "2026-09-08", "--order", "3,1,2"]),
        &obj(vec![
            ("op", t("day.reorder")),
            ("place", day("2026-09-08")),
            ("ids", list(vec![n(3), n(1), n(2)])),
        ]),
    );
    assert_same(field(&request(&["day", "reorder", "--order", "3,1"]), "place"), &day("today"));
    assert_same(
        &request(&["backlog", "reorder", "--order", "9,8"]),
        &obj(vec![
            ("op", t("day.reorder")),
            ("place", backlog()),
            ("ids", list(vec![n(9), n(8)])),
        ]),
    );
    assert!(refused(&["day", "reorder", "--order", "3,3"]).contains("given twice"));
    assert!(refused(&["backlog", "reorder"]).contains("--order"));
}

// ---- schedules ------------------------------------------------------

#[test]
fn the_five_shapes_of_a_rule_are_written_shortly() {
    for (written, rule) in [
        ("workdays", obj(vec![("kind", t("workdays"))])),
        ("daily", obj(vec![("kind", t("daily"))])),
        ("weekly:mon,thu", obj(vec![("kind", t("weekly")), ("weekdays", list(vec![t("mon"), t("thu")]))])),
        ("monthly:15", obj(vec![("kind", t("monthly")), ("day", n(15))])),
        ("monthly:last", obj(vec![("kind", t("monthly")), ("day", t("last"))])),
        (
            "every:2w:2026-09-15",
            obj(vec![("kind", t("every_n_weeks")), ("n", n(2)), ("from", t("2026-09-15"))]),
        ),
    ] {
        assert_same(field(&request(&["schedule", "create", "4", written]), "rule"), &rule);
    }
}

#[test]
fn a_rule_nobody_can_read_names_the_ones_that_can_be() {
    let said = refused(&["schedule", "create", "4", "sometimes"]);
    assert!(said.contains("workdays"), "{said}");
    assert!(said.contains("every:2w:DATE"), "{said}");
    assert!(refused(&["schedule", "create", "4", "weekly:"]).contains("weekdays"));
    assert!(refused(&["schedule", "create", "4", "every:2w"]).contains("count from"));
}

#[test]
fn a_schedule_is_previewed_from_a_rule_or_from_itself_but_not_both() {
    assert_same(
        &request(&["schedule", "preview", "daily", "--count", "5"]),
        &obj(vec![
            ("op", t("schedule.preview")),
            ("rule", obj(vec![("kind", t("daily"))])),
            ("count", n(5)),
        ]),
    );
    assert_same(field(&request(&["schedule", "preview", "--schedule", "3"]), "schedule"), &n(3));
    assert!(refused(&["schedule", "preview", "daily", "--schedule", "3"]).contains("not both"));
}

#[test]
fn a_schedule_changes_its_rule_its_title_or_both() {
    assert_same(
        &request(&["schedule", "update", "3", "--rule", "daily", "--title", "Standup"]),
        &obj(vec![
            ("op", t("schedule.update")),
            ("id", n(3)),
            ("rule", obj(vec![("kind", t("daily"))])),
            ("title", t("Standup")),
        ]),
    );
}

// ---- notes ----------------------------------------------------------

#[test]
fn a_note_s_text_comes_from_one_place() {
    assert_same(
        &request(&["note", "create", "a thought"]),
        &obj(vec![("op", t("note.create")), ("body", t("a thought"))]),
    );
    assert_same(field(&request(&["note", "create"]), "body"), &t(""));
    assert!(refused(&["note", "create", "a thought", "--stdin"]).contains("one place"));
    assert!(refused(&["note", "update", "4"]).contains("--stdin"));
}

#[test]
fn text_that_must_be_read_is_left_for_somebody_who_can_read_it() {
    let reading = operation(&["note", "update", "4", "--stdin"]);
    assert!(matches!(reading.body, Some(Body { field: "body", source: Source::Stdin })));
    assert!(get(&reading.request, "body").is_none());

    let from_a_file = operation(&["note", "create", "--file", "/tmp/note.txt"]);
    match from_a_file.body {
        Some(Body { field: "body", source: Source::File(path) }) => assert_eq!(path, "/tmp/note.txt"),
        other => panic!("{other:?}"),
    }
}

#[test]
fn a_check_is_of_a_note_or_of_some_text() {
    assert_same(
        &request(&["note", "check", "4", "--suggestions"]),
        &obj(vec![("op", t("note.check")), ("note", n(4)), ("suggestions", Json::Bool(true))]),
    );
    assert_same(field(&request(&["note", "check", "--text", "teh cat"]), "text"), &t("teh cat"));
    assert_eq!(operation(&["note", "check", "--stdin"]).body.unwrap().field, "text");
    assert!(refused(&["note", "check", "4", "--text", "x"]).contains("not both"));
    assert!(refused(&["note", "check"]).contains("a note id"));
}

#[test]
fn copying_a_note_reads_it_and_then_reaches_the_clipboard() {
    let operation = operation(&["note", "copy", "4"]);
    assert_same(&operation.request, &obj(vec![("op", t("note.get")), ("id", n(4))]));
    assert_eq!(operation.after, Then::CopyNote);
    assert_eq!(operation.view, View::NoteCopy);
}

#[test]
fn a_note_is_archived_and_taken_out_of_spell_checking_by_id() {
    assert_same(
        &request(&["note", "archive", "4"]),
        &obj(vec![("op", t("note.archive")), ("id", n(4))]),
    );
    assert_same(
        &request(&["note", "unarchive", "4"]),
        &obj(vec![("op", t("note.unarchive")), ("id", n(4))]),
    );
    assert_same(
        &request(&["note", "spell-check", "4", "off"]),
        &obj(vec![("op", t("note.spell_check")), ("id", n(4)), ("check", Json::Bool(false))]),
    );
    assert_same(field(&request(&["note", "spell-check", "4", "on"]), "check"), &Json::Bool(true));
}

// ---- settings and the dictionary ------------------------------------

#[test]
fn a_setting_is_sent_as_the_shape_it_holds() {
    assert_same(
        field(
            &request(&[
                "settings",
                "set",
                "day_starts_at=6",
                "work_days=mon,tue",
                "window_size=900x700",
                "mouse=off",
                "date_style=day_first",
            ]),
            "settings",
        ),
        &obj(vec![
            ("day_starts_at", n(6)),
            ("work_days", list(vec![t("mon"), t("tue")])),
            ("window_size", obj(vec![("width", n(900)), ("height", n(700))])),
            ("mouse", Json::Bool(false)),
            ("date_style", t("day_first")),
        ]),
    );
    for written in ["true", "on", "yes", "1"] {
        let sent = request(&["settings", "set", &format!("mouse={written}")]);
        assert_same(field(field(&sent, "settings"), "mouse"), &Json::Bool(true));
    }
}

#[test]
fn a_setting_nobody_has_names_the_ones_there_are() {
    let said = refused(&["settings", "set", "colour=blue"]);
    assert!(said.contains("colour is not a setting"), "{said}");
    assert!(said.contains("day_starts_at"), "{said}");
    assert!(refused(&["settings", "set", "mouse"]).contains("not a KEY=VALUE"));
    assert!(refused(&["settings", "set", "mouse=maybe"]).contains("on or off"));
    assert!(refused(&["settings", "set", "day_starts_at=six"]).contains("whole number"));
    assert!(refused(&["settings", "set", "mouse=on", "mouse=off"]).contains("set twice"));
}

#[test]
fn a_dictionary_entry_is_found_by_the_word_it_was_written_as() {
    assert_same(
        &request(&["dictionary", "add", "Acme"]),
        &obj(vec![("op", t("dictionary.add")), ("word", t("Acme"))]),
    );
    assert_same(
        &request(&["dictionary", "update", "acme", "ACME"]),
        &obj(vec![("op", t("dictionary.update")), ("key", t("acme")), ("word", t("ACME"))]),
    );
    assert_same(
        &request(&["dictionary", "delete", "acme"]),
        &obj(vec![("op", t("dictionary.delete")), ("key", t("acme"))]),
    );
}

#[test]
fn undo_is_guarded_by_the_entry_it_was_told_about() {
    assert_same(&request(&["undo", "apply"]), &obj(vec![("op", t("undo.apply"))]));
    assert_same(field(&request(&["undo", "apply", "--entry", "42"]), "expected_id"), &n(42));
    assert!(refused(&["undo", "apply", "--entry", "0"]).contains("not an id"));
}

#[test]
fn a_body_is_read_from_a_file_or_from_standard_input() {
    assert!(matches!(operation(&["task", "add", "x", "--input", "-"]).input, Some(Source::Stdin)));
    match operation(&["task", "add", "x", "--input", "body.json"]).input {
        Some(Source::File(path)) => assert_eq!(path, "body.json"),
        other => panic!("{other:?}"),
    }
}

// ---- the desktop command --------------------------------------------

#[test]
fn the_desktop_command_carries_the_window_the_flags_asked_for() {
    assert!(matches!(
        read(&["desktop"]).unwrap().plan,
        Plan::Desktop { floating: None, size: None }
    ));
    assert!(matches!(
        read(&["desktop", "--tiled"]).unwrap().plan,
        Plan::Desktop { floating: Some(false), size: None }
    ));
    assert!(matches!(
        read(&["desktop", "--floating", "--size", "1000x700"]).unwrap().plan,
        Plan::Desktop { floating: Some(true), size: Some((1000, 700)) }
    ));
}

#[test]
fn a_floating_window_and_a_tiled_one_cannot_both_be_asked_for() {
    assert!(read(&["desktop", "--floating", "--tiled"]).is_err());
    assert!(read(&["desktop", "--tiled", "--tiled"]).is_ok());
}

#[test]
fn a_size_that_is_not_one_is_refused() {
    assert!(read(&["desktop", "--size", "roomy"]).is_err());
    assert!(read(&["desktop", "--size", "1000"]).is_err());
    assert!(read(&["desktop", "--size"]).is_err());
}

// ---- the help -------------------------------------------------------

#[test]
fn the_help_lists_every_command_the_program_takes() {
    let Plan::Help(text) = read(&["--help"]).unwrap().plan else {
        panic!("not help")
    };
    for spec in all_commands() {
        assert!(text.contains(spec.name), "{} is not in the help", spec.name);
    }
    assert!(text.contains("--skill"), "the help should say --skill is there");
    assert!(text.contains("--input"));
    assert!(text.contains("--data-dir"));
}

#[test]
fn every_command_s_help_says_the_operation_it_sends() {
    for spec in all_commands() {
        let words: Vec<&str> = spec.name.split(' ').chain(["--help"]).collect();
        let Plan::Help(text) = read(&words).unwrap().plan else {
            panic!("{} has no help", spec.name)
        };
        assert!(text.contains(spec.usage), "{} has no usage line", spec.name);
        if !spec.op.is_empty() {
            assert!(text.contains(spec.op), "{} does not name its op", spec.name);
        }
    }
}

// ---- failures -------------------------------------------------------

#[test]
fn a_command_line_that_cannot_be_read_leaves_with_the_usage_status() {
    let failure = read(&["fly"]).unwrap_err();
    assert_eq!(failure.code, "usage");
    assert_eq!(failure.exit_code, 2);
    let failure = Failure::runtime("desktop_error", "no window manager".to_owned());
    assert_eq!(failure.code, "desktop_error");
    assert_eq!(failure.message, "no window manager");
    assert_eq!(failure.exit_code, 1);
}
