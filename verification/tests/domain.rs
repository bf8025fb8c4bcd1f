use jobsdone::domain::command::{apply, apply_many, undo, Command, Context, Undone};
use jobsdone::domain::model::{
    Change, FromPlace, Id, Model, Place, Task, UndoEntry, Write, REVIEW_BEFORE, REVIEW_ON,
};
use jobsdone::domain::dictionary::{add_dictionary_word, edit_dictionary_word, remove_dictionary_word};
use jobsdone::domain::settings::change_settings;
use jobsdone::domain::system::{generate_copies, start_review};
use jobsdone::domain::view::{
    backlog_view, day_view, pile, pile_again, previous_review, search, surfaced, surfaced_again, BacklogView,
    DayCounts, DayView, Pile, Row, Surfaced,
};
use jobsdone::domain::WorkDays;
use jobsdone::domain::rule::{Rule, Weekday};
use jobsdone::domain::time::{Date, Stamp};
use jobsdone::domain::DateOrder;
use jobsdone::domain::{Rejected, Settings};

/// The length the application holds the undo stack to. The domain does
/// not choose the number; a test has to pick one.
const UNDO_CAP: usize = 50;

/// A local time at a fixed offset, so that no test depends on the zone
/// of the machine it runs on.
fn at(text: &str) -> Stamp {
    let civil: jiff::civil::DateTime = text.parse().expect("a civil time");
    let zoned = civil
        .to_zoned(jiff::tz::TimeZone::fixed(jiff::tz::offset(2)))
        .expect("a zoned time");
    Stamp::of(zoned)
}

fn on(text: &str) -> Date {
    let parts: Vec<&str> = text.split('-').collect();
    Date {
        year: parts[0].parse().expect("a year"),
        month: parts[1].parse().expect("a month"),
        day: parts[2].parse().expect("a day"),
    }
}

fn day(date: &str) -> Place {
    Place::Day(on(date))
}

/// A clock and the model the application holds, each command committed
/// into it the way the application commits it.
struct World {
    model: Model,
    now: Stamp,
}

impl World {
    fn at(now: &str) -> World {
        World { model: Model::empty(), now: at(now) }
    }

    fn clock(&mut self, now: &str) {
        self.now = at(now);
    }

    fn ctx(&self) -> Context {
        Context { now: self.now.copy(), undo_cap: UNDO_CAP, dates: DateOrder::DayFirst }
    }

    fn commit(&mut self, change: &Change) {
        self.model.apply(change);
    }

    fn run(&mut self, command: Command) -> Result<(), Rejected> {
        let change = apply(&self.model, command, &self.ctx())?;
        self.commit(&change);
        Ok(())
    }

    fn must(&mut self, command: Command) {
        let shown = format!("{command:?}");
        if let Err(Rejected(why)) = self.run(command) {
            panic!("{shown} was refused: {why}");
        }
    }

    fn refuse(&mut self, command: Command) -> String {
        let shown = format!("{command:?}");
        match self.run(command) {
            Ok(()) => panic!("{shown} was allowed"),
            Err(Rejected(why)) => why,
        }
    }

    fn run_many(&mut self, commands: Vec<Command>) -> Result<(), Rejected> {
        let change = apply_many(&self.model, commands, &self.ctx())?;
        self.commit(&change);
        Ok(())
    }

    fn must_many(&mut self, commands: Vec<Command>) {
        let shown = format!("{commands:?}");
        if let Err(Rejected(why)) = self.run_many(commands) {
            panic!("{shown} was refused: {why}");
        }
    }

    fn refuse_many(&mut self, commands: Vec<Command>) -> String {
        let shown = format!("{commands:?}");
        match self.run_many(commands) {
            Ok(()) => panic!("{shown} was allowed"),
            Err(Rejected(why)) => why,
        }
    }

    fn undo(&mut self) -> Undone {
        let undone = undo(&self.model, &self.ctx()).expect("something to undo");
        self.commit(&undone.change);
        undone
    }

    fn add(&mut self, title: &str, place: Place) -> Id {
        self.must(Command::AddTask { title: title.to_owned(), place });
        self.id(title.trim())
    }

    /// The newest live task with a title, which is how a test names one.
    fn id(&self, title: &str) -> Id {
        self.model
            .tasks
            .values()
            .filter(|task| task.is_live() && task.title == title)
            .map(|task| task.id)
            .next_back()
            .unwrap_or_else(|| panic!("no live task called {title:?}"))
    }

    fn task(&self, id: Id) -> &Task {
        self.model.task(id).expect("a task")
    }

    fn today(&self) -> Date {
        self.model.settings.working_day(&self.now)
    }

    fn generate(&mut self) {
        let change = generate_copies(&self.model, &self.now);
        self.commit(&change);
    }

    fn start_review(&mut self) -> bool {
        match start_review(&self.model, self.today()) {
            Some(change) => {
                self.commit(&change);
                true
            }
            None => false,
        }
    }

    /// One setting moved, committed the way the application commits it.
    fn set(&mut self, change: impl FnOnce(&mut Settings)) {
        let mut settings = self.model.settings.clone();
        change(&mut settings);
        self.commit(&Change { writes: vec![Write::PutSettings(settings)] });
    }

    fn day(&self, date: &str) -> DayView {
        day_view(&self.model, on(date), self.today())
    }

    fn backlog(&self) -> BacklogView {
        backlog_view(&self.model, self.today())
    }

    fn pile(&self) -> Pile {
        pile(&self.model, self.today())
    }

    fn surfaced(&self) -> Surfaced {
        surfaced(&self.model, self.today())
    }

    fn pile_again(&self, opened: &Pile) -> Pile {
        pile_again(&self.model, self.today(), opened)
    }

    fn surfaced_again(&self, opened: &Surfaced) -> Surfaced {
        surfaced_again(&self.model, self.today(), opened)
    }

    fn planned(&self, date: &str) -> usize {
        self.day(date).counts.planned
    }

    fn pile_total(&self) -> usize {
        self.pile().total
    }

    /// The open tasks of a day that are not in focus.
    fn plan(&self, date: &str) -> Vec<String> {
        titles(&self.day(date).plan)
    }

    fn focus(&self, date: &str) -> Vec<String> {
        titles(&self.day(date).focus)
    }

    /// The closed tasks of a day, in the order they were closed.
    fn done(&self, date: &str) -> Vec<String> {
        titles(&self.day(date).done)
    }

    fn ordinary(&self) -> Vec<String> {
        titles(&self.backlog().ordinary)
    }

    fn waiting(&self) -> Vec<String> {
        titles(&self.backlog().waiting)
    }

    /// A word put in the personal dictionary, committed.
    fn learn(&mut self, word: &str) {
        let change = add_dictionary_word(&self.model, word).expect("the word");
        self.commit(&change);
    }

    fn word(&self, key: &str) -> Option<String> {
        self.model.personal_dictionary.iter().find(|(k, _)| k == key).map(|(_, word)| word.clone())
    }

    fn words(&self) -> Vec<(String, String)> {
        let mut words = self.model.personal_dictionary.clone();
        words.sort();
        words
    }

    fn newest_note(&self) -> Id {
        self.model.notes.keys().copied().next_back().expect("a note")
    }

    fn last_label(&self) -> String {
        self.model.undo.last().expect("an entry").label.clone()
    }
}

fn titles(rows: &[Row]) -> Vec<String> {
    rows.iter().map(|row| row.title.clone()).collect()
}

/// The model as every view sees it: the rows a delete leaves behind are
/// invisible either way, so undo restores this.
fn visible(model: &Model) -> String {
    let gone: Vec<Id> = model.tasks.values().filter(|task| !task.is_live()).map(|task| task.id).collect();
    let tasks: Vec<&Task> = model.tasks.values().filter(|task| task.is_live()).collect();
    let placements: Vec<String> = model
        .placements
        .values()
        .filter(|placement| !gone.contains(&placement.task_id))
        .map(|placement| format!("{placement:?}"))
        .collect();
    let notes: Vec<String> =
        model.notes.values().filter(|note| note.is_live()).map(|note| format!("{note:?}")).collect();
    format!(
        "{tasks:?}\n{placements:?}\n{:?}\n{notes:?}\n{:?}\n{:?}\n{:?}\n{:?}",
        model.schedules, model.undo, model.meta, model.settings, model.personal_dictionary
    )
}

fn whole(model: &Model) -> String {
    format!("{model:?}")
}

// ---- tasks -----------------------------------------------------------

#[test]
fn a_task_is_a_title_and_where_it_lives() {
    let mut world = World::at("2026-09-07T09:00:00");
    let planned = world.add("Reply to the tender questions", day("2026-09-07"));
    let parked = world.add("Clean out the garage", Place::Backlog);

    assert_eq!(world.task(planned).day, Some(on("2026-09-07")));
    assert_eq!(world.task(parked).day, None);
    assert!(world.task(planned).is_open());
    assert!(!world.task(planned).focus);
}

#[test]
fn a_title_is_trimmed_and_one_line() {
    let mut world = World::at("2026-09-07T09:00:00");
    let id = world.add("   Book dentist  ", Place::Backlog);
    assert_eq!(world.task(id).title, "Book dentist");

    assert_eq!(
        world.refuse(Command::AddTask { title: "   ".to_owned(), place: Place::Backlog }),
        "A task needs a title."
    );
    assert_eq!(
        world.refuse(Command::AddTask { title: "two\nlines".to_owned(), place: Place::Backlog }),
        "A title is one line."
    );
}

#[test]
fn a_task_lives_in_exactly_one_place_and_moves_freely() {
    let mut world = World::at("2026-09-07T09:00:00");
    let id = world.add("Clean out the garage", Place::Backlog);

    world.must(Command::Move { task: id, place: day("2026-09-07") });
    assert_eq!(world.task(id).day, Some(on("2026-09-07")));
    assert!(world.ordinary().is_empty());

    world.must(Command::Move { task: id, place: Place::Backlog });
    assert_eq!(world.task(id).day, None);
    assert_eq!(world.focus("2026-09-07"), Vec::<String>::new());
    assert_eq!(world.ordinary(), ["Clean out the garage"]);

    assert_eq!(
        world.refuse(Command::Move { task: id, place: Place::Backlog }),
        "The task is already there."
    );
}

#[test]
fn a_closed_task_stays_where_it_was_done() {
    let mut world = World::at("2026-09-07T09:00:00");
    let id = world.add("Pay the electricity bill", day("2026-09-07"));
    world.must(Command::Close { task: id });

    assert_eq!(
        world.refuse(Command::Move { task: id, place: Place::Backlog }),
        "A closed task stays where it was done."
    );
}

#[test]
fn closing_a_backlog_task_puts_it_on_today_first() {
    let mut world = World::at("2026-09-07T09:00:00");
    let id = world.add("Chase the hosting invoice", Place::Backlog);

    world.must(Command::Close { task: id });

    assert_eq!(world.task(id).day, Some(on("2026-09-07")));
    assert_eq!(world.done("2026-09-07"), ["Chase the hosting invoice"]);
    assert!(world.model.placement(id, on("2026-09-07")).is_some());
}

#[test]
fn focus_is_a_flag_on_a_day_with_no_cap() {
    let mut world = World::at("2026-09-07T09:00:00");
    let first = world.add("Ship invoice export", day("2026-09-07"));
    let second = world.add("Reply to the tender questions", day("2026-09-07"));
    world.add("Review Anna's PR", day("2026-09-07"));

    world.must(Command::SetFocus { task: first, focus: true });
    world.must(Command::SetFocus { task: second, focus: true });

    assert_eq!(world.focus("2026-09-07"), ["Ship invoice export", "Reply to the tender questions"]);
    assert_eq!(world.plan("2026-09-07"), ["Review Anna's PR"]);

    let parked = world.add("Clean out the garage", Place::Backlog);
    assert_eq!(
        world.refuse(Command::SetFocus { task: parked, focus: true }),
        "Focus is for tasks on a day."
    );
}

#[test]
fn closing_keeps_the_focus_flag_and_reopening_returns_the_task_to_focus() {
    let mut world = World::at("2026-09-07T09:00:00");
    let id = world.add("Reply to the tender questions", day("2026-09-07"));
    world.must(Command::SetFocus { task: id, focus: true });

    world.must(Command::Close { task: id });
    let closed = world.day("2026-09-07");
    assert!(closed.focus.is_empty());
    assert!(closed.done[0].was_focus);

    world.must(Command::Reopen { task: id });
    assert_eq!(world.focus("2026-09-07"), ["Reply to the tender questions"]);
}

// ---- places and order ------------------------------------------------

#[test]
fn a_task_arriving_in_a_place_goes_to_the_end() {
    let mut world = World::at("2026-09-07T09:00:00");
    world.add("First", day("2026-09-07"));
    world.add("Second", day("2026-09-07"));
    let moved = world.add("Third", Place::Backlog);

    world.must(Command::Move { task: moved, place: day("2026-09-07") });

    assert_eq!(world.plan("2026-09-07"), ["First", "Second", "Third"]);
    assert_eq!(world.task(moved).position, 2);
}

#[test]
fn the_order_of_a_day_is_manual_and_remembered() {
    let mut world = World::at("2026-09-07T09:00:00");
    world.add("First", day("2026-09-07"));
    let second = world.add("Second", day("2026-09-07"));
    world.add("Third", day("2026-09-07"));

    world.must(Command::Reorder { task: second, position: 0 });
    assert_eq!(world.plan("2026-09-07"), ["Second", "First", "Third"]);

    world.must(Command::Reorder { task: second, position: 2 });
    assert_eq!(world.plan("2026-09-07"), ["First", "Third", "Second"]);
}

#[test]
fn a_reorder_past_the_end_is_clamped_to_it() {
    let mut world = World::at("2026-09-07T09:00:00");
    let first = world.add("First", day("2026-09-07"));
    world.add("Second", day("2026-09-07"));

    world.must(Command::Reorder { task: first, position: 99 });

    assert_eq!(world.plan("2026-09-07"), ["Second", "First"]);
}

#[test]
fn delete_and_move_leave_the_place_they_left_dense() {
    let mut world = World::at("2026-09-07T09:00:00");
    let first = world.add("First", day("2026-09-07"));
    let second = world.add("Second", day("2026-09-07"));
    let third = world.add("Third", day("2026-09-07"));

    world.must(Command::DeleteTask { task: first });
    assert_eq!(world.task(second).position, 0);
    assert_eq!(world.task(third).position, 1);

    world.must(Command::Move { task: second, place: Place::Backlog });
    assert_eq!(world.task(third).position, 0);
    assert_eq!(world.task(second).position, 0);
}

#[test]
fn a_closed_task_keeps_its_position_and_reopening_sends_it_to_the_end() {
    let mut world = World::at("2026-09-07T09:00:00");
    let first = world.add("First", day("2026-09-07"));
    world.add("Second", day("2026-09-07"));
    world.add("Third", day("2026-09-07"));

    world.must(Command::Close { task: first });
    assert_eq!(world.task(first).position, 0);

    world.must(Command::Reopen { task: first });
    assert_eq!(world.task(first).position, 2);
    assert_eq!(world.plan("2026-09-07"), ["Second", "Third", "First"]);
}

#[test]
fn positions_are_one_sequence_whatever_the_groups_a_screen_draws() {
    let mut world = World::at("2026-09-07T09:00:00");
    let first = world.add("First", day("2026-09-07"));
    let second = world.add("Second", day("2026-09-07"));
    let third = world.add("Third", day("2026-09-07"));

    world.must(Command::SetFocus { task: second, focus: true });
    world.must(Command::Close { task: third });

    let positions: Vec<usize> = [first, second, third].iter().map(|id| world.task(*id).position).collect();
    assert_eq!(positions, [0, 1, 2]);
}

#[test]
fn closed_tasks_drop_to_done_in_the_order_they_were_closed() {
    let mut world = World::at("2026-09-07T09:00:00");
    let first = world.add("First", day("2026-09-07"));
    let second = world.add("Second", day("2026-09-07"));

    world.clock("2026-09-07T11:00:00");
    world.must(Command::Close { task: second });
    world.clock("2026-09-07T12:00:00");
    world.must(Command::Close { task: first });

    assert_eq!(world.done("2026-09-07"), ["Second", "First"]);
}

// ---- placements ------------------------------------------------------

#[test]
fn a_placement_is_written_once_and_keeps_the_first_arrival() {
    let mut world = World::at("2026-09-07T09:00:00");
    let id = world.add("Fix the flaky migration test", Place::Backlog);

    world.must(Command::Move { task: id, place: day("2026-09-07") });
    let first = world.model.placement(id, on("2026-09-07")).expect("a placement").clone();
    assert_eq!(first.from_place, FromPlace::Backlog);

    world.clock("2026-09-07T10:00:00");
    world.must(Command::Move { task: id, place: day("2026-09-08") });
    world.must(Command::Move { task: id, place: day("2026-09-07") });

    let now = world.model.placement(id, on("2026-09-07")).expect("a placement");
    assert_eq!(format!("{now:?}"), format!("{first:?}"));
}

#[test]
fn the_backlog_has_no_placements() {
    let mut world = World::at("2026-09-07T09:00:00");
    let id = world.add("Clean out the garage", Place::Backlog);
    assert!(world.model.placements.is_empty());

    world.must(Command::Move { task: id, place: day("2026-09-07") });
    world.must(Command::Move { task: id, place: Place::Backlog });

    // The day it left keeps its row; the backlog writes none.
    assert_eq!(world.model.placements.len(), 1);
    assert_eq!(titles(&world.day("2026-09-07").moved), ["Clean out the garage"]);
}

// ---- waiting ---------------------------------------------------------

#[test]
fn flagging_a_task_on_a_day_sends_it_to_the_backlog_as_waiting() {
    let mut world = World::at("2026-09-07T09:00:00");
    world.add("Ship invoice export", day("2026-09-07"));
    let id = world.add("Feedback on the proposal", day("2026-09-07"));

    world.must(Command::SetWaiting { task: id, waiting: true });

    assert_eq!(world.task(id).day, None);
    assert!(world.task(id).waiting);
    assert_eq!(world.waiting(), ["Feedback on the proposal"]);
    // A move like any other: the day keeps its pointer.
    assert_eq!(titles(&world.day("2026-09-07").moved), ["Feedback on the proposal"]);

    // One command, one undo entry.
    assert_eq!(world.model.undo.len(), 3);
    world.undo();
    assert_eq!(world.task(id).day, Some(on("2026-09-07")));
    assert!(!world.task(id).waiting);
    assert!(world.day("2026-09-07").moved.is_empty());
}

#[test]
fn pulling_a_waiting_task_onto_a_day_clears_the_flag() {
    let mut world = World::at("2026-09-07T09:00:00");
    let id = world.add("Parcel from the supplier", Place::Backlog);
    world.must(Command::SetWaiting { task: id, waiting: true });

    world.must(Command::Move { task: id, place: day("2026-09-07") });

    assert!(!world.task(id).waiting);
}

#[test]
fn clearing_waiting_in_place_leaves_the_task_in_the_backlog() {
    let mut world = World::at("2026-09-07T09:00:00");
    let id = world.add("Parcel from the supplier", Place::Backlog);
    world.must(Command::SetWaiting { task: id, waiting: true });

    world.must(Command::SetWaiting { task: id, waiting: false });

    assert!(!world.task(id).waiting);
    assert_eq!(world.task(id).day, None);
    assert_eq!(world.ordinary(), ["Parcel from the supplier"]);
}

// ---- schedules -------------------------------------------------------

#[test]
fn a_schedule_takes_its_title_from_the_task_and_links_it_as_the_first_copy() {
    let mut world = World::at("2026-09-07T09:00:00");
    let id = world.add("Write standup notes", day("2026-09-07"));

    world.must(Command::CreateSchedule { task: id, rule: Rule::Workdays });

    let task = world.task(id).clone();
    let schedule = world.model.schedule(task.schedule_id.expect("a schedule")).expect("the schedule");
    assert_eq!(schedule.title, "Write standup notes");
    assert_eq!(schedule.generated_through, on("2026-09-07"));
    assert_eq!(task.scheduled_on, Some(on("2026-09-07")));
    assert_eq!(task.day, Some(on("2026-09-07")));

    assert_eq!(
        world.refuse(Command::CreateSchedule { task: id, rule: Rule::Daily }),
        "That task already repeats."
    );
}

#[test]
fn a_schedule_created_on_a_backlog_task_starts_from_today() {
    let mut world = World::at("2026-09-07T09:00:00");
    let id = world.add("Sort photo backups", Place::Backlog);
    world.must(Command::CreateSchedule { task: id, rule: Rule::Daily });

    assert_eq!(world.task(id).scheduled_on, Some(on("2026-09-07")));
    assert_eq!(world.task(id).day, None);
}

#[test]
fn a_title_edit_for_future_copies_needs_a_copy() {
    let mut world = World::at("2026-09-07T09:00:00");
    let id = world.add("Clean out the garage", Place::Backlog);

    assert_eq!(
        world.refuse(Command::EditTitleAndFuture {
            task: id,
            title: "Tidy the garage".to_owned(),
            schedule_title: "Tidy the garage".to_owned(),
        }),
        "That task is not a recurring copy."
    );
}

#[test]
fn a_repeat_that_never_comes_round_is_refused() {
    let mut world = World::at("2026-09-07T09:00:00");
    let id = world.add("Write standup notes", day("2026-09-07"));

    assert_eq!(
        world.refuse(Command::CreateSchedule { task: id, rule: Rule::Weekly { weekdays: vec![] } }),
        "That repeat never comes round."
    );
}

#[test]
fn a_stopped_schedule_cannot_be_stopped_again() {
    let mut world = World::at("2026-09-07T09:00:00");
    let id = world.add("Write standup notes", day("2026-09-07"));
    world.must(Command::CreateSchedule { task: id, rule: Rule::Daily });
    let schedule = world.task(id).schedule_id.expect("a schedule");

    world.clock("2026-09-08T09:00:00");
    world.must(Command::StopSchedule { schedule });

    assert_eq!(world.model.schedule(schedule).and_then(|it| it.stopped_on), Some(on("2026-09-08")));
    assert_eq!(world.refuse(Command::StopSchedule { schedule }), "That repeat has stopped.");
}

#[test]
fn a_new_rule_replaces_the_old_one_on_the_schedule() {
    let mut world = World::at("2026-09-07T09:00:00");
    let id = world.add("Write standup notes", day("2026-09-07"));
    world.must(Command::CreateSchedule { task: id, rule: Rule::Daily });
    let schedule = world.task(id).schedule_id.expect("a schedule");

    world.must(Command::SetRule { schedule, rule: Rule::Weekly { weekdays: vec![Weekday::Fri] } });

    let rule = &world.model.schedule(schedule).expect("the schedule").rule;
    assert!(matches!(rule, Rule::Weekly { weekdays } if weekdays == &vec![Weekday::Fri]));
}

// ---- undo ------------------------------------------------------------

/// Every user command, and the model it must leave behind when undone.
#[test]
fn every_command_has_an_inverse_that_puts_the_model_back() {
    let mut world = World::at("2026-09-07T09:00:00");
    let planned = world.add("Ship invoice export", day("2026-09-07"));
    let parked = world.add("Clean out the garage", Place::Backlog);
    world.add("Sort photo backups", Place::Backlog);
    world.must(Command::CreateSchedule { task: planned, rule: Rule::Daily });
    let schedule = world.task(planned).schedule_id.expect("a schedule");
    world.must(Command::CreateNote);
    let note = world.newest_note();

    let commands = [
        Command::AddTask { title: "A new one".to_owned(), place: day("2026-09-07") },
        Command::EditTitle { task: parked, title: "Tidy the garage".to_owned() },
        Command::EditTitleAndFuture {
            task: planned,
            title: "Ship it".to_owned(),
            schedule_title: "Ship it".to_owned(),
        },
        Command::Close { task: planned },
        Command::Close { task: parked },
        Command::SetFocus { task: planned, focus: true },
        Command::Move { task: parked, place: day("2026-09-08") },
        Command::Move { task: planned, place: Place::Backlog },
        Command::Reorder { task: parked, position: 0 },
        Command::SetWaiting { task: parked, waiting: true },
        Command::SetWaiting { task: planned, waiting: true },
        Command::SetDue { task: parked, date: Some(on("2026-09-12")) },
        Command::SetRemind { task: parked, date: Some(on("2026-09-12")) },
        Command::DeleteTask { task: parked },
        Command::CreateSchedule { task: parked, rule: Rule::Workdays },
        Command::SetRule { schedule, rule: Rule::Workdays },
        Command::StopSchedule { schedule },
        Command::CreateNote,
        Command::DeleteNote { note },
    ];

    for command in commands {
        let shown = format!("{command:?}");
        let before = whole(&world.model);
        let before_visible = visible(&world.model);
        world.must(command);
        assert_ne!(whole(&world.model), before, "{shown} changed nothing");

        let undone = world.undo();
        assert_eq!(undone.dropped, None, "{shown} could not be undone");
        assert_eq!(visible(&world.model), before_visible, "{shown} was not put back");
    }
}

/// The cursor goes to the task an undo was about, so `undo` has to name
/// it. A command about a note names none.
#[test]
fn undo_names_the_task_the_inverse_was_about() {
    let mut world = World::at("2026-09-07T09:00:00");
    let id = world.add("Book the venue", day("2026-09-07"));

    world.must(Command::Close { task: id });
    assert_eq!(world.undo().task, Some(id));

    world.must(Command::DeleteTask { task: id });
    assert_eq!(world.undo().task, Some(id));

    world.must(Command::CreateNote);
    assert_eq!(world.undo().task, None);
}

#[test]
fn undoing_a_move_drops_only_the_placement_the_move_wrote() {
    let mut world = World::at("2026-09-07T09:00:00");
    let id = world.add("Book the venue", day("2026-09-07"));

    world.must(Command::Move { task: id, place: day("2026-09-08") });
    assert!(world.model.placement(id, on("2026-09-08")).is_some());

    world.undo();
    assert!(world.model.placement(id, on("2026-09-08")).is_none());
    assert!(world.model.placement(id, on("2026-09-07")).is_some());
}

#[test]
fn undoing_a_move_back_to_a_day_leaves_the_first_arrivals_row() {
    let mut world = World::at("2026-09-07T09:00:00");
    let id = world.add("Book the venue", day("2026-09-07"));
    world.must(Command::Move { task: id, place: Place::Backlog });
    world.must(Command::Move { task: id, place: day("2026-09-07") });

    world.undo();

    assert_eq!(world.task(id).day, None);
    assert!(world.model.placement(id, on("2026-09-07")).is_some());
}

#[test]
fn an_inverse_whose_precondition_no_longer_holds_is_dropped() {
    let mut world = World::at("2026-09-07T09:00:00");
    let id = world.add("Book the venue", day("2026-09-07"));

    // An entry another window wrote, for a task that has since gone.
    world.commit(&Change {
        writes: vec![Write::PushUndo(UndoEntry {
            id: 99,
            at: world.now.copy(),
            label: "Closed \"Chase the hosting invoice\"".to_owned(),
            inverse: Command::MoveBack {
                task: 404,
                place: day("2026-09-07"),
                position: 0,
                waiting: false,
                drop_placement: None,
            },
        })],
    });

    let undone = world.undo();

    assert_eq!(undone.dropped, Some(Rejected("That task is gone.".to_owned())));
    assert_eq!(undone.label, "Closed \"Chase the hosting invoice\"");
    assert!(world.model.undo.iter().all(|entry| entry.id != 99));
    assert!(world.task(id).is_live());
}

#[test]
fn there_is_nothing_to_undo_on_an_empty_stack() {
    let world = World::at("2026-09-07T09:00:00");
    let refused = undo(&world.model, &world.ctx());
    assert!(matches!(refused, Err(Rejected(why)) if why == "There is nothing to undo."));
}

#[test]
fn the_undo_stack_is_capped_at_the_length_the_application_passes_in() {
    let mut world = World::at("2026-09-07T09:00:00");
    for index in 0..4 {
        let ctx = Context { undo_cap: 2, ..world.ctx() };
        let change = apply(
            &world.model,
            Command::AddTask { title: format!("Task {index}"), place: Place::Backlog },
            &ctx,
        )
        .expect("an add");
        world.commit(&change);
    }

    let labels: Vec<&str> = world.model.undo.iter().map(|entry| entry.label.as_str()).collect();
    assert_eq!(labels, ["Added \"Task 2\"", "Added \"Task 3\""]);
}

#[test]
fn undo_itself_pushes_nothing_and_there_is_no_redo() {
    let mut world = World::at("2026-09-07T09:00:00");
    world.add("Book dentist", Place::Backlog);
    assert_eq!(world.model.undo.len(), 1);

    world.undo();

    assert!(world.model.undo.is_empty());
}

#[test]
fn a_note_body_edit_pushes_nothing() {
    let mut world = World::at("2026-09-07T09:00:00");
    world.must(Command::CreateNote);
    let note = world.newest_note();
    let entries = world.model.undo.len();

    world.must(Command::EditNote { note, body: "remember to mention X".to_owned() });

    assert_eq!(world.model.undo.len(), entries);
    assert_eq!(world.model.note(note).expect("the note").body, "remember to mention X");
}

#[test]
fn a_label_quotes_a_long_title_only_as_far_as_the_hint_bar_reads() {
    let mut world = World::at("2026-09-07T09:00:00");
    let title = "Review the complete kitchen renovation estimate and send questions";
    world.add(title, Place::Backlog);

    assert_eq!(world.last_label(), "Added \"Review the complete kitchen renovation e…\"");
}

#[test]
fn the_undo_label_names_the_task_and_where_it_went() {
    let mut world = World::at("2026-09-07T09:00:00");
    let id = world.add("Book dentist", Place::Backlog);

    assert_eq!(world.last_label(), "Added \"Book dentist\"");

    world.must(Command::Move { task: id, place: day("2026-09-07") });
    assert_eq!(world.last_label(), "Moved \"Book dentist\" to today");

    world.must(Command::Move { task: id, place: day("2026-09-14") });
    assert_eq!(world.last_label(), "Moved \"Book dentist\" to Mon 14 Sep");

    world.must(Command::Move { task: id, place: Place::Backlog });
    assert_eq!(world.last_label(), "Moved \"Book dentist\" to the backlog");

    world.must(Command::DeleteTask { task: id });
    assert_eq!(world.last_label(), "Deleted \"Book dentist\"");
}

// ---- one operation, several commands ---------------------------------

#[test]
fn an_operation_of_several_commands_earns_one_entry() {
    let mut world = World::at("2026-09-07T09:00:00");
    let id = world.add("Book the venue", day("2026-09-07"));
    let entries = world.model.undo.len();

    world.must_many(vec![
        Command::EditTitle { task: id, title: "Book the hall".to_owned() },
        Command::SetDue { task: id, date: Some(on("2026-09-11")) },
        Command::SetFocus { task: id, focus: true },
    ]);

    assert_eq!(world.model.undo.len(), entries + 1);
    assert_eq!(
        world.model.undo.last().map(|entry| entry.label.as_str()),
        Some("Renamed \"Book the hall\" and 2 more changes")
    );
}

#[test]
fn one_undo_takes_the_whole_operation_back() {
    let mut world = World::at("2026-09-07T09:00:00");
    let id = world.add("Book the venue", day("2026-09-07"));
    let before = visible(&world.model);

    world.must_many(vec![
        Command::EditTitle { task: id, title: "Book the hall".to_owned() },
        Command::SetDue { task: id, date: Some(on("2026-09-11")) },
        Command::SetFocus { task: id, focus: true },
    ]);
    world.undo();

    assert_eq!(visible(&world.model), before);
}

#[test]
fn an_operation_that_cannot_finish_writes_none_of_itself() {
    let mut world = World::at("2026-09-07T09:00:00");
    let id = world.add("Book the venue", day("2026-09-07"));
    let before = whole(&world.model);

    let why = world.refuse_many(vec![
        Command::EditTitle { task: id, title: "Book the hall".to_owned() },
        Command::SetFocus { task: 404, focus: true },
    ]);

    assert_eq!(why, "That task is gone.");
    assert_eq!(whole(&world.model), before, "not even the command that held");
}

/// The inverses run in the reverse of the order their commands did.
#[test]
fn the_inverses_of_an_operation_undo_in_the_order_that_takes_it_back() {
    let mut world = World::at("2026-09-07T09:00:00");
    let id = world.add("Book the venue", Place::Backlog);
    world.add("Chase the invoice", Place::Backlog);
    world.add("Draft the notes", Place::Backlog);
    world.add("Stand up", day("2026-09-07"));
    world.add("Write the post", day("2026-09-07"));

    world.must_many(vec![
        Command::Move { task: id, place: day("2026-09-07") },
        Command::Reorder { task: id, position: 0 },
    ]);
    assert_eq!(world.plan("2026-09-07"), ["Book the venue", "Stand up", "Write the post"]);

    world.undo();

    assert_eq!(world.ordinary(), ["Book the venue", "Chase the invoice", "Draft the notes"]);
}

/// Half an operation taken back is worse than none of it.
#[test]
fn an_operation_whose_inverse_no_longer_holds_is_dropped_whole() {
    let mut world = World::at("2026-09-07T09:00:00");
    let venue = world.add("Book the venue", day("2026-09-07"));
    let invoice = world.add("Chase the invoice", day("2026-09-07"));

    world.must_many(vec![
        Command::SetFocus { task: invoice, focus: true },
        Command::SetDue { task: venue, date: Some(on("2026-09-11")) },
    ]);

    // Another window took the invoice away.
    let mut gone = world.task(invoice).clone();
    gone.deleted_at = Some(world.now.copy());
    world.commit(&Change { writes: vec![Write::PutTask(gone)] });

    let undone = world.undo();

    assert_eq!(undone.dropped, Some(Rejected("That task is gone.".to_owned())));
    assert_eq!(
        world.task(venue).due_on,
        Some(on("2026-09-11")),
        "the half that could have been taken back was not"
    );
}

#[test]
fn an_operation_of_one_command_is_that_command() {
    let mut world = World::at("2026-09-07T09:00:00");
    let id = world.add("Book the venue", day("2026-09-07"));
    let command = Command::SetDue { task: id, date: Some(on("2026-09-11")) };

    let many = apply_many(&world.model, vec![command.copy()], &world.ctx());
    let one = apply(&world.model, command, &world.ctx());
    assert_eq!(format!("{many:?}"), format!("{one:?}"));
}

#[test]
fn a_change_the_domain_makes_for_itself_is_not_one_anything_may_ask_for() {
    let mut world = World::at("2026-09-07T09:00:00");
    let id = world.add("Book the venue", day("2026-09-07"));

    let why = world.refuse(Command::RestoreTask { task: id, position: 0 });
    assert_eq!(why, "That is not a change anything may ask for.");

    let why = world.refuse_many(vec![Command::Sequence(vec![Command::DeleteTask { task: id }])]);
    assert_eq!(why, "That is not a change anything may ask for.");
}

#[test]
fn a_repeat_is_renamed_without_a_copy_of_it_to_start_from() {
    let mut world = World::at("2026-09-07T09:00:00");
    let id = world.add("Write standup notes", day("2026-09-07"));
    world.must(Command::CreateSchedule { task: id, rule: Rule::Daily });
    let schedule = world.task(id).schedule_id.expect("the schedule");
    world.must(Command::DeleteTask { task: id });

    world.must(Command::EditScheduleTitle { schedule, title: "Write the standup notes".to_owned() });
    assert_eq!(
        world.model.schedule(schedule).map(|it| it.title.as_str()),
        Some("Write the standup notes")
    );

    world.undo();
    assert_eq!(world.model.schedule(schedule).map(|it| it.title.as_str()), Some("Write standup notes"));
}

/// A body given whole is a decision; the keystrokes `EditNote` saves are
/// not, and neither of them changes what the other does.
#[test]
fn a_note_replaced_whole_goes_back_to_the_body_and_the_instant_it_had() {
    let mut world = World::at("2026-09-07T09:00:00");
    world.must(Command::CreateNote);
    let note = *world.model.notes.keys().next().expect("the note");
    world.must(Command::EditNote { note, body: "Milk\nBread".to_owned() });
    let was = format!("{:?}", world.model.note(note).expect("the note"));
    let entries = world.model.undo.len();

    world.clock("2026-09-08T11:00:00");
    world.must(Command::ReplaceNote { note, body: "Milk\nBread\nEggs".to_owned() });

    let now = world.model.note(note).expect("the note");
    assert_eq!(now.body, "Milk\nBread\nEggs");
    assert!(now.updated_at.same(&world.now));
    assert_eq!(world.model.undo.len(), entries + 1);
    assert_eq!(world.model.undo.last().map(|entry| entry.label.as_str()), Some("Replaced a note"));

    world.undo();
    assert_eq!(format!("{:?}", world.model.note(note).expect("the note")), was);
}

// ---- notes -----------------------------------------------------------

#[test]
fn a_note_is_created_edited_and_thrown_away_on_its_own() {
    let mut world = World::at("2026-09-07T09:00:00");
    world.must(Command::CreateNote);
    world.must(Command::CreateNote);
    let notes: Vec<Id> = world.model.notes.keys().copied().collect();
    assert_eq!(notes.len(), 2);

    world.must(Command::EditNote { note: notes[0], body: "draft a message".to_owned() });
    world.must(Command::DeleteNote { note: notes[0] });

    assert!(!world.model.note(notes[0]).expect("the note").is_live());
    assert!(world.model.note(notes[1]).expect("the note").is_live());

    // A note stays until it is deleted; nothing expires it.
    world.clock("2027-09-07T09:00:00");
    assert!(world.model.note(notes[1]).expect("the note").is_live());
}

#[test]
fn a_deleted_note_comes_back() {
    let mut world = World::at("2026-09-07T09:00:00");
    world.must(Command::CreateNote);
    let note = world.newest_note();
    world.must(Command::EditNote { note, body: "remember to mention X".to_owned() });
    world.must(Command::DeleteNote { note });

    world.undo();

    let restored = world.model.note(note).expect("the note");
    assert!(restored.is_live());
    assert_eq!(restored.body, "remember to mention X");
}

// ---- several instances -----------------------------------------------

#[test]
fn the_ids_of_new_rows_come_from_the_model() {
    let mut world = World::at("2026-09-07T09:00:00");
    let first = world.add("First", Place::Backlog);
    let second = world.add("Second", Place::Backlog);

    assert_eq!((first, second), (1, 2));

    world.must(Command::DeleteTask { task: second });
    let third = world.add("Third", Place::Backlog);
    assert_eq!(third, 3);
}

#[test]
fn closing_and_reopening_are_refused_when_they_have_nothing_to_do() {
    let mut world = World::at("2026-09-07T09:00:00");
    let id = world.add("Review Anna's PR", day("2026-09-07"));

    assert_eq!(world.refuse(Command::Reopen { task: id }), "That task is not closed.");
    world.must(Command::Close { task: id });
    assert_eq!(world.refuse(Command::Close { task: id }), "That task is already closed.");

    world.must(Command::DeleteTask { task: id });
    assert_eq!(
        world.refuse(Command::EditTitle { task: id, title: "Anything".to_owned() }),
        "That task is gone."
    );
}

#[test]
fn what_a_day_planned_is_what_it_has_placements_for() {
    let mut world = World::at("2026-09-07T09:00:00");
    world.add("Kept", day("2026-09-07"));
    let moved = world.add("Moved", day("2026-09-07"));
    world.must(Command::Move { task: moved, place: Place::Backlog });

    let placed = world
        .model
        .placements
        .values()
        .filter(|placement| placement.day == on("2026-09-07"))
        .filter(|placement| world.model.live_task(placement.task_id).is_some())
        .count();
    assert_eq!(world.day("2026-09-07").counts.planned, placed);
}

// ---- the working day -------------------------------------------------

#[test]
fn a_day_begins_at_the_hour_the_settings_say() {
    let settings = Settings::default();
    assert_eq!(settings.working_day(&at("2026-09-05T01:30:00")), on("2026-09-04"));
    assert_eq!(settings.working_day(&at("2026-09-05T05:00:00")), on("2026-09-05"));
}

#[test]
fn a_later_day_start_keeps_the_small_hours_on_the_day_before() {
    let mut settings = Settings::default();
    settings.set_day_starts_at(8);

    assert_eq!(settings.working_day(&at("2026-09-05T07:00:00")), on("2026-09-04"));
    assert_eq!(settings.working_day(&at("2026-09-05T08:00:00")), on("2026-09-05"));
}

#[test]
fn a_task_closed_after_midnight_belongs_to_the_evening_it_started_in() {
    let mut world = World::at("2026-09-04T22:00:00");
    let id = world.add("Ship the release", day("2026-09-04"));

    world.clock("2026-09-05T01:30:00");
    world.must(Command::Close { task: id });

    // The close is on Friday's day, at Saturday's small hours.
    let friday = world.day("2026-09-04");
    assert_eq!(titles(&friday.done), ["Ship the release"]);
    assert!(friday.done[0].closed_on_this_day);
}

// ---- recurring copies ------------------------------------------------

fn written(date: &Date) -> String {
    format!("{:04}-{:02}-{:02}", date.year, date.month, date.day)
}

#[test]
fn generation_makes_one_copy_for_every_scheduled_date_since_the_last_launch() {
    let mut world = World::at("2026-09-07T09:00:00");
    let id = world.add("Write standup notes", day("2026-09-07"));
    world.must(Command::CreateSchedule { task: id, rule: Rule::Workdays });

    // Away for a week and a half: Tue to Fri, then Mon and Tue.
    world.clock("2026-09-15T09:00:00");
    world.generate();

    let copies: Vec<String> = world
        .model
        .tasks
        .values()
        .filter(|task| task.title == "Write standup notes")
        .filter_map(|task| task.scheduled_on)
        .map(|date| written(&date))
        .collect();
    assert_eq!(
        copies,
        ["2026-09-07", "2026-09-08", "2026-09-09", "2026-09-10", "2026-09-11", "2026-09-14", "2026-09-15"]
    );
    // Each on its own day, all of the past ones on the pile.
    assert_eq!(world.pile_total(), 6);
    assert_eq!(world.planned("2026-09-12"), 0);
}

#[test]
fn generation_is_idempotent_and_pushes_nothing() {
    let mut world = World::at("2026-09-07T09:00:00");
    let id = world.add("Write standup notes", day("2026-09-07"));
    world.must(Command::CreateSchedule { task: id, rule: Rule::Daily });
    let entries = world.model.undo.len();

    world.clock("2026-09-09T09:00:00");
    world.generate();
    let after = whole(&world.model);
    world.generate();

    assert_eq!(whole(&world.model), after);
    assert_eq!(world.model.undo.len(), entries);
}

#[test]
fn a_deleted_copy_is_never_made_again() {
    let mut world = World::at("2026-09-07T09:00:00");
    let id = world.add("Write standup notes", day("2026-09-07"));
    world.must(Command::CreateSchedule { task: id, rule: Rule::Daily });

    world.clock("2026-09-08T09:00:00");
    world.generate();
    let copy = world.id("Write standup notes");
    world.must(Command::DeleteTask { task: copy });

    world.clock("2026-09-09T09:00:00");
    world.generate();

    assert_eq!(world.planned("2026-09-08"), 0);
    assert_eq!(world.planned("2026-09-09"), 1);
}

#[test]
fn a_copy_is_an_ordinary_task_from_then_on() {
    let mut world = World::at("2026-09-07T09:00:00");
    let first = world.add("Write standup notes", day("2026-09-07"));
    world.must(Command::CreateSchedule { task: first, rule: Rule::Daily });
    world.clock("2026-09-08T09:00:00");
    world.generate();
    let second = world.id("Write standup notes");

    world.must(Command::SetFocus { task: second, focus: true });
    world.must(Command::Move { task: second, place: Place::Backlog });

    // The schedule and the other copy are untouched.
    assert_eq!(world.task(first).day, Some(on("2026-09-07")));
    assert!(!world.task(first).focus);
    let schedule = world.model.schedules.values().next().expect("a schedule");
    assert_eq!(schedule.generated_through, on("2026-09-08"));
    assert!(!schedule.is_stopped());
    // It keeps its link.
    assert_eq!(world.task(second).schedule_id, Some(schedule.id));
}

#[test]
fn an_unclosed_copy_lands_on_the_pile() {
    let mut world = World::at("2026-09-07T09:00:00");
    let id = world.add("Write standup notes", day("2026-09-07"));
    world.must(Command::CreateSchedule { task: id, rule: Rule::Daily });

    world.clock("2026-09-09T09:00:00");
    world.generate();

    assert_eq!(world.pile().total, 2);
    assert!(world.pile().days[0].rows[0].repeat.is_some());
}

#[test]
fn the_backfill_cap_makes_copies_for_the_last_days_only() {
    let mut world = World::at("2026-09-07T09:00:00");
    let id = world.add("Write standup notes", day("2026-09-07"));
    world.must(Command::CreateSchedule { task: id, rule: Rule::Daily });
    world.set(|settings| settings.set_backfill_days(3));

    world.clock("2026-09-14T09:00:00");
    world.generate();

    let mut copies: Vec<String> =
        world.model.tasks.values().filter_map(|task| task.scheduled_on).map(|date| written(&date)).collect();
    copies.sort();
    assert_eq!(copies, ["2026-09-07", "2026-09-11", "2026-09-12", "2026-09-13", "2026-09-14"]);
}

#[test]
fn a_date_the_backfill_cap_skipped_is_never_copied_later() {
    let mut world = World::at("2026-09-07T09:00:00");
    let id = world.add("Write standup notes", day("2026-09-07"));
    world.must(Command::CreateSchedule { task: id, rule: Rule::Daily });
    world.set(|settings| settings.set_backfill_days(3));

    world.clock("2026-09-14T09:00:00");
    world.generate();
    let schedule = world.model.schedules.values().next().expect("a schedule");
    assert_eq!(
        schedule.generated_through,
        on("2026-09-14"),
        "caught up to today whether or not every date was copied"
    );

    // The cap off again, and the days it skipped stay skipped.
    world.set(|settings| settings.set_backfill_days(0));
    world.generate();

    assert_eq!(world.planned("2026-09-08"), 0);
    assert_eq!(world.planned("2026-09-14"), 1);
}

#[test]
fn editing_a_copys_title_renames_the_copy_or_the_schedule_too() {
    let mut world = World::at("2026-09-07T09:00:00");
    let first = world.add("Write standup notes", day("2026-09-07"));
    world.must(Command::CreateSchedule { task: first, rule: Rule::Daily });

    // "This copy" renames the task.
    world.must(Command::EditTitle { task: first, title: "Write standup notes (long version)".to_owned() });
    let schedule = world.model.schedules.values().next().expect("a schedule");
    assert_eq!(schedule.title, "Write standup notes");

    world.clock("2026-09-08T09:00:00");
    world.generate();

    // "This and future copies" renames the schedule as well.
    let second = world.id("Write standup notes");
    world.must(Command::EditTitleAndFuture {
        task: second,
        title: "Standup".to_owned(),
        schedule_title: "Standup".to_owned(),
    });
    world.clock("2026-09-09T09:00:00");
    world.generate();

    assert_eq!(world.plan("2026-09-07"), ["Write standup notes (long version)"]);
    assert_eq!(world.plan("2026-09-08"), ["Standup"]);
    assert_eq!(world.plan("2026-09-09"), ["Standup"]);
}

#[test]
fn changing_the_rule_takes_effect_from_the_next_generation() {
    let mut world = World::at("2026-09-07T09:00:00");
    let id = world.add("Write standup notes", day("2026-09-07"));
    world.must(Command::CreateSchedule { task: id, rule: Rule::Daily });
    let schedule = world.task(id).schedule_id.expect("a schedule");

    world.clock("2026-09-08T09:00:00");
    world.generate();
    world.must(Command::SetRule { schedule, rule: Rule::Weekly { weekdays: vec![Weekday::Fri] } });

    world.clock("2026-09-11T09:00:00");
    world.generate();

    // Tuesday's copy stays; Wednesday and Thursday never come.
    assert_eq!(world.planned("2026-09-08"), 1);
    assert_eq!(world.planned("2026-09-09"), 0);
    assert_eq!(world.planned("2026-09-11"), 1);
}

#[test]
fn stopping_a_schedule_ends_new_copies_and_leaves_the_old_ones() {
    let mut world = World::at("2026-09-07T09:00:00");
    let id = world.add("Write standup notes", day("2026-09-07"));
    world.must(Command::CreateSchedule { task: id, rule: Rule::Daily });
    let schedule = world.task(id).schedule_id.expect("a schedule");

    world.clock("2026-09-08T09:00:00");
    world.generate();
    world.must(Command::StopSchedule { schedule });

    world.clock("2026-09-10T09:00:00");
    world.generate();

    assert_eq!(world.planned("2026-09-08"), 1);
    assert_eq!(world.planned("2026-09-10"), 0);
    assert!(world.backlog().schedules.is_empty());
    assert_eq!(world.model.schedule(schedule).and_then(|schedule| schedule.stopped_on), Some(on("2026-09-08")));
    assert_eq!(world.refuse(Command::StopSchedule { schedule }), "That repeat has stopped.");
}

#[test]
fn creating_a_schedule_starts_nothing_on_today_by_itself() {
    let mut world = World::at("2026-09-07T09:00:00");
    let backlog = world.add("Clean out the garage", Place::Backlog);
    world.must(Command::CreateSchedule { task: backlog, rule: Rule::Daily });

    assert!(world.surfaced().also_starting_today.is_empty(), "the task is in the backlog, and no copy has been made");

    // The copy generation makes the next morning is the thing to say.
    world.clock("2026-09-08T09:00:00");
    world.generate();
    assert_eq!(titles(&world.surfaced().also_starting_today), ["Clean out the garage"]);
}

// ---- the review ------------------------------------------------------

#[test]
fn the_gate_is_written_once_a_day() {
    let mut world = World::at("2026-09-07T09:00:00");
    assert!(world.start_review());
    assert_eq!(world.model.meta_date(REVIEW_ON), Some(on("2026-09-07")));
    assert_eq!(world.model.meta_date(REVIEW_BEFORE), None);

    // A second window on the same day changes nothing.
    assert!(!world.start_review());

    world.clock("2026-09-08T09:00:00");
    assert!(world.start_review());
    assert_eq!(world.model.meta_date(REVIEW_ON), Some(on("2026-09-08")));
    assert_eq!(world.model.meta_date(REVIEW_BEFORE), Some(on("2026-09-07")));
}

#[test]
fn starting_a_review_pushes_nothing() {
    let mut world = World::at("2026-09-07T09:00:00");
    world.add("Something", Place::Backlog);
    let entries = world.model.undo.len();

    world.start_review();

    assert_eq!(world.model.undo.len(), entries);
}

#[test]
fn the_review_gate_is_written_as_an_iso_date() {
    let mut world = World::at("2026-09-07T09:00:00");
    world.start_review();
    assert_eq!(world.model.meta_value(REVIEW_ON).map(String::as_str), Some("2026-09-07"));
}

// ---- the settings ----------------------------------------------------

#[test]
fn changing_the_settings_is_one_write_and_nothing_on_the_undo_stack() {
    let mut world = World::at("2026-09-07T09:00:00");
    world.add("Ship the release", Place::Backlog);
    let mut settings = world.model.settings.clone();
    settings.set_day_starts_at(8);

    let change = change_settings(&world.model, settings.clone()).expect("the settings");
    assert_eq!(format!("{:?}", change.writes), format!("{:?}", [Write::PutSettings(settings.clone())]));

    world.commit(&change);
    assert_eq!(world.model.settings, settings);
    assert_eq!(world.model.undo.len(), 1, "the add, and nothing since");
}

#[test]
fn settings_that_have_not_changed_are_no_write_at_all() {
    let world = World::at("2026-09-07T09:00:00");
    let change = change_settings(&world.model, Settings::default()).expect("the settings");

    assert!(change.writes.is_empty());
}

#[test]
fn a_week_with_no_work_day_in_it_is_refused() {
    let world = World::at("2026-09-07T09:00:00");
    let mut settings = Settings::default();
    settings.set_work_days(WorkDays::of(&[]));

    assert_eq!(
        change_settings(&world.model, settings).map(|change| change.writes.len()),
        Err(Rejected("At least one day of the week must be a work day.".to_owned()))
    );
}

// ---- the personal dictionary -----------------------------------------

/// The sentence a word the dictionary will not take is refused with.
fn refused(model: &Model, word: &str) -> String {
    match add_dictionary_word(model, word) {
        Ok(_) => panic!("{word:?} was allowed"),
        Err(Rejected(why)) => why,
    }
}

fn pair(key: &str, word: &str) -> (String, String) {
    (key.to_owned(), word.to_owned())
}

#[test]
fn a_word_added_is_one_write_and_nothing_on_the_undo_stack() {
    let mut world = World::at("2026-09-07T09:00:00");
    world.add("Ship the release", Place::Backlog);

    let change = add_dictionary_word(&world.model, "Ratatui").expect("the word");
    assert_eq!(
        format!("{:?}", change.writes),
        format!("{:?}", [Write::PutDictionaryWord { key: "ratatui".to_owned(), word: "Ratatui".to_owned() }])
    );

    world.commit(&change);
    assert_eq!(world.word("ratatui"), Some("Ratatui".to_owned()));
    assert_eq!(world.model.undo.len(), 1, "the add, and nothing since");
}

#[test]
fn a_word_is_kept_as_it_was_typed_under_a_key_that_is_not() {
    let mut world = World::at("2026-09-07T09:00:00");
    world.learn("Kubernetes");
    world.learn("jobsdone");

    assert_eq!(world.words(), [pair("jobsdone", "jobsdone"), pair("kubernetes", "Kubernetes")]);
}

#[test]
fn the_outer_whitespace_of_a_word_is_not_part_of_it() {
    let mut world = World::at("2026-09-07T09:00:00");
    world.learn("  Kubernetes\t");

    assert_eq!(world.word("kubernetes"), Some("Kubernetes".to_owned()));
}

#[test]
fn a_word_is_kept_composed_however_it_was_typed() {
    let mut world = World::at("2026-09-07T09:00:00");
    world.learn("Cafe\u{301}");

    let word = world.word("café").expect("the word");
    assert_eq!(word, "Café");
    assert_eq!(word.chars().count(), 4);
}

#[test]
fn the_same_word_in_another_capitalisation_is_already_there() {
    let mut world = World::at("2026-09-07T09:00:00");
    world.learn("Ratatui");

    assert_eq!(refused(&world.model, "RATATUI"), "That word is already in your dictionary.");
    assert_eq!(world.model.personal_dictionary.len(), 1);
}

#[test]
fn the_same_word_decomposed_is_already_there() {
    let mut world = World::at("2026-09-07T09:00:00");
    world.learn("Café");

    assert_eq!(refused(&world.model, "cafe\u{301}"), "That word is already in your dictionary.");
}

#[test]
fn a_capital_that_lowercases_to_two_characters_is_one_entry() {
    let mut world = World::at("2026-09-07T09:00:00");
    world.learn("Straße");

    assert_eq!(refused(&world.model, "STRA\u{1e9e}E"), "That word is already in your dictionary.");
}

#[test]
fn the_dictionary_takes_one_word_and_nothing_else() {
    let world = World::at("2026-09-07T09:00:00");

    assert_eq!(refused(&world.model, "   "), "A dictionary word cannot be blank.");
    assert_eq!(refused(&world.model, "kubernetes cluster"), "A dictionary word is one word.");
    assert_eq!(refused(&world.model, "kubernetes\ncluster"), "A dictionary word is one word.");
    assert_eq!(refused(&world.model, "kuber\u{7}netes"), "A word cannot have control characters in it.");
    assert_eq!(refused(&world.model, "42"), "A word needs a letter in it.");
    assert_eq!(refused(&world.model, "---"), "A word needs a letter in it.");
    assert_eq!(refused(&world.model, &"a".repeat(129)), "A word is at most 128 characters.");
    assert!(add_dictionary_word(&world.model, &"a".repeat(128)).is_ok());
}

#[test]
fn renaming_a_word_moves_the_entry_to_its_new_key() {
    let mut world = World::at("2026-09-07T09:00:00");
    world.learn("Kubernets");

    let change = edit_dictionary_word(&world.model, "kubernets", "Kubernetes").expect("the new word");
    assert_eq!(
        format!("{:?}", change.writes),
        format!(
            "{:?}",
            [
                Write::PutDictionaryWord { key: "kubernetes".to_owned(), word: "Kubernetes".to_owned() },
                Write::DeleteDictionaryWord { key: "kubernets".to_owned() },
            ]
        )
    );

    world.commit(&change);
    assert_eq!(world.words(), [pair("kubernetes", "Kubernetes")]);
}

#[test]
fn a_word_can_be_recapitalised_where_another_word_cannot_take_its_key() {
    let mut world = World::at("2026-09-07T09:00:00");
    world.learn("ratatui");

    let change = edit_dictionary_word(&world.model, "ratatui", "Ratatui").expect("the new word");
    assert_eq!(
        format!("{:?}", change.writes),
        format!("{:?}", [Write::PutDictionaryWord { key: "ratatui".to_owned(), word: "Ratatui".to_owned() }])
    );

    world.commit(&change);
    assert_eq!(world.word("ratatui"), Some("Ratatui".to_owned()));
}

#[test]
fn a_word_edited_into_one_the_dictionary_has_is_refused() {
    let mut world = World::at("2026-09-07T09:00:00");
    world.learn("Ratatui");
    world.learn("Kubernetes");

    assert_eq!(
        edit_dictionary_word(&world.model, "kubernetes", "RATATUI").map(|change| change.writes.len()),
        Err(Rejected("That word is already in your dictionary.".to_owned()))
    );
}

#[test]
fn a_word_edited_into_something_that_is_not_a_word_is_refused() {
    let mut world = World::at("2026-09-07T09:00:00");
    world.learn("Ratatui");

    assert_eq!(
        edit_dictionary_word(&world.model, "ratatui", "two words").map(|change| change.writes.len()),
        Err(Rejected("A dictionary word is one word.".to_owned()))
    );
    assert_eq!(world.word("ratatui"), Some("Ratatui".to_owned()));
}

#[test]
fn a_word_that_has_not_changed_is_no_write_at_all() {
    let mut world = World::at("2026-09-07T09:00:00");
    world.learn("Ratatui");

    let change = edit_dictionary_word(&world.model, "ratatui", "Ratatui").expect("the same word");
    assert!(change.writes.is_empty());
}

#[test]
fn removing_a_word_leaves_the_rest_of_the_dictionary() {
    let mut world = World::at("2026-09-07T09:00:00");
    world.learn("Ratatui");
    world.learn("Kubernetes");

    let change = remove_dictionary_word(&world.model, "ratatui").expect("the word");
    assert_eq!(
        format!("{:?}", change.writes),
        format!("{:?}", [Write::DeleteDictionaryWord { key: "ratatui".to_owned() }])
    );

    world.commit(&change);
    assert_eq!(world.words(), [pair("kubernetes", "Kubernetes")]);
}

#[test]
fn a_word_the_dictionary_does_not_have_cannot_be_edited_or_removed() {
    let world = World::at("2026-09-07T09:00:00");
    let gone: Result<usize, Rejected> = Err(Rejected("That word is not in your dictionary.".to_owned()));

    assert_eq!(edit_dictionary_word(&world.model, "ratatui", "Ratatui").map(|change| change.writes.len()), gone);
    assert_eq!(remove_dictionary_word(&world.model, "ratatui").map(|change| change.writes.len()), gone);
}

#[test]
fn one_window_adding_a_word_leaves_another_windows_word_alone() {
    let mut world = World::at("2026-09-07T09:00:00");
    world.learn("Ratatui");

    // Both windows worked their change out from the dictionary as it was
    // before either of them wrote.
    let before = world.model.copy();
    let mine = add_dictionary_word(&before, "Kubernetes").expect("the word");
    let theirs = add_dictionary_word(&before, "Wayland").expect("the word");
    world.commit(&mine);
    world.commit(&theirs);

    let mut words: Vec<String> = world.model.personal_dictionary.iter().map(|(_, word)| word.clone()).collect();
    words.sort();
    assert_eq!(words, ["Kubernetes", "Ratatui", "Wayland"]);
}

// ---- the day view ----------------------------------------------------

#[test]
fn a_task_moved_off_a_day_leaves_its_pointer_the_moment_it_is_moved() {
    let mut world = World::at("2026-09-07T09:00:00");
    let id = world.add("Chase the hosting invoice", day("2026-09-07"));

    world.must(Command::Move { task: id, place: day("2026-09-08") });

    let monday = world.day("2026-09-07");
    assert!(monday.plan.is_empty());
    assert_eq!(titles(&monday.moved), ["Chase the hosting invoice"]);
    assert_eq!(monday.moved[0].place, day("2026-09-08"));
    assert_eq!(monday.counts.moved, 1);
}

#[test]
fn moving_a_task_never_rewrites_what_was_planned() {
    let mut world = World::at("2026-09-07T09:00:00");
    let id = world.add("Book the venue", day("2026-09-07"));

    world.must(Command::Move { task: id, place: day("2026-09-08") });
    world.clock("2026-09-08T09:00:00");
    world.must(Command::Move { task: id, place: day("2026-09-09") });

    // Monday and Tuesday both point at where the task is now.
    for date in ["2026-09-07", "2026-09-08"] {
        let view = world.day(date);
        assert_eq!(titles(&view.moved), ["Book the venue"]);
        assert_eq!(view.moved[0].place, day("2026-09-09"));
    }
}

#[test]
fn a_day_is_laid_out_the_same_way_whether_or_not_it_is_today() {
    let mut world = World::at("2026-09-07T09:00:00");
    let focus = world.add("Ship invoice export", day("2026-09-07"));
    world.add("Review Anna's PR", day("2026-09-07"));
    let done = world.add("Morning review", day("2026-09-07"));
    let moved = world.add("Chase the hosting invoice", day("2026-09-07"));
    world.must(Command::SetFocus { task: focus, focus: true });
    world.must(Command::Close { task: done });
    world.must(Command::Move { task: moved, place: day("2026-09-08") });

    let as_today = world.day("2026-09-07");
    world.clock("2026-09-11T09:00:00");
    let as_history = world.day("2026-09-07");

    assert_eq!(titles(&as_today.focus), titles(&as_history.focus));
    assert_eq!(titles(&as_today.plan), titles(&as_history.plan));
    assert_eq!(titles(&as_today.done), titles(&as_history.done));
    assert_eq!(titles(&as_today.moved), titles(&as_history.moved));
    assert_eq!(as_today.counts, as_history.counts);

    // Only the annotations that speak of today move.
    assert!(!as_today.plan[0].on_the_pile);
    assert!(as_history.plan[0].on_the_pile);
}

#[test]
fn a_day_counts_what_was_planned_kept_done_and_moved() {
    let mut world = World::at("2026-09-07T09:00:00");
    world.add("Open one", day("2026-09-07"));
    world.add("Open two", day("2026-09-07"));
    let done = world.add("Closed one", day("2026-09-07"));
    let moved = world.add("Moved one", day("2026-09-07"));
    world.must(Command::Close { task: done });
    world.must(Command::Move { task: moved, place: Place::Backlog });

    let counts = world.day("2026-09-07").counts;
    assert_eq!(counts, DayCounts { planned: 4, open: 2, done: 1, moved: 1 });
}

#[test]
fn a_task_pulled_from_the_backlog_today_is_marked_as_such() {
    let mut world = World::at("2026-09-07T09:00:00");
    let id = world.add("Fix the flaky migration test", Place::Backlog);
    world.must(Command::Move { task: id, place: day("2026-09-07") });

    assert!(world.day("2026-09-07").plan[0].from_backlog);

    // The same row on a day it was placed for in advance says nothing.
    let later = world.add("Renew passport", Place::Backlog);
    world.must(Command::Move { task: later, place: day("2026-09-11") });
    assert!(!world.day("2026-09-11").plan[0].from_backlog);
}

#[test]
fn a_task_closed_from_the_review_shows_the_date_not_the_time() {
    let mut world = World::at("2026-09-04T09:00:00");
    let id = world.add("Send the invoice to Nordic Ltd", day("2026-09-04"));

    world.clock("2026-09-07T08:12:00");
    world.must(Command::Close { task: id });

    let friday = world.day("2026-09-04");
    assert!(!friday.done[0].closed_on_this_day);
    assert!(world.day("2026-09-07").done.is_empty());
}

#[test]
fn a_day_with_nothing_planned_is_empty() {
    let mut world = World::at("2026-09-07T09:00:00");
    world.add("Review Anna's PR", day("2026-09-07"));

    let quiet = world.day("2026-09-12");
    assert_eq!(quiet.counts, DayCounts::default());
    assert!(quiet.focus.is_empty() && quiet.plan.is_empty());
    assert!(quiet.done.is_empty() && quiet.moved.is_empty());
}

#[test]
fn a_due_date_shows_whether_it_has_passed() {
    let mut world = World::at("2026-09-07T09:00:00");
    let id = world.add("Renew passport", day("2026-09-07"));
    world.must(Command::SetDue { task: id, date: Some(on("2026-09-05")) });

    let row = &world.day("2026-09-07").plan[0];
    let due = row.due.expect("a due date");
    assert_eq!(due.on, on("2026-09-05"));
    assert!(due.overdue);
}

// ---- the backlog -----------------------------------------------------

#[test]
fn the_backlog_shows_waiting_tasks_apart() {
    let mut world = World::at("2026-09-07T09:00:00");
    world.add("Migrate CI to the new runners", Place::Backlog);
    let waiting = world.add("Quote from the electrician", Place::Backlog);
    world.must(Command::SetWaiting { task: waiting, waiting: true });

    let backlog = world.backlog();
    assert_eq!(titles(&backlog.ordinary), ["Migrate CI to the new runners"]);
    assert_eq!(titles(&backlog.waiting), ["Quote from the electrician"]);
    assert_eq!((backlog.open, backlog.waiting_count), (2, 1));
}

#[test]
fn the_backlog_lists_the_live_unstopped_schedules() {
    let mut world = World::at("2026-09-07T09:00:00");
    let id = world.add("Write standup notes", day("2026-09-07"));
    world.must(Command::CreateSchedule { task: id, rule: Rule::Workdays });

    let schedules = world.backlog().schedules;
    assert_eq!(schedules.len(), 1);
    assert_eq!(schedules[0].title, "Write standup notes");
    assert!(matches!(schedules[0].rule, Rule::Workdays));
}

#[test]
fn a_stopped_schedule_leaves_the_backlog_list() {
    let mut world = World::at("2026-09-07T09:00:00");
    let id = world.add("Write standup notes", day("2026-09-07"));
    world.must(Command::CreateSchedule { task: id, rule: Rule::Daily });
    let schedule = world.task(id).schedule_id.expect("a schedule");
    world.must(Command::StopSchedule { schedule });

    assert!(world.backlog().schedules.is_empty());
}

// ---- the pile --------------------------------------------------------

#[test]
fn the_pile_is_every_open_task_from_a_day_that_has_passed() {
    let mut world = World::at("2026-09-01T09:00:00");
    world.add("Call the accountant about VAT", day("2026-09-01"));
    let done = world.add("Weekly planning", day("2026-09-01"));
    world.must(Command::Close { task: done });
    world.clock("2026-09-04T09:00:00");
    world.add("Fix the flaky migration test", day("2026-09-04"));
    world.add("Not yet", day("2026-09-11"));
    world.add("Nor this", Place::Backlog);

    world.clock("2026-09-07T09:00:00");
    let pile = world.pile();

    assert_eq!(pile.total, 2);
    let days: Vec<String> = pile.days.iter().map(|day| written(&day.day)).collect();
    assert_eq!(days, ["2026-09-04", "2026-09-01"]);
    assert_eq!(pile.days[0].age, 3);
    assert_eq!(pile.days[1].age, 6);
    assert_eq!(titles(&pile.days[1].rows), ["Call the accountant about VAT"]);
}

#[test]
fn nothing_is_carried_over_and_a_pile_row_leaves_only_when_it_is_dealt_with() {
    let mut world = World::at("2026-09-01T09:00:00");
    let id = world.add("Order new office chair", day("2026-09-01"));

    // Weeks later, the task is still on the day it was planned for.
    world.clock("2026-09-21T09:00:00");
    world.generate();
    assert_eq!(world.task(id).day, Some(on("2026-09-01")));
    assert_eq!(world.pile().total, 1);
    assert_eq!(world.pile().days[0].age, 20);
    assert!(world.day("2026-09-01").plan[0].on_the_pile);

    world.must(Command::Move { task: id, place: day("2026-09-21") });
    assert_eq!(world.pile().total, 0);
}

#[test]
fn a_waiting_task_is_never_on_the_pile() {
    let mut world = World::at("2026-09-01T09:00:00");
    let id = world.add("Parcel from the supplier", day("2026-09-01"));
    world.must(Command::SetWaiting { task: id, waiting: true });

    world.clock("2026-09-07T09:00:00");
    assert_eq!(world.pile().total, 0);
}

#[test]
fn the_horizon_leaves_an_older_day_out_of_the_pile_and_marks_it_still_open() {
    let mut world = World::at("2026-09-01T09:00:00");
    world.add("Order new office chair", day("2026-09-01"));
    world.add("Chase the invoice", day("2026-09-20"));

    world.clock("2026-09-25T09:00:00");
    assert_eq!(world.pile().total, 2, "no horizon reaches every day");

    world.set(|settings| settings.set_pile_horizon_days(10));

    assert_eq!(titles(&world.pile().days[0].rows), ["Chase the invoice"]);
    assert_eq!(world.pile().total, 1);

    // The old task is where it always was, and its row says so without
    // asking for it back.
    let old = &world.day("2026-09-01").plan[0];
    assert!(!old.on_the_pile);
    assert!(old.still_open);
    let recent = &world.day("2026-09-20").plan[0];
    assert!(recent.on_the_pile);
    assert!(!recent.still_open);
}

#[test]
fn a_day_exactly_as_old_as_the_horizon_is_still_on_the_pile() {
    let mut world = World::at("2026-09-01T09:00:00");
    world.add("Order new office chair", day("2026-09-01"));
    world.clock("2026-09-11T09:00:00");

    world.set(|settings| settings.set_pile_horizon_days(10));
    assert_eq!(world.pile().total, 1, "ten days ago is not more than ten");

    world.set(|settings| settings.set_pile_horizon_days(9));
    assert_eq!(world.pile().total, 0);
}

#[test]
fn a_task_leaves_the_pile_by_being_closed_moved_or_deleted() {
    let mut world = World::at("2026-09-01T09:00:00");
    let closed = world.add("Weekly planning", day("2026-09-01"));
    let moved = world.add("Order new office chair", day("2026-09-01"));
    let deleted = world.add("Book the team dinner", day("2026-09-01"));
    let kept = world.add("Call the accountant about VAT", day("2026-09-01"));

    world.clock("2026-09-07T09:00:00");
    assert_eq!(world.pile().total, 4);

    world.must(Command::Close { task: closed });
    world.must(Command::Move { task: moved, place: Place::Backlog });
    world.must(Command::DeleteTask { task: deleted });

    assert_eq!(titles(&world.pile().days[0].rows), ["Call the accountant about VAT"]);
    assert_eq!(world.task(kept).day, Some(on("2026-09-01")));
}

// ---- the review ------------------------------------------------------

#[test]
fn the_previous_review_date_is_the_last_one_before_today() {
    let mut world = World::at("2026-09-04T09:00:00");
    world.start_review();
    assert_eq!(previous_review(&world.model, world.today()), None);

    // Before today's gate is written, the last review is still Friday's.
    world.clock("2026-09-07T09:00:00");
    assert_eq!(previous_review(&world.model, world.today()), Some(on("2026-09-04")));

    world.start_review();
    assert_eq!(previous_review(&world.model, world.today()), Some(on("2026-09-04")));
}

// ---- what surfaces -----------------------------------------------------

#[test]
fn a_date_surfaces_a_task_and_never_moves_it() {
    let mut world = World::at("2026-09-07T09:00:00");
    let due = world.add("Submit the expense report", Place::Backlog);
    let remind = world.add("Book dentist", Place::Backlog);
    world.must(Command::SetDue { task: due, date: Some(on("2026-09-07")) });
    world.must(Command::SetRemind { task: remind, date: Some(on("2026-09-07")) });

    let surfaced = world.surfaced();
    assert_eq!(titles(&surfaced.due), ["Submit the expense report"]);
    assert_eq!(titles(&surfaced.reminders), ["Book dentist"]);
    assert_eq!(surfaced.total, 2);

    // Surfacing is a prompt, not a move.
    assert_eq!(world.task(due).day, None);
    assert_eq!(world.task(remind).day, None);
    assert_eq!(world.backlog().ordinary.len(), 2);
}

#[test]
fn a_due_task_surfaces_at_every_review_until_it_is_acted_on() {
    let mut world = World::at("2026-09-04T09:00:00");
    let id = world.add("Migrate CI to the new runners", Place::Backlog);
    world.must(Command::SetDue { task: id, date: Some(on("2026-09-03")) });

    world.start_review();
    assert_eq!(world.surfaced().due.len(), 1);
    assert!(world.surfaced().due[0].due.expect("a due chip").overdue);

    world.clock("2026-09-07T09:00:00");
    world.start_review();
    assert_eq!(world.surfaced().due.len(), 1);

    world.must(Command::Move { task: id, place: day("2026-09-07") });
    assert!(world.surfaced().due.is_empty());
}

#[test]
fn a_reminder_surfaces_once_and_a_weekend_one_is_seen_on_monday() {
    let mut world = World::at("2026-09-04T09:00:00");
    let id = world.add("Feedback on the proposal", Place::Backlog);
    world.must(Command::SetRemind { task: id, date: Some(on("2026-09-05")) });

    // Friday's review is before the reminder's Saturday.
    world.start_review();
    assert!(world.surfaced().reminders.is_empty());

    world.clock("2026-09-07T09:00:00");
    world.start_review();
    assert_eq!(titles(&world.surfaced().reminders), ["Feedback on the proposal"]);

    // Tuesday's review has seen it.
    world.clock("2026-09-08T09:00:00");
    world.start_review();
    assert!(world.surfaced().reminders.is_empty());
}

#[test]
fn waiting_suppresses_a_due_date_but_not_a_reminder() {
    let mut world = World::at("2026-09-07T09:00:00");
    let id = world.add("Feedback on the proposal", Place::Backlog);
    world.must(Command::SetDue { task: id, date: Some(on("2026-09-07")) });
    world.must(Command::SetRemind { task: id, date: Some(on("2026-09-07")) });
    world.must(Command::SetWaiting { task: id, waiting: true });

    let surfaced = world.surfaced();
    assert!(surfaced.due.is_empty());
    assert_eq!(titles(&surfaced.reminders), ["Feedback on the proposal"]);
    assert!(surfaced.reminders[0].waiting);
}

#[test]
fn a_dated_task_on_a_day_is_already_planned_and_prompts_again_in_the_backlog() {
    let mut world = World::at("2026-09-07T09:00:00");
    let id = world.add("Submit the expense report", Place::Backlog);
    world.must(Command::SetDue { task: id, date: Some(on("2026-09-07")) });

    world.must(Command::Move { task: id, place: day("2026-09-07") });
    assert!(world.surfaced().due.is_empty());
    assert_eq!(world.task(id).due_on, Some(on("2026-09-07")));

    world.must(Command::Move { task: id, place: Place::Backlog });
    assert_eq!(titles(&world.surfaced().due), ["Submit the expense report"]);
}

#[test]
fn overdue_due_dates_surface_before_the_rest() {
    let mut world = World::at("2026-09-07T09:00:00");
    let today = world.add("Submit the expense report", Place::Backlog);
    let over = world.add("Migrate CI to the new runners", Place::Backlog);
    world.must(Command::SetDue { task: today, date: Some(on("2026-09-07")) });
    world.must(Command::SetDue { task: over, date: Some(on("2026-09-03")) });

    assert_eq!(titles(&world.surfaced().due), ["Migrate CI to the new runners", "Submit the expense report"]);
}

#[test]
fn a_due_task_surfaces_as_early_as_the_setting_says() {
    let mut world = World::at("2026-09-07T09:00:00");
    let id = world.add("Renew the domain", Place::Backlog);
    world.must(Command::SetDue { task: id, date: Some(on("2026-09-10")) });
    assert!(world.surfaced().due.is_empty(), "three days off");

    world.set(|settings| settings.set_due_ahead_days(3));

    assert_eq!(titles(&world.surfaced().due), ["Renew the domain"]);
    assert!(!world.surfaced().due[0].due.expect("a due chip").overdue, "seen early is not late");
}

#[test]
fn surfacing_early_leaves_the_overdue_ones_first() {
    let mut world = World::at("2026-09-07T09:00:00");
    let late = world.add("Renew the domain", Place::Backlog);
    world.must(Command::SetDue { task: late, date: Some(on("2026-09-04")) });
    let soon = world.add("File the VAT return", Place::Backlog);
    world.must(Command::SetDue { task: soon, date: Some(on("2026-09-09")) });

    world.set(|settings| settings.set_due_ahead_days(7));

    assert_eq!(titles(&world.surfaced().due), ["Renew the domain", "File the VAT return"]);
}

#[test]
fn the_surfaced_step_lists_todays_copies_for_information() {
    let mut world = World::at("2026-09-07T09:00:00");
    let id = world.add("Write standup notes", day("2026-09-07"));
    world.must(Command::CreateSchedule { task: id, rule: Rule::Daily });
    world.clock("2026-09-08T09:00:00");
    world.generate();

    let surfaced = world.surfaced();
    assert_eq!(titles(&surfaced.also_starting_today), ["Write standup notes"]);
    // Nothing is decided about them, so they are outside the count.
    assert_eq!(surfaced.total, 0);
    assert!(!surfaced.is_empty());

    // Yesterday's copy is not listed again.
    assert_eq!(surfaced.also_starting_today[0].place, day("2026-09-08"));
}

#[test]
fn a_review_with_nothing_in_it_is_empty_on_both_steps() {
    let mut world = World::at("2026-09-07T09:00:00");
    world.add("Clean out the garage", Place::Backlog);
    world.add("Review Anna's PR", day("2026-09-07"));

    assert_eq!(world.pile().total, 0);
    assert!(world.surfaced().is_empty());
}

#[test]
fn the_review_keeps_the_pile_it_opened_with() {
    let mut world = World::at("2026-09-07T09:00:00");
    world.add("Send the invoice", day("2026-09-04"));
    let slides = world.add("Prepare slides", day("2026-09-04"));
    let chair = world.add("Order new office chair", day("2026-09-01"));
    let opened = world.pile();
    assert_eq!(opened.total, 3);

    // Closed on its old day, moved to today, and deleted: three ways off
    // the pile, and all three rows stay where the review found them.
    world.must(Command::Close { task: slides });
    world.must(Command::Move { task: chair, place: day("2026-09-07") });
    let invoice = world.id("Send the invoice");
    world.must(Command::DeleteTask { task: invoice });
    assert_eq!(world.pile().total, 0);

    let again = world.pile_again(&opened);
    assert_eq!(again.total, 3);
    assert_eq!(titles(&again.days[0].rows), ["Send the invoice", "Prepare slides"]);
    assert_eq!(titles(&again.days[1].rows), ["Order new office chair"]);
    // Every row says what became of the task.
    assert!(again.days[0].rows[1].closed_at.is_some());
    assert_eq!(again.days[1].rows[0].place, day("2026-09-07"));
}

#[test]
fn the_pile_ages_again_when_the_day_rolls_over_under_the_review() {
    let mut world = World::at("2026-09-07T09:00:00");
    world.add("Order new office chair", day("2026-09-04"));
    let opened = world.pile();
    assert_eq!(opened.days[0].age, 3);

    world.clock("2026-09-08T09:00:00");

    assert_eq!(world.pile_again(&opened).days[0].age, 4);
}

#[test]
fn the_surfaced_step_keeps_the_rows_it_opened_with() {
    let mut world = World::at("2026-09-07T09:00:00");
    let ci = world.add("Migrate CI", Place::Backlog);
    world.must(Command::SetDue { task: ci, date: Some(on("2026-09-05")) });
    let opened = world.surfaced();
    assert_eq!(opened.total, 1);

    world.must(Command::Move { task: ci, place: day("2026-09-07") });
    assert!(world.surfaced().due.is_empty());

    let again = world.surfaced_again(&opened);
    assert_eq!(titles(&again.due), ["Migrate CI"]);
    assert_eq!(again.due[0].place, day("2026-09-07"));
    assert_eq!(again.total, 1);
}

// ---- each command taken back by its entry ------------------------------

#[test]
fn undoing_a_move_between_days_puts_every_task_back_at_its_position() {
    let mut world = World::at("2026-09-07T09:00:00");
    let a = world.add("Book the venue", day("2026-09-07"));
    let b = world.add("Chase the hosting invoice", day("2026-09-07"));
    let c = world.add("Write the agenda", day("2026-09-07"));
    let d = world.add("Print the badges", day("2026-09-08"));

    world.must(Command::Move { task: b, place: day("2026-09-08") });
    assert_eq!(world.task(c).position, 1);
    assert_eq!(world.task(b).position, 1);

    world.undo();
    for (id, position) in [(a, 0), (b, 1), (c, 2)] {
        assert_eq!(world.task(id).day, Some(on("2026-09-07")));
        assert_eq!(world.task(id).position, position);
    }
    assert_eq!(world.task(d).position, 0);
    assert!(world.model.placement(b, on("2026-09-08")).is_none());
}

#[test]
fn undoing_waiting_on_someone_brings_the_task_back_to_its_day() {
    let mut world = World::at("2026-09-07T09:00:00");
    let a = world.add("Book the venue", day("2026-09-07"));
    let b = world.add("Chase the hosting invoice", day("2026-09-07"));

    world.must(Command::SetWaiting { task: a, waiting: true });
    assert_eq!(world.task(a).day, None);
    assert_eq!(world.task(b).position, 0);

    world.undo();
    assert_eq!(world.task(a).day, Some(on("2026-09-07")));
    assert_eq!(world.task(a).position, 0);
    assert!(!world.task(a).waiting);
    assert_eq!(world.task(b).position, 1);
}

#[test]
fn undoing_the_close_of_a_waiting_backlog_task_puts_it_back_waiting() {
    let mut world = World::at("2026-09-07T09:00:00");
    let a = world.add("Book the venue", Place::Backlog);
    let b = world.add("Chase the hosting invoice", Place::Backlog);
    world.must(Command::SetWaiting { task: b, waiting: true });

    world.must(Command::Close { task: b });
    assert_eq!(world.task(b).day, Some(on("2026-09-07")));
    assert!(world.model.placement(b, on("2026-09-07")).is_some());

    world.undo();
    assert_eq!(world.task(b).day, None);
    assert_eq!(world.task(b).position, 1);
    assert!(world.task(b).waiting);
    assert!(world.task(b).closed_at.is_none());
    assert_eq!(world.task(a).position, 0);
    assert!(world.model.placement(b, on("2026-09-07")).is_none());
}

#[test]
fn undoing_a_repeat_takes_the_new_schedule_away() {
    let mut world = World::at("2026-09-07T09:00:00");
    let id = world.add("Standup", day("2026-09-07"));

    world.must(Command::CreateSchedule { task: id, rule: Rule::Daily });
    assert_eq!(world.model.schedules.len(), 1);

    world.undo();
    assert!(world.model.schedules.is_empty());
    assert_eq!(world.task(id).schedule_id, None);
    assert_eq!(world.task(id).scheduled_on, None);
}

// ---- search ----------------------------------------------------------

#[test]
fn search_finds_live_tasks_by_title_across_all_history() {
    let mut world = World::at("2026-09-04T09:00:00");
    let closed = world.add("Send the invoice to Nordic Ltd", day("2026-09-04"));
    world.must(Command::Close { task: closed });
    world.clock("2026-09-07T09:00:00");
    let open = world.add("Chase the unpaid invoices", Place::Backlog);
    world.must(Command::SetWaiting { task: open, waiting: true });
    let deleted = world.add("Invoice template v2", Place::Backlog);
    world.must(Command::DeleteTask { task: deleted });

    let results = search(&world.model, "INVOICE", world.today());

    assert_eq!(titles(&results.open), ["Chase the unpaid invoices"]);
    assert_eq!(titles(&results.closed), ["Send the invoice to Nordic Ltd"]);
    assert_eq!(results.total, 2);
    assert!(results.open[0].waiting);
    assert_eq!(results.closed[0].place, day("2026-09-04"));
}

#[test]
fn each_recurring_copy_is_its_own_row_in_search() {
    let mut world = World::at("2026-09-07T09:00:00");
    let id = world.add("Write standup notes", day("2026-09-07"));
    world.must(Command::CreateSchedule { task: id, rule: Rule::Daily });
    world.clock("2026-09-09T09:00:00");
    world.generate();

    let results = search(&world.model, "standup", world.today());

    assert_eq!(results.total, 3);
    assert!(results.open.iter().all(|row| row.repeat.is_some()));
}

#[test]
fn search_lists_open_days_first_and_the_latest_closed_first() {
    let mut world = World::at("2026-09-07T09:00:00");
    let later = world.add("Plan the offsite", day("2026-09-09"));
    let kept = world.add("Plan the budget", Place::Backlog);
    let sooner = world.add("Plan the agenda", day("2026-09-08"));
    let old = world.add("Plan the retro", day("2026-09-07"));
    let new = world.add("Plan the demo", day("2026-09-07"));
    world.must(Command::Close { task: old });
    world.clock("2026-09-07T10:00:00");
    world.must(Command::Close { task: new });

    let results = search(&world.model, "plan the", world.today());

    let open: Vec<Id> = results.open.iter().map(|row| row.task).collect();
    assert_eq!(open, [sooner, later, kept]);
    let closed: Vec<Id> = results.closed.iter().map(|row| row.task).collect();
    assert_eq!(closed, [new, old]);
    assert_eq!(results.total, 5);
    assert_eq!(search(&world.model, "nothing like it", world.today()).total, 0);
}

#[test]
fn every_place_stays_numbered_from_zero_after_any_command() {
    let mut world = World::at("2026-09-07T09:00:00");
    let a = world.add("Book the venue", day("2026-09-07"));
    let b = world.add("Chase the hosting invoice", day("2026-09-07"));
    let c = world.add("Write the agenda", day("2026-09-07"));
    let d = world.add("Print the badges", Place::Backlog);

    world.must(Command::Move { task: a, place: Place::Backlog });
    world.must(Command::Reorder { task: c, position: 0 });
    world.must(Command::DeleteTask { task: d });
    world.must(Command::SetWaiting { task: b, waiting: true });

    let day_order: Vec<usize> =
        world.model.place(day("2026-09-07")).iter().map(|id| world.task(*id).position).collect();
    assert_eq!(day_order, [0]);
    let backlog: Vec<usize> = world.model.place(Place::Backlog).iter().map(|id| world.task(*id).position).collect();
    assert_eq!(backlog, [0, 1]);
}
