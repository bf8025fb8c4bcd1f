//! Every command the program takes, in the order the command list prints
//! it: its words, the operation it sends, its own options and its help.

use vstd::prelude::*;
use crate::cli::request::Spec;
use crate::cli::Then;
use crate::cli::render;

verus! {

/// The whole surface, in the order the command list prints it.
pub open spec fn command_table() -> Seq<Spec> {
    seq![
    Spec {
        name: "task list",
        op: "task.list",
        options: &[("--place", true), ("--day", true), ("--today", false), ("--tomorrow", false), ("--backlog", false), ("--state", true), ("--open", false), ("--closed", false), ("--all", false), ("--focus", false), ("--waiting", false)],
        view: render::View::TaskList,
        after: Then::Nothing,
        summary: "list tasks, in a place or everywhere",
        usage: "jobsdone task list [--today | --backlog | --day DATE] [--open | --closed | --all]",
        detail: "\
Days in ascending order and then the backlog, each in position order.
With no place, every place. --focus and --waiting narrow it further.

JSON fields: place (place), state (\"open\"|\"closed\"|\"all\", default
\"all\"), focus (bool), waiting (bool).",
    },
    Spec {
        name: "task get",
        op: "task.get",
        options: &[],
        view: render::View::Task,
        after: Then::Nothing,
        summary: "show one task in full",
        usage: "jobsdone task get ID",
        detail: "JSON fields: id (integer).",
    },
    Spec {
        name: "task add",
        op: "task.add",
        options: &[("--place", true), ("--day", true), ("--today", false), ("--tomorrow", false), ("--backlog", false), ("--focus", false), ("--waiting", false), ("--due", true), ("--remind", true), ("--repeat", true), ("--position", true), ("--before", true), ("--after", true), ("--top", false)],
        view: render::View::Task,
        after: Then::Nothing,
        summary: "add a task, with every property it should start with",
        usage: "jobsdone task add TITLE [--today | --backlog | --day DATE] [--focus] \\\n            [--waiting] [--due DATE] [--remind DATE] [--repeat RULE] \\\n            [--position N | --before ID | --after ID | --top]",
        detail: "\
Everything the task should start with goes in one invocation: it commits as
one change and takes one undo entry. Without a place the task goes to the
backlog. --focus needs a day and --waiting needs the backlog.

JSON fields: title (string), place (place), focus (bool), waiting (bool),
due (date), remind (date), repeat (rule), and one of position (integer),
before (id), after (id).",
    },
    Spec {
        name: "task update",
        op: "task.update",
        options: &[("--title", true), ("--scope", true), ("--place", true), ("--day", true), ("--today", false), ("--tomorrow", false), ("--backlog", false), ("--focus", false), ("--no-focus", false), ("--waiting", false), ("--no-waiting", false), ("--due", true), ("--clear-due", false), ("--remind", true), ("--clear-remind", false), ("--position", true)],
        view: render::View::Task,
        after: Then::Nothing,
        summary: "change any number of a task's properties at once",
        usage: "jobsdone task update ID [--title TEXT [--scope this|future]] \\\n            [--today | --backlog | --day DATE] [--focus | --no-focus] \\\n            [--waiting | --no-waiting] [--due DATE | --clear-due] \\\n            [--remind DATE | --clear-remind] [--position N]",
        detail: "\
One task, any number of properties, one change and one undo entry. At least
one property is required. --scope is required with --title on a recurring
copy: this renames the copy, future renames the schedule as well.

JSON fields: id (integer), title (string), title_scope (\"this\"|\"future\"),
place (place), focus (bool), waiting (bool), due (date or null), remind
(date or null), position (integer). null clears a date; leaving the field
out keeps it.",
    },
    Spec {
        name: "task rename",
        op: "task.update",
        options: &[("--scope", true)],
        view: render::View::Task,
        after: Then::Nothing,
        summary: "rename a task (task update --title)",
        usage: "jobsdone task rename ID TITLE [--scope this|future]",
        detail: "Sends task.update with title, and title_scope where --scope is given.",
    },
    Spec {
        name: "task focus",
        op: "task.update",
        options: &[],
        view: render::View::Task,
        after: Then::Nothing,
        summary: "mark a task on a day as a focus item",
        usage: "jobsdone task focus ID",
        detail: "Sends task.update with focus true. Focus belongs to tasks on a day.",
    },
    Spec {
        name: "task unfocus",
        op: "task.update",
        options: &[],
        view: render::View::Task,
        after: Then::Nothing,
        summary: "take the focus mark off a task",
        usage: "jobsdone task unfocus ID",
        detail: "Sends task.update with focus false.",
    },
    Spec {
        name: "task waiting",
        op: "task.update",
        options: &[],
        view: render::View::Task,
        after: Then::Nothing,
        summary: "flag a task as waiting on someone else",
        usage: "jobsdone task waiting ID",
        detail: "\
Sends task.update with waiting true. A task on a day moves to the backlog,
which is what the app's w does.",
    },
    Spec {
        name: "task unwait",
        op: "task.update",
        options: &[],
        view: render::View::Task,
        after: Then::Nothing,
        summary: "clear the waiting flag",
        usage: "jobsdone task unwait ID",
        detail: "Sends task.update with waiting false.",
    },
    Spec {
        name: "task due",
        op: "task.update",
        options: &[],
        view: render::View::Task,
        after: Then::Nothing,
        summary: "set or clear a task's deadline",
        usage: "jobsdone task due ID DATE\n       jobsdone task due ID none",
        detail: "\
Sends task.update with due. `none`, `clear` or `-` clears it. A due date is
a deadline: it surfaces the task in the morning review and does not put it
on a day.",
    },
    Spec {
        name: "task remind",
        op: "task.update",
        options: &[],
        view: render::View::Task,
        after: Then::Nothing,
        summary: "set or clear a task's reminder",
        usage: "jobsdone task remind ID DATE\n       jobsdone task remind ID none",
        detail: "\
Sends task.update with remind. `none`, `clear` or `-` clears it. A reminder
is a nudge on one day and does not put the task on a day.",
    },
    Spec {
        name: "task close",
        op: "task.close",
        options: &[],
        view: render::View::Tasks,
        after: Then::Nothing,
        summary: "close one or several tasks at once",
        usage: "jobsdone task close ID [ID ...]",
        detail: "\
Atomic: one change, one undo entry, and a rejection anywhere writes nothing.
Closing a backlog task moves it onto today first, as the app does.

JSON fields: ids (array of integers, distinct).",
    },
    Spec {
        name: "task reopen",
        op: "task.reopen",
        options: &[],
        view: render::View::Tasks,
        after: Then::Nothing,
        summary: "reopen one or several closed tasks",
        usage: "jobsdone task reopen ID [ID ...]",
        detail: "JSON fields: ids (array of integers, distinct).",
    },
    Spec {
        name: "task move",
        op: "task.move",
        options: &[("--to", true), ("--place", true), ("--day", true), ("--today", false), ("--tomorrow", false), ("--backlog", false)],
        view: render::View::Tasks,
        after: Then::Nothing,
        summary: "move any number of tasks to a day or the backlog",
        usage: "jobsdone task move ID [ID ...] --to today|backlog|DATE",
        detail: "\
Every id in one invocation, one change and one undo entry. Moving a waiting
task onto a day clears the waiting flag.

JSON fields: ids (array of integers, distinct), place (place).",
    },
    Spec {
        name: "task reorder",
        op: "task.reorder",
        options: &[("--position", true), ("--before", true), ("--after", true), ("--top", false)],
        view: render::View::Order,
        after: Then::Nothing,
        summary: "put one task somewhere else in its place",
        usage: "jobsdone task reorder ID --position N | --before ID | --after ID | --top",
        detail: "\
Exactly one of the four. Positions count the open tasks of the place from
one. The reference task must be open and in the same place.

JSON fields: id (integer), and exactly one of position (integer), before
(id), after (id).",
    },
    Spec {
        name: "task delete",
        op: "task.delete",
        options: &[("--yes", false)],
        view: render::View::Tasks,
        after: Then::Nothing,
        summary: "delete one or several tasks",
        usage: "jobsdone task delete ID [ID ...] [--yes]",
        detail: "\
--yes confirms a deletion that was already asked for; it does not widen what
is deleted. It is required only while the confirm-before-delete setting is
on. One undo entry takes the whole thing back.

JSON fields: ids (array of integers, distinct), confirm (bool).",
    },
    Spec {
        name: "day get",
        op: "day.get",
        options: &[],
        view: render::View::Day,
        after: Then::Nothing,
        summary: "the plan for a day: focus, plan, done and moved",
        usage: "jobsdone day get [DATE]",
        detail: "\
With no date, today, which is the configured working day rather than the
calendar date.

JSON fields: day (date).",
    },
    Spec {
        name: "day reorder",
        op: "day.reorder",
        options: &[("--order", true)],
        view: render::View::Order,
        after: Then::Nothing,
        summary: "give a day its whole order at once",
        usage: "jobsdone day reorder [DATE] --order ID,ID,ID",
        detail: "\
The order must be exactly the open live tasks of that day: a duplicate, a
missing id, an extra id or an id from another place is refused and nothing
is written. Read the day first.

JSON fields: place (place), ids (array of integers).",
    },
    Spec {
        name: "backlog get",
        op: "backlog.get",
        options: &[],
        view: render::View::Backlog,
        after: Then::Nothing,
        summary: "the backlog, its waiting tasks and its schedules",
        usage: "jobsdone backlog get",
        detail: "JSON fields: none.",
    },
    Spec {
        name: "backlog reorder",
        op: "day.reorder",
        options: &[("--order", true)],
        view: render::View::Order,
        after: Then::Nothing,
        summary: "give the backlog its whole order at once",
        usage: "jobsdone backlog reorder --order ID,ID,ID",
        detail: "\
day.reorder with a backlog place. The order must be exactly the open live
backlog tasks.

JSON fields: place (place), ids (array of integers).",
    },
    Spec {
        name: "history list",
        op: "history.list",
        options: &[("--limit", true)],
        view: render::View::History,
        after: Then::Nothing,
        summary: "the days that have something on them, newest first",
        usage: "jobsdone history list [--limit N]",
        detail: "\
Broken into later, this week, last week and earlier, the way the app's day
list is.

JSON fields: limit (integer).",
    },
    Spec {
        name: "search",
        op: "search",
        options: &[],
        view: render::View::Search,
        after: Then::Nothing,
        summary: "find live tasks whose title contains some text",
        usage: "jobsdone search TEXT",
        detail: "\
Case-insensitive, open tasks then closed ones. Notes are not searched.

JSON fields: text (string).",
    },
    Spec {
        name: "review get",
        op: "review.get",
        options: &[],
        view: render::View::Review,
        after: Then::Nothing,
        summary: "the morning review's pile and surfaced tasks, without starting it",
        usage: "jobsdone review get",
        detail: "\
Reading never spends the once-a-day gate and never makes a recurring copy.

JSON fields: none.",
    },
    Spec {
        name: "review start",
        op: "review.start",
        options: &[],
        view: render::View::Review,
        after: Then::Nothing,
        summary: "start the morning review, advancing its once-a-day gate",
        usage: "jobsdone review start",
        detail: "\
Use it only when starting the review is the point; `review get` reads the
review without advancing it. Pushes no undo entry.

JSON fields: none.",
    },
    Spec {
        name: "refresh",
        op: "refresh",
        options: &[],
        view: render::View::Refresh,
        after: Then::Nothing,
        summary: "make the recurring copies that are due",
        usage: "jobsdone refresh",
        detail: "\
The one read-like command that writes. Every response's
context.recurrence_pending says whether this would do anything. Pushes no
undo entry.

JSON fields: none.",
    },
    Spec {
        name: "schedule list",
        op: "schedule.list",
        options: &[("--all", false)],
        view: render::View::Schedules,
        after: Then::Nothing,
        summary: "the repeat schedules",
        usage: "jobsdone schedule list [--all]",
        detail: "\
Live schedules; --all includes the stopped ones.

JSON fields: include_stopped (bool).",
    },
    Spec {
        name: "schedule get",
        op: "schedule.get",
        options: &[],
        view: render::View::Schedule,
        after: Then::Nothing,
        summary: "one schedule and the dates it falls on next",
        usage: "jobsdone schedule get ID",
        detail: "JSON fields: id (integer).",
    },
    Spec {
        name: "schedule create",
        op: "schedule.create",
        options: &[("--rule", true)],
        view: render::View::Schedule,
        after: Then::Nothing,
        summary: "give a task a repeat rule",
        usage: "jobsdone schedule create TASK_ID RULE",
        detail: "\
RULE is one of: workdays, daily, weekly:mon,thu, monthly:15, monthly:last,
every:2w:2026-09-15. The task becomes the schedule's first copy and stays
where it is.

JSON fields: task (integer), rule (rule).",
    },
    Spec {
        name: "schedule update",
        op: "schedule.update",
        options: &[("--rule", true), ("--title", true)],
        view: render::View::Schedule,
        after: Then::Nothing,
        summary: "change a schedule's rule or the title its copies get",
        usage: "jobsdone schedule update ID [--rule RULE] [--title TEXT]",
        detail: "\
Future copies only; the copies that exist stay as they are.

JSON fields: id (integer), rule (rule), title (string).",
    },
    Spec {
        name: "schedule stop",
        op: "schedule.stop",
        options: &[],
        view: render::View::Schedule,
        after: Then::Nothing,
        summary: "stop a schedule making new copies",
        usage: "jobsdone schedule stop ID",
        detail: "The copies that exist stay where they are.\n\nJSON fields: id (integer).",
    },
    Spec {
        name: "schedule preview",
        op: "schedule.preview",
        options: &[
            ("--rule", true),
            ("--schedule", true),
            ("--after", true),
            ("--count", true),
        ],
        view: render::View::Preview,
        after: Then::Nothing,
        summary: "the dates a rule would fall on, without saving it",
        usage: "jobsdone schedule preview RULE [--after DATE] [--count N]\n       jobsdone schedule preview --schedule ID [--after DATE] [--count N]",
        detail: "\
Writes nothing.

JSON fields: exactly one of rule (rule) or schedule (integer); after (date),
count (integer 1..=50).",
    },
    Spec {
        name: "note list",
        op: "note.list",
        options: &[("--bodies", false), ("--archived", false)],
        view: render::View::Notes,
        after: Then::Nothing,
        summary: "the notes, newest first",
        usage: "jobsdone note list [--bodies] [--archived]",
        detail: "\
First lines only unless --bodies. --archived lists the archived notes
instead, the most recently archived first.

JSON fields: include_body (bool), archived (bool).",
    },
    Spec {
        name: "note get",
        op: "note.get",
        options: &[],
        view: render::View::Note,
        after: Then::Nothing,
        summary: "one note in full",
        usage: "jobsdone note get ID",
        detail: "The body is written out exactly.\n\nJSON fields: id (integer).",
    },
    Spec {
        name: "note create",
        op: "note.create",
        options: &[("--stdin", false), ("--file", true)],
        view: render::View::Note,
        after: Then::Nothing,
        summary: "add a note",
        usage: "jobsdone note create [TEXT]\n       jobsdone note create --stdin\n       jobsdone note create --file PATH",
        detail: "\
--stdin and --file carry the text exactly: newlines, tabs and any Unicode.
With nothing at all the note starts empty.

JSON fields: body (string).",
    },
    Spec {
        name: "note update",
        op: "note.update",
        options: &[("--stdin", false), ("--file", true)],
        view: render::View::Note,
        after: Then::Nothing,
        summary: "replace a note's text",
        usage: "jobsdone note update ID TEXT\n       jobsdone note update ID --stdin\n       jobsdone note update ID --file PATH",
        detail: "\
The whole body is replaced. --stdin and --file carry it exactly.

JSON fields: id (integer), body (string).",
    },
    Spec {
        name: "note delete",
        op: "note.delete",
        options: &[("--yes", false)],
        view: render::View::Note,
        after: Then::Nothing,
        summary: "delete a note",
        usage: "jobsdone note delete ID [--yes]",
        detail: "\
--yes confirms a deletion that was already asked for. It is required only
while the confirm-before-delete setting is on.

JSON fields: id (integer), confirm (bool).",
    },
    Spec {
        name: "note archive",
        op: "note.archive",
        options: &[],
        view: render::View::Note,
        after: Then::Nothing,
        summary: "put a note out of the list without deleting it",
        usage: "jobsdone note archive ID",
        detail: "\
An archived note is kept and can still be read, changed and deleted.
note list --archived shows it.

JSON fields: id (integer).",
    },
    Spec {
        name: "note unarchive",
        op: "note.unarchive",
        options: &[],
        view: render::View::Note,
        after: Then::Nothing,
        summary: "bring an archived note back to the list",
        usage: "jobsdone note unarchive ID",
        detail: "JSON fields: id (integer).",
    },
    Spec {
        name: "note spell-check",
        op: "note.spell_check",
        options: &[],
        view: render::View::Note,
        after: Then::Nothing,
        summary: "take a note out of spell checking, or put it back",
        usage: "jobsdone note spell-check ID on|off",
        detail: "\
Off leaves the note unmarked in the window while spell_check_notes is on;
every other note is still checked. note check still checks it when asked.

JSON fields: id (integer), check (bool).",
    },
    Spec {
        name: "note check",
        op: "note.check",
        options: &[("--stdin", false), ("--file", true), ("--text", true), ("--suggestions", false)],
        view: render::View::NoteCheck,
        after: Then::Nothing,
        summary: "spell-check a note or some text, changing nothing",
        usage: "jobsdone note check ID [--suggestions]\n       jobsdone note check --stdin [--suggestions]\n       jobsdone note check --text TEXT [--suggestions]",
        detail: "\
US English, offline, with the personal dictionary applied. Offsets count
grapheme clusters. Nothing is written and no text is changed.

JSON fields: exactly one of note (integer) or text (string); suggestions
(bool).",
    },
    Spec {
        name: "note copy",
        op: "note.get",
        options: &[],
        view: render::View::NoteCopy,
        after: Then::CopyNote,
        summary: "put a note on the desktop clipboard",
        usage: "jobsdone note copy ID",
        detail: "\
Reads the note and hands its body to wl-copy on Wayland or xclip on X11.
The only command that does anything outside the database.

JSON fields: id (integer).",
    },
    Spec {
        name: "settings get",
        op: "settings.get",
        options: &[],
        view: render::View::Settings,
        after: Then::Nothing,
        summary: "every setting and its value",
        usage: "jobsdone settings get",
        detail: "JSON fields: none.",
    },
    Spec {
        name: "settings set",
        op: "settings.set",
        options: &[],
        view: render::View::Settings,
        after: Then::Nothing,
        summary: "change one or several settings",
        usage: "jobsdone settings set KEY=VALUE [KEY=VALUE ...]",
        detail: "\
Keys: day_starts_at 0-23, week_starts_on monday|sunday, work_days mon,tue,…,
review_opens_itself, due_ahead_days 0-365, backfill_days 0-365,
pile_horizon_days 0-3650, floating_window, window_size WxH, mouse,
message_seconds 0-60, date_style locale|day_first|month_first,
confirm_delete, spell_check_notes. Booleans take true/false, on/off, yes/no.

A value outside its range is refused rather than held to the range. Changing
the window settings does not touch the window manager: run `jobsdone
desktop` afterwards, which is what the summary says to do.

JSON fields: settings (object of the keys above, typed).",
    },
    Spec {
        name: "dictionary list",
        op: "dictionary.list",
        options: &[],
        view: render::View::Dictionary,
        after: Then::Nothing,
        summary: "the personal spelling dictionary",
        usage: "jobsdone dictionary list",
        detail: "JSON fields: none.",
    },
    Spec {
        name: "dictionary add",
        op: "dictionary.add",
        options: &[],
        view: render::View::Word,
        after: Then::Nothing,
        summary: "accept a word in every note",
        usage: "jobsdone dictionary add WORD",
        detail: "\
One word. Capitalisation is kept for display and ignored when matching.
Adding a word never changes a note's text.

JSON fields: word (string).",
    },
    Spec {
        name: "dictionary update",
        op: "dictionary.update",
        options: &[],
        view: render::View::Word,
        after: Then::Nothing,
        summary: "change how a dictionary word is written",
        usage: "jobsdone dictionary update KEY WORD",
        detail: "\
KEY is the existing entry, matched whatever its capitalisation.

JSON fields: key (string), word (string).",
    },
    Spec {
        name: "dictionary delete",
        op: "dictionary.delete",
        options: &[],
        view: render::View::Word,
        after: Then::Nothing,
        summary: "remove a word from the dictionary",
        usage: "jobsdone dictionary delete KEY",
        detail: "\
The word can be flagged again afterwards; built-in words stay accepted.

JSON fields: key (string).",
    },
    Spec {
        name: "undo get",
        op: "undo.get",
        options: &[],
        view: render::View::Undo,
        after: Then::Nothing,
        summary: "what undo would take back next",
        usage: "jobsdone undo get",
        detail: "\
The undo history is shared with the app and with every other invocation.

JSON fields: none.",
    },
    Spec {
        name: "undo apply",
        op: "undo.apply",
        options: &[("--entry", true)],
        view: render::View::Undone,
        after: Then::Nothing,
        summary: "take back the last change",
        usage: "jobsdone undo apply [--entry ID]",
        detail: "\
--entry guards against taking back something newer that arrived in between:
read `undo get`, then pass its id. A mismatch is a conflict and writes
nothing.

JSON fields: expected_id (integer).",
    },
    Spec {
        name: "desktop",
        op: "",
        options: &[("--floating", false), ("--tiled", false), ("--size", true)],
        view: render::View::Nothing,
        after: Then::Nothing,
        summary: "write the window rule the window manager reads",
        usage: "jobsdone desktop [--floating | --tiled] [--size WxH]",
        detail: "\
Puts the flags in the settings, writes the window rule and reloads it. A
flag left off keeps the setting as it is. Touches no other part of the
program: it makes no recurring copies and opens no review.",
    },
    Spec {
        name: "help",
        op: "",
        options: &[],
        view: render::View::Nothing,
        after: Then::Nothing,
        summary: "help for the program or for one command",
        usage: "jobsdone help [COMMAND]",
        detail: "",
    },
    ]
}

/// Every command the program takes, in the order the help lists them.
pub fn commands() -> (specs: &'static [Spec])
    ensures
        specs@ == command_table(),
{
    &[
    Spec {
        name: "task list",
        op: "task.list",
        options: &[("--place", true), ("--day", true), ("--today", false), ("--tomorrow", false), ("--backlog", false), ("--state", true), ("--open", false), ("--closed", false), ("--all", false), ("--focus", false), ("--waiting", false)],
        view: render::View::TaskList,
        after: Then::Nothing,
        summary: "list tasks, in a place or everywhere",
        usage: "jobsdone task list [--today | --backlog | --day DATE] [--open | --closed | --all]",
        detail: "\
Days in ascending order and then the backlog, each in position order.
With no place, every place. --focus and --waiting narrow it further.

JSON fields: place (place), state (\"open\"|\"closed\"|\"all\", default
\"all\"), focus (bool), waiting (bool).",
    },
    Spec {
        name: "task get",
        op: "task.get",
        options: &[],
        view: render::View::Task,
        after: Then::Nothing,
        summary: "show one task in full",
        usage: "jobsdone task get ID",
        detail: "JSON fields: id (integer).",
    },
    Spec {
        name: "task add",
        op: "task.add",
        options: &[("--place", true), ("--day", true), ("--today", false), ("--tomorrow", false), ("--backlog", false), ("--focus", false), ("--waiting", false), ("--due", true), ("--remind", true), ("--repeat", true), ("--position", true), ("--before", true), ("--after", true), ("--top", false)],
        view: render::View::Task,
        after: Then::Nothing,
        summary: "add a task, with every property it should start with",
        usage: "jobsdone task add TITLE [--today | --backlog | --day DATE] [--focus] \\\n            [--waiting] [--due DATE] [--remind DATE] [--repeat RULE] \\\n            [--position N | --before ID | --after ID | --top]",
        detail: "\
Everything the task should start with goes in one invocation: it commits as
one change and takes one undo entry. Without a place the task goes to the
backlog. --focus needs a day and --waiting needs the backlog.

JSON fields: title (string), place (place), focus (bool), waiting (bool),
due (date), remind (date), repeat (rule), and one of position (integer),
before (id), after (id).",
    },
    Spec {
        name: "task update",
        op: "task.update",
        options: &[("--title", true), ("--scope", true), ("--place", true), ("--day", true), ("--today", false), ("--tomorrow", false), ("--backlog", false), ("--focus", false), ("--no-focus", false), ("--waiting", false), ("--no-waiting", false), ("--due", true), ("--clear-due", false), ("--remind", true), ("--clear-remind", false), ("--position", true)],
        view: render::View::Task,
        after: Then::Nothing,
        summary: "change any number of a task's properties at once",
        usage: "jobsdone task update ID [--title TEXT [--scope this|future]] \\\n            [--today | --backlog | --day DATE] [--focus | --no-focus] \\\n            [--waiting | --no-waiting] [--due DATE | --clear-due] \\\n            [--remind DATE | --clear-remind] [--position N]",
        detail: "\
One task, any number of properties, one change and one undo entry. At least
one property is required. --scope is required with --title on a recurring
copy: this renames the copy, future renames the schedule as well.

JSON fields: id (integer), title (string), title_scope (\"this\"|\"future\"),
place (place), focus (bool), waiting (bool), due (date or null), remind
(date or null), position (integer). null clears a date; leaving the field
out keeps it.",
    },
    Spec {
        name: "task rename",
        op: "task.update",
        options: &[("--scope", true)],
        view: render::View::Task,
        after: Then::Nothing,
        summary: "rename a task (task update --title)",
        usage: "jobsdone task rename ID TITLE [--scope this|future]",
        detail: "Sends task.update with title, and title_scope where --scope is given.",
    },
    Spec {
        name: "task focus",
        op: "task.update",
        options: &[],
        view: render::View::Task,
        after: Then::Nothing,
        summary: "mark a task on a day as a focus item",
        usage: "jobsdone task focus ID",
        detail: "Sends task.update with focus true. Focus belongs to tasks on a day.",
    },
    Spec {
        name: "task unfocus",
        op: "task.update",
        options: &[],
        view: render::View::Task,
        after: Then::Nothing,
        summary: "take the focus mark off a task",
        usage: "jobsdone task unfocus ID",
        detail: "Sends task.update with focus false.",
    },
    Spec {
        name: "task waiting",
        op: "task.update",
        options: &[],
        view: render::View::Task,
        after: Then::Nothing,
        summary: "flag a task as waiting on someone else",
        usage: "jobsdone task waiting ID",
        detail: "\
Sends task.update with waiting true. A task on a day moves to the backlog,
which is what the app's w does.",
    },
    Spec {
        name: "task unwait",
        op: "task.update",
        options: &[],
        view: render::View::Task,
        after: Then::Nothing,
        summary: "clear the waiting flag",
        usage: "jobsdone task unwait ID",
        detail: "Sends task.update with waiting false.",
    },
    Spec {
        name: "task due",
        op: "task.update",
        options: &[],
        view: render::View::Task,
        after: Then::Nothing,
        summary: "set or clear a task's deadline",
        usage: "jobsdone task due ID DATE\n       jobsdone task due ID none",
        detail: "\
Sends task.update with due. `none`, `clear` or `-` clears it. A due date is
a deadline: it surfaces the task in the morning review and does not put it
on a day.",
    },
    Spec {
        name: "task remind",
        op: "task.update",
        options: &[],
        view: render::View::Task,
        after: Then::Nothing,
        summary: "set or clear a task's reminder",
        usage: "jobsdone task remind ID DATE\n       jobsdone task remind ID none",
        detail: "\
Sends task.update with remind. `none`, `clear` or `-` clears it. A reminder
is a nudge on one day and does not put the task on a day.",
    },
    Spec {
        name: "task close",
        op: "task.close",
        options: &[],
        view: render::View::Tasks,
        after: Then::Nothing,
        summary: "close one or several tasks at once",
        usage: "jobsdone task close ID [ID ...]",
        detail: "\
Atomic: one change, one undo entry, and a rejection anywhere writes nothing.
Closing a backlog task moves it onto today first, as the app does.

JSON fields: ids (array of integers, distinct).",
    },
    Spec {
        name: "task reopen",
        op: "task.reopen",
        options: &[],
        view: render::View::Tasks,
        after: Then::Nothing,
        summary: "reopen one or several closed tasks",
        usage: "jobsdone task reopen ID [ID ...]",
        detail: "JSON fields: ids (array of integers, distinct).",
    },
    Spec {
        name: "task move",
        op: "task.move",
        options: &[("--to", true), ("--place", true), ("--day", true), ("--today", false), ("--tomorrow", false), ("--backlog", false)],
        view: render::View::Tasks,
        after: Then::Nothing,
        summary: "move any number of tasks to a day or the backlog",
        usage: "jobsdone task move ID [ID ...] --to today|backlog|DATE",
        detail: "\
Every id in one invocation, one change and one undo entry. Moving a waiting
task onto a day clears the waiting flag.

JSON fields: ids (array of integers, distinct), place (place).",
    },
    Spec {
        name: "task reorder",
        op: "task.reorder",
        options: &[("--position", true), ("--before", true), ("--after", true), ("--top", false)],
        view: render::View::Order,
        after: Then::Nothing,
        summary: "put one task somewhere else in its place",
        usage: "jobsdone task reorder ID --position N | --before ID | --after ID | --top",
        detail: "\
Exactly one of the four. Positions count the open tasks of the place from
one. The reference task must be open and in the same place.

JSON fields: id (integer), and exactly one of position (integer), before
(id), after (id).",
    },
    Spec {
        name: "task delete",
        op: "task.delete",
        options: &[("--yes", false)],
        view: render::View::Tasks,
        after: Then::Nothing,
        summary: "delete one or several tasks",
        usage: "jobsdone task delete ID [ID ...] [--yes]",
        detail: "\
--yes confirms a deletion that was already asked for; it does not widen what
is deleted. It is required only while the confirm-before-delete setting is
on. One undo entry takes the whole thing back.

JSON fields: ids (array of integers, distinct), confirm (bool).",
    },
    Spec {
        name: "day get",
        op: "day.get",
        options: &[],
        view: render::View::Day,
        after: Then::Nothing,
        summary: "the plan for a day: focus, plan, done and moved",
        usage: "jobsdone day get [DATE]",
        detail: "\
With no date, today, which is the configured working day rather than the
calendar date.

JSON fields: day (date).",
    },
    Spec {
        name: "day reorder",
        op: "day.reorder",
        options: &[("--order", true)],
        view: render::View::Order,
        after: Then::Nothing,
        summary: "give a day its whole order at once",
        usage: "jobsdone day reorder [DATE] --order ID,ID,ID",
        detail: "\
The order must be exactly the open live tasks of that day: a duplicate, a
missing id, an extra id or an id from another place is refused and nothing
is written. Read the day first.

JSON fields: place (place), ids (array of integers).",
    },
    Spec {
        name: "backlog get",
        op: "backlog.get",
        options: &[],
        view: render::View::Backlog,
        after: Then::Nothing,
        summary: "the backlog, its waiting tasks and its schedules",
        usage: "jobsdone backlog get",
        detail: "JSON fields: none.",
    },
    Spec {
        name: "backlog reorder",
        op: "day.reorder",
        options: &[("--order", true)],
        view: render::View::Order,
        after: Then::Nothing,
        summary: "give the backlog its whole order at once",
        usage: "jobsdone backlog reorder --order ID,ID,ID",
        detail: "\
day.reorder with a backlog place. The order must be exactly the open live
backlog tasks.

JSON fields: place (place), ids (array of integers).",
    },
    Spec {
        name: "history list",
        op: "history.list",
        options: &[("--limit", true)],
        view: render::View::History,
        after: Then::Nothing,
        summary: "the days that have something on them, newest first",
        usage: "jobsdone history list [--limit N]",
        detail: "\
Broken into later, this week, last week and earlier, the way the app's day
list is.

JSON fields: limit (integer).",
    },
    Spec {
        name: "search",
        op: "search",
        options: &[],
        view: render::View::Search,
        after: Then::Nothing,
        summary: "find live tasks whose title contains some text",
        usage: "jobsdone search TEXT",
        detail: "\
Case-insensitive, open tasks then closed ones. Notes are not searched.

JSON fields: text (string).",
    },
    Spec {
        name: "review get",
        op: "review.get",
        options: &[],
        view: render::View::Review,
        after: Then::Nothing,
        summary: "the morning review's pile and surfaced tasks, without starting it",
        usage: "jobsdone review get",
        detail: "\
Reading never spends the once-a-day gate and never makes a recurring copy.

JSON fields: none.",
    },
    Spec {
        name: "review start",
        op: "review.start",
        options: &[],
        view: render::View::Review,
        after: Then::Nothing,
        summary: "start the morning review, advancing its once-a-day gate",
        usage: "jobsdone review start",
        detail: "\
Use it only when starting the review is the point; `review get` reads the
review without advancing it. Pushes no undo entry.

JSON fields: none.",
    },
    Spec {
        name: "refresh",
        op: "refresh",
        options: &[],
        view: render::View::Refresh,
        after: Then::Nothing,
        summary: "make the recurring copies that are due",
        usage: "jobsdone refresh",
        detail: "\
The one read-like command that writes. Every response's
context.recurrence_pending says whether this would do anything. Pushes no
undo entry.

JSON fields: none.",
    },
    Spec {
        name: "schedule list",
        op: "schedule.list",
        options: &[("--all", false)],
        view: render::View::Schedules,
        after: Then::Nothing,
        summary: "the repeat schedules",
        usage: "jobsdone schedule list [--all]",
        detail: "\
Live schedules; --all includes the stopped ones.

JSON fields: include_stopped (bool).",
    },
    Spec {
        name: "schedule get",
        op: "schedule.get",
        options: &[],
        view: render::View::Schedule,
        after: Then::Nothing,
        summary: "one schedule and the dates it falls on next",
        usage: "jobsdone schedule get ID",
        detail: "JSON fields: id (integer).",
    },
    Spec {
        name: "schedule create",
        op: "schedule.create",
        options: &[("--rule", true)],
        view: render::View::Schedule,
        after: Then::Nothing,
        summary: "give a task a repeat rule",
        usage: "jobsdone schedule create TASK_ID RULE",
        detail: "\
RULE is one of: workdays, daily, weekly:mon,thu, monthly:15, monthly:last,
every:2w:2026-09-15. The task becomes the schedule's first copy and stays
where it is.

JSON fields: task (integer), rule (rule).",
    },
    Spec {
        name: "schedule update",
        op: "schedule.update",
        options: &[("--rule", true), ("--title", true)],
        view: render::View::Schedule,
        after: Then::Nothing,
        summary: "change a schedule's rule or the title its copies get",
        usage: "jobsdone schedule update ID [--rule RULE] [--title TEXT]",
        detail: "\
Future copies only; the copies that exist stay as they are.

JSON fields: id (integer), rule (rule), title (string).",
    },
    Spec {
        name: "schedule stop",
        op: "schedule.stop",
        options: &[],
        view: render::View::Schedule,
        after: Then::Nothing,
        summary: "stop a schedule making new copies",
        usage: "jobsdone schedule stop ID",
        detail: "The copies that exist stay where they are.\n\nJSON fields: id (integer).",
    },
    Spec {
        name: "schedule preview",
        op: "schedule.preview",
        options: &[
            ("--rule", true),
            ("--schedule", true),
            ("--after", true),
            ("--count", true),
        ],
        view: render::View::Preview,
        after: Then::Nothing,
        summary: "the dates a rule would fall on, without saving it",
        usage: "jobsdone schedule preview RULE [--after DATE] [--count N]\n       jobsdone schedule preview --schedule ID [--after DATE] [--count N]",
        detail: "\
Writes nothing.

JSON fields: exactly one of rule (rule) or schedule (integer); after (date),
count (integer 1..=50).",
    },
    Spec {
        name: "note list",
        op: "note.list",
        options: &[("--bodies", false), ("--archived", false)],
        view: render::View::Notes,
        after: Then::Nothing,
        summary: "the notes, newest first",
        usage: "jobsdone note list [--bodies] [--archived]",
        detail: "\
First lines only unless --bodies. --archived lists the archived notes
instead, the most recently archived first.

JSON fields: include_body (bool), archived (bool).",
    },
    Spec {
        name: "note get",
        op: "note.get",
        options: &[],
        view: render::View::Note,
        after: Then::Nothing,
        summary: "one note in full",
        usage: "jobsdone note get ID",
        detail: "The body is written out exactly.\n\nJSON fields: id (integer).",
    },
    Spec {
        name: "note create",
        op: "note.create",
        options: &[("--stdin", false), ("--file", true)],
        view: render::View::Note,
        after: Then::Nothing,
        summary: "add a note",
        usage: "jobsdone note create [TEXT]\n       jobsdone note create --stdin\n       jobsdone note create --file PATH",
        detail: "\
--stdin and --file carry the text exactly: newlines, tabs and any Unicode.
With nothing at all the note starts empty.

JSON fields: body (string).",
    },
    Spec {
        name: "note update",
        op: "note.update",
        options: &[("--stdin", false), ("--file", true)],
        view: render::View::Note,
        after: Then::Nothing,
        summary: "replace a note's text",
        usage: "jobsdone note update ID TEXT\n       jobsdone note update ID --stdin\n       jobsdone note update ID --file PATH",
        detail: "\
The whole body is replaced. --stdin and --file carry it exactly.

JSON fields: id (integer), body (string).",
    },
    Spec {
        name: "note delete",
        op: "note.delete",
        options: &[("--yes", false)],
        view: render::View::Note,
        after: Then::Nothing,
        summary: "delete a note",
        usage: "jobsdone note delete ID [--yes]",
        detail: "\
--yes confirms a deletion that was already asked for. It is required only
while the confirm-before-delete setting is on.

JSON fields: id (integer), confirm (bool).",
    },
    Spec {
        name: "note archive",
        op: "note.archive",
        options: &[],
        view: render::View::Note,
        after: Then::Nothing,
        summary: "put a note out of the list without deleting it",
        usage: "jobsdone note archive ID",
        detail: "\
An archived note is kept and can still be read, changed and deleted.
note list --archived shows it.

JSON fields: id (integer).",
    },
    Spec {
        name: "note unarchive",
        op: "note.unarchive",
        options: &[],
        view: render::View::Note,
        after: Then::Nothing,
        summary: "bring an archived note back to the list",
        usage: "jobsdone note unarchive ID",
        detail: "JSON fields: id (integer).",
    },
    Spec {
        name: "note spell-check",
        op: "note.spell_check",
        options: &[],
        view: render::View::Note,
        after: Then::Nothing,
        summary: "take a note out of spell checking, or put it back",
        usage: "jobsdone note spell-check ID on|off",
        detail: "\
Off leaves the note unmarked in the window while spell_check_notes is on;
every other note is still checked. note check still checks it when asked.

JSON fields: id (integer), check (bool).",
    },
    Spec {
        name: "note check",
        op: "note.check",
        options: &[("--stdin", false), ("--file", true), ("--text", true), ("--suggestions", false)],
        view: render::View::NoteCheck,
        after: Then::Nothing,
        summary: "spell-check a note or some text, changing nothing",
        usage: "jobsdone note check ID [--suggestions]\n       jobsdone note check --stdin [--suggestions]\n       jobsdone note check --text TEXT [--suggestions]",
        detail: "\
US English, offline, with the personal dictionary applied. Offsets count
grapheme clusters. Nothing is written and no text is changed.

JSON fields: exactly one of note (integer) or text (string); suggestions
(bool).",
    },
    Spec {
        name: "note copy",
        op: "note.get",
        options: &[],
        view: render::View::NoteCopy,
        after: Then::CopyNote,
        summary: "put a note on the desktop clipboard",
        usage: "jobsdone note copy ID",
        detail: "\
Reads the note and hands its body to wl-copy on Wayland or xclip on X11.
The only command that does anything outside the database.

JSON fields: id (integer).",
    },
    Spec {
        name: "settings get",
        op: "settings.get",
        options: &[],
        view: render::View::Settings,
        after: Then::Nothing,
        summary: "every setting and its value",
        usage: "jobsdone settings get",
        detail: "JSON fields: none.",
    },
    Spec {
        name: "settings set",
        op: "settings.set",
        options: &[],
        view: render::View::Settings,
        after: Then::Nothing,
        summary: "change one or several settings",
        usage: "jobsdone settings set KEY=VALUE [KEY=VALUE ...]",
        detail: "\
Keys: day_starts_at 0-23, week_starts_on monday|sunday, work_days mon,tue,…,
review_opens_itself, due_ahead_days 0-365, backfill_days 0-365,
pile_horizon_days 0-3650, floating_window, window_size WxH, mouse,
message_seconds 0-60, date_style locale|day_first|month_first,
confirm_delete, spell_check_notes. Booleans take true/false, on/off, yes/no.

A value outside its range is refused rather than held to the range. Changing
the window settings does not touch the window manager: run `jobsdone
desktop` afterwards, which is what the summary says to do.

JSON fields: settings (object of the keys above, typed).",
    },
    Spec {
        name: "dictionary list",
        op: "dictionary.list",
        options: &[],
        view: render::View::Dictionary,
        after: Then::Nothing,
        summary: "the personal spelling dictionary",
        usage: "jobsdone dictionary list",
        detail: "JSON fields: none.",
    },
    Spec {
        name: "dictionary add",
        op: "dictionary.add",
        options: &[],
        view: render::View::Word,
        after: Then::Nothing,
        summary: "accept a word in every note",
        usage: "jobsdone dictionary add WORD",
        detail: "\
One word. Capitalisation is kept for display and ignored when matching.
Adding a word never changes a note's text.

JSON fields: word (string).",
    },
    Spec {
        name: "dictionary update",
        op: "dictionary.update",
        options: &[],
        view: render::View::Word,
        after: Then::Nothing,
        summary: "change how a dictionary word is written",
        usage: "jobsdone dictionary update KEY WORD",
        detail: "\
KEY is the existing entry, matched whatever its capitalisation.

JSON fields: key (string), word (string).",
    },
    Spec {
        name: "dictionary delete",
        op: "dictionary.delete",
        options: &[],
        view: render::View::Word,
        after: Then::Nothing,
        summary: "remove a word from the dictionary",
        usage: "jobsdone dictionary delete KEY",
        detail: "\
The word can be flagged again afterwards; built-in words stay accepted.

JSON fields: key (string).",
    },
    Spec {
        name: "undo get",
        op: "undo.get",
        options: &[],
        view: render::View::Undo,
        after: Then::Nothing,
        summary: "what undo would take back next",
        usage: "jobsdone undo get",
        detail: "\
The undo history is shared with the app and with every other invocation.

JSON fields: none.",
    },
    Spec {
        name: "undo apply",
        op: "undo.apply",
        options: &[("--entry", true)],
        view: render::View::Undone,
        after: Then::Nothing,
        summary: "take back the last change",
        usage: "jobsdone undo apply [--entry ID]",
        detail: "\
--entry guards against taking back something newer that arrived in between:
read `undo get`, then pass its id. A mismatch is a conflict and writes
nothing.

JSON fields: expected_id (integer).",
    },
    Spec {
        name: "desktop",
        op: "",
        options: &[("--floating", false), ("--tiled", false), ("--size", true)],
        view: render::View::Nothing,
        after: Then::Nothing,
        summary: "write the window rule the window manager reads",
        usage: "jobsdone desktop [--floating | --tiled] [--size WxH]",
        detail: "\
Puts the flags in the settings, writes the window rule and reloads it. A
flag left off keeps the setting as it is. Touches no other part of the
program: it makes no recurring copies and opens no review.",
    },
    Spec {
        name: "help",
        op: "",
        options: &[],
        view: render::View::Nothing,
        after: Then::Nothing,
        summary: "help for the program or for one command",
        usage: "jobsdone help [COMMAND]",
        detail: "",
    },
    ]
}

} // verus!
