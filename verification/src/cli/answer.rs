//! Every other reading of an answer: the lists, the day, the backlog,
//! history and search, schedules, notes, settings, the dictionary, the
//! undo stack, and what a mutation says it did.

use vstd::prelude::*;

use super::json::{list_view, lemma_list_view, Json, JsonView};
use super::reading::{
    at, at_of, count_text, date_text, flag_at, flag_at_of, get, get_of, group_text, is_text, lemma_add_assoc,
    lines_of, number_at, number_at_of, opt_text, or_null, place_text, right4, row_text, rows, rows_of,
    rule_text, signed_decimal, stamp_text, text_at, text_at_of, texts_of, write_count, write_date, write_group,
    write_id, write_lines, write_number, write_place, write_row, write_rule, write_stamp,
};
use crate::domain::settings::DateOrder;
use crate::text::{append_all, append_str, chars_of};

verus! {

// ---- what a mutation says it did -------------------------------------

/// What an operation did, as the word a summary opens with.
pub open spec fn said_of(op: Seq<char>) -> Seq<char> {
    if op == "task.add"@ {
        "Added"@
    } else if op == "task.update"@ {
        "Changed"@
    } else if op == "task.close"@ {
        "Closed"@
    } else if op == "task.reopen"@ {
        "Reopened"@
    } else if op == "task.move"@ {
        "Moved"@
    } else if op == "task.delete"@ {
        "Deleted"@
    } else if op == "schedule.create"@ {
        "Added a schedule"@
    } else if op == "schedule.update"@ {
        "Changed the schedule"@
    } else if op == "schedule.stop"@ {
        "Stopped the schedule"@
    } else if op == "note.create"@ {
        "Added note"@
    } else if op == "note.update"@ {
        "Rewrote note"@
    } else if op == "note.delete"@ {
        "Deleted note"@
    } else if op == "note.archive"@ {
        "Archived note"@
    } else if op == "note.unarchive"@ {
        "Unarchived note"@
    } else if op == "dictionary.add"@ {
        "Added"@
    } else if op == "dictionary.update"@ {
        "Changed"@
    } else if op == "dictionary.delete"@ {
        "Removed"@
    } else {
        "Done"@
    }
}

pub(crate) fn said(op: &str) -> (r: &'static str)
    ensures
        r@ == said_of(op@),
{
    let o = chars_of(op);
    let s = o.as_slice();
    if crate::text::is(s, "task.add") {
        "Added"
    } else if crate::text::is(s, "task.update") {
        "Changed"
    } else if crate::text::is(s, "task.close") {
        "Closed"
    } else if crate::text::is(s, "task.reopen") {
        "Reopened"
    } else if crate::text::is(s, "task.move") {
        "Moved"
    } else if crate::text::is(s, "task.delete") {
        "Deleted"
    } else if crate::text::is(s, "schedule.create") {
        "Added a schedule"
    } else if crate::text::is(s, "schedule.update") {
        "Changed the schedule"
    } else if crate::text::is(s, "schedule.stop") {
        "Stopped the schedule"
    } else if crate::text::is(s, "note.create") {
        "Added note"
    } else if crate::text::is(s, "note.update") {
        "Rewrote note"
    } else if crate::text::is(s, "note.delete") {
        "Deleted note"
    } else if crate::text::is(s, "note.archive") {
        "Archived note"
    } else if crate::text::is(s, "note.unarchive") {
        "Unarchived note"
    } else if crate::text::is(s, "dictionary.add") {
        "Added"
    } else if crate::text::is(s, "dictionary.update") {
        "Changed"
    } else if crate::text::is(s, "dictionary.delete") {
        "Removed"
    } else {
        "Done"
    }
}

/// The undo entry a mutation pushed, as the line that says how to take it
/// back; a mutation that pushed none says nothing.
pub open spec fn undo_line(data: JsonView) -> Seq<char> {
    match at_of(data, "undo"@) {
        Some(entry) => match number_at_of(entry, "id"@) {
            Some(id) => "undo: "@ + match text_at_of(entry, "label"@) {
                Some(l) => l,
                None => "that change"@,
            } + " · jobsdone undo apply --entry "@ + signed_decimal(id) + "\n"@,
            None => Seq::empty(),
        },
        None => Seq::empty(),
    }
}

pub(crate) fn write_undo_line(out: &mut Vec<char>, data: &Json)
    ensures
        final(out)@ == old(out)@ + undo_line(data@),
{
    let ghost start = out@;
    match at(data, "undo") {
        Some(entry) => match number_at(entry, "id") {
            Some(id) => {
                append_str(out, "undo: ");
                match text_at(entry, "label") {
                    Some(l) => {
                        let cs = chars_of(l.as_str());
                        append_all(out, cs.as_slice());
                    },
                    None => append_str(out, "that change"),
                }
                append_str(out, " · jobsdone undo apply --entry ");
                write_number(out, id as i128);
                append_str(out, "\n");
                assert(out@ =~= start + undo_line(data@));
            },
            None => {
                assert(start + undo_line(data@) =~= start);
            },
        },
        None => {
            assert(start + undo_line(data@) =~= start);
        },
    }
}

/// A text field or nothing.
pub open spec fn text_or_empty(v: JsonView, key: Seq<char>) -> Seq<char> {
    match text_at_of(v, key) {
        Some(t) => t,
        None => Seq::empty(),
    }
}

/// A number field or zero.
pub open spec fn number_or_zero(v: JsonView, key: Seq<char>) -> int {
    match number_at_of(v, key) {
        Some(n) => n,
        None => 0,
    }
}

pub(crate) fn write_text_field(out: &mut Vec<char>, v: &Json, key: &str)
    ensures
        final(out)@ == old(out)@ + text_or_empty(v@, key@),
{
    match text_at(v, key) {
        Some(t) => {
            let cs = chars_of(t.as_str());
            append_all(out, cs.as_slice());
        },
        None => {
            assert(old(out)@ + text_or_empty(v@, key@) =~= old(out)@);
        },
    }
}

pub(crate) fn number_field(v: &Json, key: &str) -> (n: i64)
    ensures
        n == number_or_zero(v@, key@),
{
    match number_at(v, key) {
        Some(n) => n,
        None => 0,
    }
}

// ---- schedules -------------------------------------------------------

/// The start of a schedule's line: its id, its title and its rule.
pub open spec fn schedule_head(s: JsonView) -> Seq<char> {
    "  "@ + right4(signed_decimal(number_or_zero(s, "id"@))) + "  "@ + text_or_empty(s, "title"@) + " · "@ + match at_of(
        s,
        "rule"@,
    ) {
        Some(r) => rule_text(r),
        None => Seq::empty(),
    }
}

/// How many copies a schedule made, where the answer says.
pub open spec fn schedule_copies(s: JsonView) -> Seq<char> {
    match number_at_of(s, "copies"@) {
        Some(c) => " · "@ + count_text(c, "copy"@, "copies"@),
        None => Seq::empty(),
    }
}

/// When a schedule stopped, where it did.
pub open spec fn schedule_stopped(s: JsonView, today: Option<Seq<char>>, order: DateOrder) -> Seq<char> {
    match text_at_of(s, "stopped_on"@) {
        Some(d) => " · stopped "@ + date_text(d, today, order),
        None => Seq::empty(),
    }
}

/// The line a schedule is: its id, its title and its rule, and how many
/// copies it made and when it stopped, where the answer says.
pub open spec fn schedule_line(s: JsonView, today: Option<Seq<char>>, order: DateOrder) -> Seq<char> {
    schedule_head(s) + schedule_copies(s) + schedule_stopped(s, today, order)
}

fn write_schedule_head(out: &mut Vec<char>, s: &Json)
    ensures
        final(out)@ == old(out)@ + schedule_head(s@),
{
    let ghost start = out@;
    append_str(out, "  ");
    write_id(out, number_field(s, "id"));
    append_str(out, "  ");
    write_text_field(out, s, "title");
    append_str(out, " · ");
    match at(s, "rule") {
        Some(r) => write_rule(out, r),
        None => {},
    }
    assert(out@ =~= start + schedule_head(s@));
}

fn write_schedule_copies(out: &mut Vec<char>, s: &Json)
    ensures
        final(out)@ == old(out)@ + schedule_copies(s@),
{
    let ghost start = out@;
    match number_at(s, "copies") {
        Some(c) => {
            append_str(out, " · ");
            write_count(out, c, "copy", "copies");
            assert(out@ =~= start + schedule_copies(s@));
        },
        None => {
            assert(start + schedule_copies(s@) =~= start);
        },
    }
}

fn write_schedule_stopped(out: &mut Vec<char>, s: &Json, today: Option<&String>, order: DateOrder)
    ensures
        final(out)@ == old(out)@ + schedule_stopped(s@, opt_text(today), order),
{
    let ghost start = out@;
    match text_at(s, "stopped_on") {
        Some(d) => {
            append_str(out, " · stopped ");
            write_date(out, d.as_str(), today, order);
            assert(out@ =~= start + schedule_stopped(s@, opt_text(today), order));
        },
        None => {
            assert(start + schedule_stopped(s@, opt_text(today), order) =~= start);
        },
    }
}

pub(crate) fn write_schedule_line(out: &mut Vec<char>, s: &Json, today: Option<&String>, order: DateOrder)
    ensures
        final(out)@ == old(out)@ + schedule_line(s@, opt_text(today), order),
{
    let ghost start = out@;
    write_schedule_head(out, s);
    write_schedule_copies(out, s);
    proof {
        lemma_add_assoc(start, schedule_head(s@), schedule_copies(s@));
    }
    write_schedule_stopped(out, s, today, order);
    proof {
        lemma_add_assoc(start, schedule_head(s@) + schedule_copies(s@), schedule_stopped(s@, opt_text(today), order));
    }
}


/// A count written out, from any whole number a list can have.
pub(crate) fn write_count_wide(out: &mut Vec<char>, n: i128, one: &str, many: &str)
    ensures
        final(out)@ == old(out)@ + count_text(n as int, one@, many@),
{
    let ghost start = out@;
    write_number(out, n);
    append_str(out, " ");
    if n == 1 {
        append_str(out, one);
    } else {
        append_str(out, many);
    }
    assert(out@ =~= start + count_text(n as int, one@, many@));
}

/// A number field, or the length given where there is none.
pub(crate) fn number_or(v: &Json, key: &str, len: usize) -> (n: i128)
    ensures
        n == match number_at_of(v@, key@) {
            Some(k) => k,
            None => len as int,
        },
{
    match number_at(v, key) {
        Some(k) => k as i128,
        None => len as i128,
    }
}

// ---- the undo stack --------------------------------------------------

/// The top of the undo stack and how deep it is, or that there is nothing.
pub open spec fn undo_text(data: JsonView) -> Seq<char> {
    match at_of(data, "entry"@) {
        None => "There is nothing to undo.\n"@,
        Some(entry) => text_or_empty(entry, "label"@) + " · entry "@ + signed_decimal(number_or_zero(entry, "id"@))
            + " · "@ + count_text(number_or_zero(data, "depth"@), "entry"@, "entries"@) + " on the stack\n"@,
    }
}

pub(crate) fn write_undo(out: &mut Vec<char>, data: &Json)
    ensures
        final(out)@ == old(out)@ + undo_text(data@),
{
    let ghost start = out@;
    match at(data, "entry") {
        None => append_str(out, "There is nothing to undo.\n"),
        Some(entry) => {
            write_text_field(out, entry, "label");
            append_str(out, " · entry ");
            write_number(out, number_field(entry, "id") as i128);
            append_str(out, " · ");
            write_count(out, number_field(data, "depth"), "entry", "entries");
            append_str(out, " on the stack\n");
            assert(out@ =~= start + undo_text(data@));
        },
    }
}

/// What undoing did: took the change back or dropped it, why it was
/// dropped, and what is left.
pub open spec fn undone_text(data: JsonView) -> Seq<char> {
    let label = match text_at_of(data, "label"@) {
        Some(l) => l,
        None => "that change"@,
    };
    (if flag_at_of(data, "applied"@) {
        "Took back: "@
    } else {
        "Dropped: "@
    }) + label + "\n"@ + match text_at_of(data, "dropped"@) {
        Some(d) => d + "\n"@,
        None => Seq::empty(),
    } + count_text(number_or_zero(data, "depth"@), "entry"@, "entries"@) + " left on the stack\n"@
}

pub(crate) fn write_undone(out: &mut Vec<char>, data: &Json)
    ensures
        final(out)@ == old(out)@ + undone_text(data@),
{
    let ghost start = out@;
    if flag_at(data, "applied") {
        append_str(out, "Took back: ");
    } else {
        append_str(out, "Dropped: ");
    }
    match text_at(data, "label") {
        Some(l) => {
            let cs = chars_of(l.as_str());
            append_all(out, cs.as_slice());
        },
        None => append_str(out, "that change"),
    }
    append_str(out, "\n");
    match text_at(data, "dropped") {
        Some(d) => {
            let cs = chars_of(d.as_str());
            append_all(out, cs.as_slice());
            append_str(out, "\n");
        },
        None => {},
    }
    write_count(out, number_field(data, "depth"), "entry", "entries");
    append_str(out, " left on the stack\n");
    assert(out@ =~= start + undone_text(data@));
}

// ---- the dictionary --------------------------------------------------

/// The word a dictionary change was about.
pub open spec fn word_text(data: JsonView, op: Seq<char>) -> Seq<char> {
    let word = match at_of(data, "word"@) {
        Some(w) => text_or_empty(w, "word"@),
        None => Seq::empty(),
    };
    said_of(op) + " "@ + word + ".\n"@
}

pub(crate) fn write_word(out: &mut Vec<char>, data: &Json, op: &str)
    ensures
        final(out)@ == old(out)@ + word_text(data@, op@),
{
    let ghost start = out@;
    append_str(out, said(op));
    append_str(out, " ");
    match at(data, "word") {
        Some(w) => write_text_field(out, w, "word"),
        None => {},
    }
    append_str(out, ".\n");
    assert(out@ =~= start + word_text(data@, op@));
}

pub open spec fn dictionary_lines(words: Seq<JsonView>) -> Seq<char>
    decreases words.len(),
{
    if words.len() == 0 {
        Seq::empty()
    } else {
        dictionary_lines(words.drop_last()) + "  "@ + text_or_empty(words.last(), "word"@) + "\n"@
    }
}

/// The personal dictionary, a word a line.
pub open spec fn dictionary_text(data: JsonView) -> Seq<char> {
    let words = rows_of(data, "words"@);
    if words.len() == 0 {
        "The personal dictionary is empty.\n"@
    } else {
        let n = match number_at_of(data, "count"@) {
            Some(n) => n,
            None => words.len() as int,
        };
        dictionary_lines(words) + "\n"@ + count_text(n, "word"@, "words"@) + "\n"@
    }
}

pub(crate) fn write_dictionary(out: &mut Vec<char>, data: &Json)
    ensures
        final(out)@ == old(out)@ + dictionary_text(data@),
{
    let ghost start = out@;
    let words = rows(data, "words");
    let ghost all = list_view(words@);
    proof {
        lemma_list_view(words@);
    }
    if words.len() == 0 {
        append_str(out, "The personal dictionary is empty.\n");
        return;
    }
    let mut i: usize = 0;
    while i < words.len()
        invariant
            i <= words@.len(),
            all == list_view(words@),
            all.len() == words@.len(),
            forall|j: int| 0 <= j < words@.len() ==> #[trigger] all[j] == words@[j].view_of(),
            out@ == start + dictionary_lines(all.subrange(0, i as int)),
        decreases words@.len() - i,
    {
        proof {
            assert(all.subrange(0, i + 1).drop_last() =~= all.subrange(0, i as int));
            assert(all.subrange(0, i + 1).last() == all[i as int]);
        }
        append_str(out, "  ");
        write_text_field(out, &words[i], "word");
        append_str(out, "\n");
        proof {
            assert(out@ =~= start + dictionary_lines(all.subrange(0, i + 1)));
        }
        i = i + 1;
    }
    assert(all.subrange(0, all.len() as int) =~= all);
    let n = number_or(data, "count", words.len());
    let ghost lines = out@;
    append_str(out, "\n");
    write_count_wide(out, n, "word", "words");
    append_str(out, "\n");
    assert(out@ =~= lines + ("\n"@ + count_text(n as int, "word"@, "words"@) + "\n"@));
    assert(out@ =~= start + dictionary_text(data@));
}

// ---- notes -----------------------------------------------------------

/// That a note is on the clipboard.
pub open spec fn note_copied_text(data: JsonView) -> Seq<char> {
    let id = match at_of(data, "note"@) {
        Some(n) => number_or_zero(n, "id"@),
        None => 0,
    };
    "Note "@ + signed_decimal(id) + " is on the clipboard.\n"@
}

pub(crate) fn write_note_copied(out: &mut Vec<char>, data: &Json)
    ensures
        final(out)@ == old(out)@ + note_copied_text(data@),
{
    let ghost start = out@;
    let id: i64 = match at(data, "note") {
        Some(n) => number_field(n, "id"),
        None => 0,
    };
    append_str(out, "Note ");
    write_number(out, id as i128);
    append_str(out, " is on the clipboard.\n");
    assert(out@ =~= start + note_copied_text(data@));
}

// ---- previews and copies ---------------------------------------------

pub open spec fn preview_lines(dates: Seq<Seq<char>>, today: Option<Seq<char>>, order: DateOrder) -> Seq<char>
    decreases dates.len(),
{
    if dates.len() == 0 {
        Seq::empty()
    } else {
        preview_lines(dates.drop_last(), today, order) + "  "@ + date_text(dates.last(), today, order) + "\n"@
    }
}

/// The days a rule falls on, a day a line.
pub open spec fn preview_text(data: JsonView, today: Option<Seq<char>>, order: DateOrder) -> Seq<char> {
    let dates = rows_of(data, "dates"@);
    if dates.len() == 0 {
        "The rule falls on no day in range.\n"@
    } else {
        preview_lines(texts_of(dates), today, order)
    }
}

pub(crate) fn write_preview(out: &mut Vec<char>, data: &Json, today: Option<&String>, order: DateOrder)
    ensures
        final(out)@ == old(out)@ + preview_text(data@, opt_text(today), order),
{
    let ghost start = out@;
    let ghost t = opt_text(today);
    let dates = rows(data, "dates");
    let ghost all = list_view(dates@);
    proof {
        lemma_list_view(dates@);
    }
    if dates.len() == 0 {
        append_str(out, "The rule falls on no day in range.\n");
        return;
    }
    let mut i: usize = 0;
    while i < dates.len()
        invariant
            i <= dates@.len(),
            all == list_view(dates@),
            all.len() == dates@.len(),
            t == opt_text(today),
            forall|j: int| 0 <= j < dates@.len() ==> #[trigger] all[j] == dates@[j].view_of(),
            out@ == start + preview_lines(texts_of(all.subrange(0, i as int)), t, order),
        decreases dates@.len() - i,
    {
        let ghost here = all.subrange(0, i + 1);
        let ghost ts = texts_of(all.subrange(0, i as int));
        proof {
            assert(here.drop_last() =~= all.subrange(0, i as int));
            assert(here.last() == all[i as int]);
        }
        match &dates[i] {
            Json::Text(d) => {
                proof {
                    assert(texts_of(here) == ts.push(d@));
                    assert(ts.push(d@).drop_last() =~= ts);
                }
                append_str(out, "  ");
                write_date(out, d.as_str(), today, order);
                append_str(out, "\n");
                proof {
                    assert(out@ =~= start + preview_lines(texts_of(here), t, order));
                }
            },
            _ => {
                proof {
                    assert(texts_of(here) == ts);
                }
            },
        }
        i = i + 1;
    }
    assert(all.subrange(0, all.len() as int) =~= all);
}

pub open spec fn rows_lines(rows: Seq<JsonView>, place: bool, today: Option<Seq<char>>, order: DateOrder) -> Seq<char> {
    lines_of(rows, Seq::empty(), place, today, order)
}

/// The copies a refresh made, a row a line.
pub open spec fn refresh_text(data: JsonView, today: Option<Seq<char>>, order: DateOrder) -> Seq<char> {
    let made = rows_of(data, "created"@);
    if made.len() == 0 {
        "There was nothing to make.\n"@
    } else {
        "Made "@ + count_text(made.len() as int, "copy"@, "copies"@) + ".\n"@ + rows_lines(made, true, today, order)
    }
}

pub(crate) fn write_rows(out: &mut Vec<char>, rows: &[Json], place: bool, today: Option<&String>, order: DateOrder)
    ensures
        final(out)@ == old(out)@ + rows_lines(list_view(rows@), place, opt_text(today), order),
{
    proof {
        reveal_strlit("");
        assert(""@ =~= Seq::<char>::empty());
    }
    write_lines(out, rows, "", place, today, order);
}

pub(crate) fn write_refresh(out: &mut Vec<char>, data: &Json, today: Option<&String>, order: DateOrder)
    ensures
        final(out)@ == old(out)@ + refresh_text(data@, opt_text(today), order),
{
    let ghost start = out@;
    let made = rows(data, "created");
    proof {
        lemma_list_view(made@);
    }
    if made.len() == 0 {
        append_str(out, "There was nothing to make.\n");
        return;
    }
    append_str(out, "Made ");
    write_count_wide(out, made.len() as i128, "copy", "copies");
    append_str(out, ".\n");
    write_rows(out, made, true, today, order);
    assert(out@ =~= start + refresh_text(data@, opt_text(today), order));
}

// ---- mutations -------------------------------------------------------

/// Several tasks changed at once: how many, each row, and the undo line.
pub open spec fn tasks_text(data: JsonView, op: Seq<char>, today: Option<Seq<char>>, order: DateOrder) -> Seq<char> {
    let tasks = rows_of(data, "tasks"@);
    let n = match number_at_of(data, "count"@) {
        Some(n) => n,
        None => tasks.len() as int,
    };
    said_of(op) + " "@ + count_text(n, "task"@, "tasks"@) + ".\n"@ + rows_lines(tasks, true, today, order) + undo_line(
        data,
    )
}

pub(crate) fn write_tasks(out: &mut Vec<char>, data: &Json, op: &str, today: Option<&String>, order: DateOrder)
    ensures
        final(out)@ == old(out)@ + tasks_text(data@, op@, opt_text(today), order),
{
    let ghost start = out@;
    let tasks = rows(data, "tasks");
    proof {
        lemma_list_view(tasks@);
    }
    let n = number_or(data, "count", tasks.len());
    append_str(out, said(op));
    append_str(out, " ");
    write_count_wide(out, n, "task", "tasks");
    append_str(out, ".\n");
    write_rows(out, tasks, true, today, order);
    write_undo_line(out, data);
    assert(out@ =~= start + tasks_text(data@, op@, opt_text(today), order));
}

pub open spec fn said_line(op: Seq<char>) -> Seq<char> {
    if op != "task.get"@ {
        said_of(op) + ".\n"@
    } else {
        Seq::empty()
    }
}

pub open spec fn task_line(data: JsonView, today: Option<Seq<char>>, order: DateOrder) -> Seq<char> {
    match at_of(data, "task"@) {
        Some(t) => row_text(t, true, today, order) + "\n"@,
        None => Seq::empty(),
    }
}

pub open spec fn schedule_of_task(data: JsonView, today: Option<Seq<char>>, order: DateOrder) -> Seq<char> {
    match at_of(data, "schedule"@) {
        Some(s) => schedule_line(s, today, order) + "\n"@,
        None => Seq::empty(),
    }
}

/// One task: what was done to it, its row, its schedule, and the undo
/// line.
pub open spec fn task_text(data: JsonView, op: Seq<char>, today: Option<Seq<char>>, order: DateOrder) -> Seq<char> {
    said_line(op) + task_line(data, today, order) + schedule_of_task(data, today, order) + undo_line(data)
}

fn write_said_line(out: &mut Vec<char>, op: &str)
    ensures
        final(out)@ == old(out)@ + said_line(op@),
{
    if !crate::text::is(chars_of(op).as_slice(), "task.get") {
        let ghost start = out@;
        append_str(out, said(op));
        append_str(out, ".\n");
        assert(out@ =~= start + said_line(op@));
    } else {
        assert(old(out)@ + said_line(op@) =~= old(out)@);
    }
}

fn write_task_line(out: &mut Vec<char>, data: &Json, today: Option<&String>, order: DateOrder)
    ensures
        final(out)@ == old(out)@ + task_line(data@, opt_text(today), order),
{
    let ghost start = out@;
    match at(data, "task") {
        Some(t) => {
            write_row(out, t, true, today, order);
            append_str(out, "\n");
            assert(out@ =~= start + task_line(data@, opt_text(today), order));
        },
        None => {
            assert(start + task_line(data@, opt_text(today), order) =~= start);
        },
    }
}

fn write_schedule_of_task(out: &mut Vec<char>, data: &Json, today: Option<&String>, order: DateOrder)
    ensures
        final(out)@ == old(out)@ + schedule_of_task(data@, opt_text(today), order),
{
    let ghost start = out@;
    match at(data, "schedule") {
        Some(s) => {
            write_schedule_line(out, s, today, order);
            append_str(out, "\n");
            assert(out@ =~= start + schedule_of_task(data@, opt_text(today), order));
        },
        None => {
            assert(start + schedule_of_task(data@, opt_text(today), order) =~= start);
        },
    }
}

pub(crate) fn write_task(out: &mut Vec<char>, data: &Json, op: &str, today: Option<&String>, order: DateOrder)
    ensures
        final(out)@ == old(out)@ + task_text(data@, op@, opt_text(today), order),
{
    let ghost start = out@;
    let ghost t = opt_text(today);
    write_said_line(out, op);
    write_task_line(out, data, today, order);
    proof {
        lemma_add_assoc(start, said_line(op@), task_line(data@, t, order));
    }
    write_schedule_of_task(out, data, today, order);
    proof {
        lemma_add_assoc(start, said_line(op@) + task_line(data@, t, order), schedule_of_task(data@, t, order));
    }
    write_undo_line(out, data);
    proof {
        lemma_add_assoc(
            start,
            said_line(op@) + task_line(data@, t, order) + schedule_of_task(data@, t, order),
            undo_line(data@),
        );
    }
}

/// A place in its new order.
pub open spec fn order_text(data: JsonView, today: Option<Seq<char>>, order: DateOrder) -> Seq<char> {
    let place = match at_of(data, "place"@) {
        Some(p) => place_text(p, today, order),
        None => "the place"@,
    };
    place + " is now:\n"@ + rows_lines(rows_of(data, "order"@), false, today, order) + undo_line(data)
}

pub(crate) fn write_order(out: &mut Vec<char>, data: &Json, today: Option<&String>, order: DateOrder)
    ensures
        final(out)@ == old(out)@ + order_text(data@, opt_text(today), order),
{
    let ghost start = out@;
    match at(data, "place") {
        Some(p) => write_place(out, p, today, order),
        None => append_str(out, "the place"),
    }
    append_str(out, " is now:\n");
    write_rows(out, rows(data, "order"), false, today, order);
    write_undo_line(out, data);
    assert(out@ =~= start + order_text(data@, opt_text(today), order));
}

// ---- schedules -------------------------------------------------------

pub open spec fn schedule_lines(items: Seq<JsonView>, today: Option<Seq<char>>, order: DateOrder) -> Seq<char>
    decreases items.len(),
{
    if items.len() == 0 {
        Seq::empty()
    } else {
        schedule_lines(items.drop_last(), today, order) + schedule_line(items.last(), today, order) + "\n"@
    }
}

/// Every schedule, a line each, and how many there are.
pub open spec fn schedules_text(data: JsonView, today: Option<Seq<char>>, order: DateOrder) -> Seq<char> {
    let items = rows_of(data, "schedules"@);
    if items.len() == 0 {
        "No schedules.\n"@
    } else {
        let n = match number_at_of(data, "total"@) {
            Some(n) => n,
            None => items.len() as int,
        };
        schedule_lines(items, today, order) + "\n"@ + count_text(n, "schedule"@, "schedules"@) + "\n"@
    }
}

fn write_schedule_lines(out: &mut Vec<char>, items: &[Json], today: Option<&String>, order: DateOrder)
    ensures
        final(out)@ == old(out)@ + schedule_lines(list_view(items@), opt_text(today), order),
{
    let ghost start = out@;
    let ghost all = list_view(items@);
    let ghost t = opt_text(today);
    proof {
        lemma_list_view(items@);
    }
    let mut i: usize = 0;
    while i < items.len()
        invariant
            i <= items@.len(),
            all == list_view(items@),
            all.len() == items@.len(),
            t == opt_text(today),
            forall|j: int| 0 <= j < items@.len() ==> #[trigger] all[j] == items@[j].view_of(),
            out@ == start + schedule_lines(all.subrange(0, i as int), t, order),
        decreases items@.len() - i,
    {
        proof {
            assert(all.subrange(0, i + 1).drop_last() =~= all.subrange(0, i as int));
            assert(all.subrange(0, i + 1).last() == all[i as int]);
        }
        write_schedule_line(out, &items[i], today, order);
        append_str(out, "\n");
        proof {
            assert(out@ =~= start + schedule_lines(all.subrange(0, i + 1), t, order));
        }
        i = i + 1;
    }
    assert(all.subrange(0, all.len() as int) =~= all);
}

pub(crate) fn write_schedules(out: &mut Vec<char>, data: &Json, today: Option<&String>, order: DateOrder)
    ensures
        final(out)@ == old(out)@ + schedules_text(data@, opt_text(today), order),
{
    let ghost start = out@;
    let items = rows(data, "schedules");
    proof {
        lemma_list_view(items@);
    }
    if items.len() == 0 {
        append_str(out, "No schedules.\n");
        return;
    }
    write_schedule_lines(out, items, today, order);
    let ghost lines = out@;
    let n = number_or(data, "total", items.len());
    append_str(out, "\n");
    write_count_wide(out, n, "schedule", "schedules");
    append_str(out, "\n");
    assert(out@ =~= lines + ("\n"@ + count_text(n as int, "schedule"@, "schedules"@) + "\n"@));
    assert(out@ =~= start + schedules_text(data@, opt_text(today), order));
}

pub open spec fn dates_joined(dates: Seq<Seq<char>>, today: Option<Seq<char>>, order: DateOrder) -> Seq<char>
    decreases dates.len(),
{
    if dates.len() == 0 {
        Seq::empty()
    } else if dates.len() == 1 {
        date_text(dates[0], today, order)
    } else {
        dates_joined(dates.drop_last(), today, order) + ", "@ + date_text(dates.last(), today, order)
    }
}

pub open spec fn schedule_opening(op: Seq<char>) -> Seq<char> {
    if !(op.len() >= 12 && op.subrange(0, 12) == "schedule.get"@) {
        said_of(op) + "\n"@
    } else {
        Seq::empty()
    }
}

pub open spec fn schedule_part(data: JsonView, today: Option<Seq<char>>, order: DateOrder) -> Seq<char> {
    match at_of(data, "schedule"@) {
        Some(s) => schedule_line(s, today, order) + "\n"@ + match text_at_of(s, "generated_through"@) {
            Some(t) => "        copies made through "@ + date_text(t, today, order) + "\n"@,
            None => Seq::empty(),
        },
        None => Seq::empty(),
    }
}

pub open spec fn next_part(data: JsonView, today: Option<Seq<char>>, order: DateOrder) -> Seq<char> {
    let next = rows_of(data, "next"@);
    if next.len() == 0 {
        Seq::empty()
    } else {
        "        next "@ + dates_joined(texts_of(next), today, order) + "\n"@
    }
}

/// A schedule: what was done to it, its line, how far its copies go, its
/// task, its next days, and the undo line.
pub open spec fn schedule_text(data: JsonView, op: Seq<char>, today: Option<Seq<char>>, order: DateOrder) -> Seq<char> {
    schedule_opening(op) + schedule_part(data, today, order) + match at_of(data, "task"@) {
        Some(t) => row_text(t, true, today, order) + "\n"@,
        None => Seq::empty(),
    } + next_part(data, today, order) + undo_line(data)
}

fn write_schedule_opening(out: &mut Vec<char>, op: &str)
    ensures
        final(out)@ == old(out)@ + schedule_opening(op@),
{
    let o = chars_of(op);
    if !crate::text::begins_with(o.as_slice(), "schedule.get") {
        let ghost start = out@;
        append_str(out, said(op));
        append_str(out, "\n");
        proof {
            reveal_strlit("schedule.get");
        }
        assert(out@ =~= start + schedule_opening(op@));
    } else {
        proof {
            reveal_strlit("schedule.get");
        }
        assert(old(out)@ + schedule_opening(op@) =~= old(out)@);
    }
}

fn write_schedule_part(out: &mut Vec<char>, data: &Json, today: Option<&String>, order: DateOrder)
    ensures
        final(out)@ == old(out)@ + schedule_part(data@, opt_text(today), order),
{
    let ghost start = out@;
    match at(data, "schedule") {
        Some(s) => {
            write_schedule_line(out, s, today, order);
            append_str(out, "\n");
            match text_at(s, "generated_through") {
                Some(t) => {
                    append_str(out, "        copies made through ");
                    write_date(out, t.as_str(), today, order);
                    append_str(out, "\n");
                },
                None => {},
            }
            assert(out@ =~= start + schedule_part(data@, opt_text(today), order));
        },
        None => {
            assert(start + schedule_part(data@, opt_text(today), order) =~= start);
        },
    }
}

fn write_next_part(out: &mut Vec<char>, data: &Json, today: Option<&String>, order: DateOrder)
    ensures
        final(out)@ == old(out)@ + next_part(data@, opt_text(today), order),
{
    let ghost start = out@;
    let ghost t = opt_text(today);
    let next = rows(data, "next");
    let ghost all = list_view(next@);
    proof {
        lemma_list_view(next@);
    }
    if next.len() == 0 {
        assert(start + next_part(data@, t, order) =~= start);
        return;
    }
    append_str(out, "        next ");
    let ghost head = out@;
    let mut first = true;
    let mut i: usize = 0;
    while i < next.len()
        invariant
            i <= next@.len(),
            all == list_view(next@),
            all.len() == next@.len(),
            t == opt_text(today),
            forall|j: int| 0 <= j < next@.len() ==> #[trigger] all[j] == next@[j].view_of(),
            out@ == head + dates_joined(texts_of(all.subrange(0, i as int)), t, order),
            first == (texts_of(all.subrange(0, i as int)).len() == 0),
        decreases next@.len() - i,
    {
        let ghost here = all.subrange(0, i + 1);
        let ghost ts = texts_of(all.subrange(0, i as int));
        proof {
            assert(here.drop_last() =~= all.subrange(0, i as int));
            assert(here.last() == all[i as int]);
        }
        match &next[i] {
            Json::Text(d) => {
                proof {
                    assert(texts_of(here) == ts.push(d@));
                    assert(ts.push(d@).drop_last() =~= ts);
                }
                if !first {
                    append_str(out, ", ");
                }
                write_date(out, d.as_str(), today, order);
                first = false;
                proof {
                    assert(out@ =~= head + dates_joined(texts_of(here), t, order));
                }
            },
            _ => {
                proof {
                    assert(texts_of(here) == ts);
                }
            },
        }
        i = i + 1;
    }
    assert(all.subrange(0, all.len() as int) =~= all);
    append_str(out, "\n");
    assert(out@ =~= start + next_part(data@, t, order));
}

pub(crate) fn write_schedule(out: &mut Vec<char>, data: &Json, op: &str, today: Option<&String>, order: DateOrder)
    ensures
        final(out)@ == old(out)@ + schedule_text(data@, op@, opt_text(today), order),
{
    let ghost start = out@;
    let ghost t = opt_text(today);
    write_schedule_opening(out, op);
    write_schedule_part(out, data, today, order);
    proof {
        lemma_add_assoc(start, schedule_opening(op@), schedule_part(data@, t, order));
    }
    let ghost a = schedule_opening(op@) + schedule_part(data@, t, order);
    let ghost b = out@;
    match at(data, "task") {
        Some(task) => {
            write_row(out, task, true, today, order);
            append_str(out, "\n");
        },
        None => {},
    }
    let ghost tl = match at_of(data@, "task"@) {
        Some(x) => row_text(x, true, t, order) + "\n"@,
        None => Seq::<char>::empty(),
    };
    assert(out@ =~= b + tl);
    proof {
        lemma_add_assoc(start, a, tl);
    }
    write_next_part(out, data, today, order);
    proof {
        lemma_add_assoc(start, a + tl, next_part(data@, t, order));
    }
    write_undo_line(out, data);
    proof {
        lemma_add_assoc(start, a + tl + next_part(data@, t, order), undo_line(data@));
    }
}

// ---- search, the backlog and history ---------------------------------

/// What a search found: the open and the closed, and how many; or that
/// nothing was.
pub open spec fn search_text(data: JsonView, today: Option<Seq<char>>, order: DateOrder) -> Seq<char> {
    let found = group_text("Open"@, rows_of(data, "open"@), true, today, order) + group_text(
        "Closed"@,
        rows_of(data, "closed"@),
        true,
        today,
        order,
    );
    if found.len() == 0 {
        "Nothing found.\n"@
    } else {
        found + "\n"@ + count_text(number_or_zero(data, "total"@), "result"@, "results"@) + "\n"@
    }
}

pub(crate) fn write_search(out: &mut Vec<char>, data: &Json, today: Option<&String>, order: DateOrder)
    ensures
        final(out)@ == old(out)@ + search_text(data@, opt_text(today), order),
{
    let ghost start = out@;
    let mut found: Vec<char> = Vec::new();
    write_group_place(&mut found, "Open", rows(data, "open"), today, order);
    write_group_place(&mut found, "Closed", rows(data, "closed"), today, order);
    assert(found@ =~= group_text("Open"@, rows_of(data@, "open"@), true, opt_text(today), order) + group_text(
        "Closed"@,
        rows_of(data@, "closed"@),
        true,
        opt_text(today),
        order,
    ));
    if found.len() == 0 {
        append_str(out, "Nothing found.\n");
        return;
    }
    append_all(out, found.as_slice());
    append_str(out, "\n");
    write_count(out, number_field(data, "total"), "result", "results");
    append_str(out, "\n");
    assert(out@ =~= start + search_text(data@, opt_text(today), order));
}

/// A group of rows that say where each task is.
pub(crate) fn write_group_place(out: &mut Vec<char>, name: &str, items: &[Json], today: Option<&String>, order: DateOrder)
    ensures
        final(out)@ == old(out)@ + group_text(name@, list_view(items@), true, opt_text(today), order),
{
    let ghost start = out@;
    proof {
        lemma_list_view(items@);
    }
    if items.len() == 0 {
        assert(start + group_text(name@, list_view(items@), true, opt_text(today), order) =~= start);
        return;
    }
    append_str(out, name);
    append_str(out, "\n");
    write_rows(out, items, true, today, order);
    assert(out@ =~= start + group_text(name@, list_view(items@), true, opt_text(today), order));
}

pub open spec fn backlog_schedule_lines(items: Seq<JsonView>) -> Seq<char>
    decreases items.len(),
{
    if items.len() == 0 {
        Seq::empty()
    } else {
        let s = items.last();
        backlog_schedule_lines(items.drop_last()) + "  "@ + right4(signed_decimal(number_or_zero(s, "id"@))) + "  "@
            + text_or_empty(s, "title"@) + " · "@ + match at_of(s, "rule"@) {
            Some(r) => rule_text(r),
            None => Seq::empty(),
        } + "\n"@
    }
}

pub open spec fn backlog_schedules(data: JsonView) -> Seq<char> {
    let items = rows_of(data, "schedules"@);
    if items.len() == 0 {
        Seq::empty()
    } else {
        "Schedules\n"@ + backlog_schedule_lines(items)
    }
}

pub open spec fn backlog_head(data: JsonView) -> Seq<char> {
    "Backlog · "@ + count_text(number_or_zero(data, "open"@), "open task"@, "open tasks"@) + " · "@ + signed_decimal(
        number_or_zero(data, "waiting_count"@),
    ) + " waiting\n"@ + "\n"@
}

/// The backlog: how much is open and waiting, the ordinary rows with no
/// name of their own, the waiting ones, and the schedules.
pub open spec fn backlog_text(data: JsonView, today: Option<Seq<char>>, order: DateOrder) -> Seq<char> {
    backlog_head(data) + rows_lines(rows_of(data, "ordinary"@), false, today, order) + group_text(
        "Waiting"@,
        rows_of(data, "waiting"@),
        false,
        today,
        order,
    ) + backlog_schedules(data)
}

fn write_backlog_head(out: &mut Vec<char>, data: &Json)
    ensures
        final(out)@ == old(out)@ + backlog_head(data@),
{
    let ghost start = out@;
    append_str(out, "Backlog · ");
    write_count(out, number_field(data, "open"), "open task", "open tasks");
    append_str(out, " · ");
    write_number(out, number_field(data, "waiting_count") as i128);
    append_str(out, " waiting\n");
    append_str(out, "\n");
    assert(out@ =~= start + backlog_head(data@));
}

fn write_backlog_schedules(out: &mut Vec<char>, data: &Json)
    ensures
        final(out)@ == old(out)@ + backlog_schedules(data@),
{
    let ghost start = out@;
    let items = rows(data, "schedules");
    let ghost all = list_view(items@);
    proof {
        lemma_list_view(items@);
    }
    if items.len() == 0 {
        assert(start + backlog_schedules(data@) =~= start);
        return;
    }
    append_str(out, "Schedules\n");
    let ghost head = out@;
    let mut i: usize = 0;
    while i < items.len()
        invariant
            i <= items@.len(),
            all == list_view(items@),
            all.len() == items@.len(),
            forall|j: int| 0 <= j < items@.len() ==> #[trigger] all[j] == items@[j].view_of(),
            out@ == head + backlog_schedule_lines(all.subrange(0, i as int)),
        decreases items@.len() - i,
    {
        proof {
            assert(all.subrange(0, i + 1).drop_last() =~= all.subrange(0, i as int));
            assert(all.subrange(0, i + 1).last() == all[i as int]);
        }
        let s = &items[i];
        append_str(out, "  ");
        write_id(out, number_field(s, "id"));
        append_str(out, "  ");
        write_text_field(out, s, "title");
        append_str(out, " · ");
        match at(s, "rule") {
            Some(r) => write_rule(out, r),
            None => {},
        }
        append_str(out, "\n");
        proof {
            assert(out@ =~= head + backlog_schedule_lines(all.subrange(0, i + 1)));
        }
        i = i + 1;
    }
    assert(all.subrange(0, all.len() as int) =~= all);
    assert(out@ =~= start + backlog_schedules(data@));
}

pub(crate) fn write_backlog(out: &mut Vec<char>, data: &Json, today: Option<&String>, order: DateOrder)
    ensures
        final(out)@ == old(out)@ + backlog_text(data@, opt_text(today), order),
{
    let ghost start = out@;
    let ghost t = opt_text(today);
    write_backlog_head(out, data);
    write_rows(out, rows(data, "ordinary"), false, today, order);
    proof {
        lemma_add_assoc(start, backlog_head(data@), rows_lines(rows_of(data@, "ordinary"@), false, t, order));
    }
    let ghost a = backlog_head(data@) + rows_lines(rows_of(data@, "ordinary"@), false, t, order);
    write_group(out, "Waiting", rows(data, "waiting"), today, order);
    proof {
        lemma_add_assoc(start, a, group_text("Waiting"@, rows_of(data@, "waiting"@), false, t, order));
    }
    let ghost b = a + group_text("Waiting"@, rows_of(data@, "waiting"@), false, t, order);
    write_backlog_schedules(out, data);
    proof {
        lemma_add_assoc(start, b, backlog_schedules(data@));
    }
}

pub open spec fn stretch_name(stretch: JsonView) -> Seq<char> {
    let k = text_at_of(stretch, "stretch"@);
    if k == Some("later"@) {
        "Later"@
    } else if k == Some("this_week"@) {
        "This week"@
    } else if k == Some("last_week"@) {
        "Last week"@
    } else {
        "Earlier"@
    }
}

pub open spec fn history_day(day: JsonView, today: Option<Seq<char>>, order: DateOrder) -> Seq<char> {
    let open = number_or_zero(day, "open"@);
    "  "@ + date_text(text_or_empty(day, "day"@), today, order) + "  "@ + signed_decimal(number_or_zero(day, "done"@))
        + " of "@ + signed_decimal(number_or_zero(day, "kept"@)) + " done"@ + (if open > 0 {
        " · "@ + signed_decimal(open) + " open"@
    } else {
        Seq::empty()
    }) + "\n"@
}

pub open spec fn history_days(days: Seq<JsonView>, today: Option<Seq<char>>, order: DateOrder) -> Seq<char>
    decreases days.len(),
{
    if days.len() == 0 {
        Seq::empty()
    } else {
        history_days(days.drop_last(), today, order) + history_day(days.last(), today, order)
    }
}

pub open spec fn history_stretches(stretches: Seq<JsonView>, today: Option<Seq<char>>, order: DateOrder) -> Seq<char>
    decreases stretches.len(),
{
    if stretches.len() == 0 {
        Seq::empty()
    } else {
        let s = stretches.last();
        history_stretches(stretches.drop_last(), today, order) + stretch_name(s) + "\n"@ + history_days(
            rows_of(s, "days"@),
            today,
            order,
        )
    }
}

/// The days with something on them, stretch by stretch, and how many.
pub open spec fn history_text(data: JsonView, today: Option<Seq<char>>, order: DateOrder) -> Seq<char> {
    let stretches = rows_of(data, "stretches"@);
    if stretches.len() == 0 {
        "No days with anything on them.\n"@
    } else {
        history_stretches(stretches, today, order) + "\n"@ + count_text(
            number_or_zero(data, "total_days"@),
            "day"@,
            "days"@,
        ) + "\n"@
    }
}

fn write_history_day(out: &mut Vec<char>, day: &Json, today: Option<&String>, order: DateOrder)
    ensures
        final(out)@ == old(out)@ + history_day(day@, opt_text(today), order),
{
    let ghost start = out@;
    append_str(out, "  ");
    match text_at(day, "day") {
        Some(d) => write_date(out, d.as_str(), today, order),
        None => {
            proof {
                reveal_strlit("");
                assert(""@ =~= Seq::<char>::empty());
            }
            write_date(out, "", today, order);
        },
    }
    let ghost a = out@;
    append_str(out, "  ");
    write_number(out, number_field(day, "done") as i128);
    append_str(out, " of ");
    write_number(out, number_field(day, "kept") as i128);
    append_str(out, " done");
    let open = number_field(day, "open");
    if open > 0 {
        append_str(out, " · ");
        write_number(out, open as i128);
        append_str(out, " open");
    }
    append_str(out, "\n");
    assert(out@ =~= start + history_day(day@, opt_text(today), order));
}

fn write_history_days(out: &mut Vec<char>, days: &[Json], today: Option<&String>, order: DateOrder)
    ensures
        final(out)@ == old(out)@ + history_days(list_view(days@), opt_text(today), order),
{
    let ghost start = out@;
    let ghost all = list_view(days@);
    let ghost t = opt_text(today);
    proof {
        lemma_list_view(days@);
    }
    let mut i: usize = 0;
    while i < days.len()
        invariant
            i <= days@.len(),
            all == list_view(days@),
            all.len() == days@.len(),
            t == opt_text(today),
            forall|j: int| 0 <= j < days@.len() ==> #[trigger] all[j] == days@[j].view_of(),
            out@ == start + history_days(all.subrange(0, i as int), t, order),
        decreases days@.len() - i,
    {
        proof {
            assert(all.subrange(0, i + 1).drop_last() =~= all.subrange(0, i as int));
            assert(all.subrange(0, i + 1).last() == all[i as int]);
        }
        write_history_day(out, &days[i], today, order);
        i = i + 1;
    }
    assert(all.subrange(0, all.len() as int) =~= all);
}

fn write_stretch_name(out: &mut Vec<char>, stretch: &Json)
    ensures
        final(out)@ == old(out)@ + stretch_name(stretch@),
{
    let k = text_at(stretch, "stretch");
    let named = |word: &str| -> (r: bool)
        ensures
            r == (text_at_of(stretch@, "stretch"@) == Some(word@)),
        {
            match k {
                Some(x) => is_text(x, word),
                None => false,
            }
        };
    if named("later") {
        append_str(out, "Later");
    } else if named("this_week") {
        append_str(out, "This week");
    } else if named("last_week") {
        append_str(out, "Last week");
    } else {
        append_str(out, "Earlier");
    }
}

pub(crate) fn write_history(out: &mut Vec<char>, data: &Json, today: Option<&String>, order: DateOrder)
    ensures
        final(out)@ == old(out)@ + history_text(data@, opt_text(today), order),
{
    let ghost start = out@;
    let ghost t = opt_text(today);
    let stretches = rows(data, "stretches");
    let ghost all = list_view(stretches@);
    proof {
        lemma_list_view(stretches@);
    }
    if stretches.len() == 0 {
        append_str(out, "No days with anything on them.\n");
        return;
    }
    let mut i: usize = 0;
    while i < stretches.len()
        invariant
            i <= stretches@.len(),
            all == list_view(stretches@),
            all.len() == stretches@.len(),
            t == opt_text(today),
            forall|j: int| 0 <= j < stretches@.len() ==> #[trigger] all[j] == stretches@[j].view_of(),
            out@ == start + history_stretches(all.subrange(0, i as int), t, order),
        decreases stretches@.len() - i,
    {
        proof {
            assert(all.subrange(0, i + 1).drop_last() =~= all.subrange(0, i as int));
            assert(all.subrange(0, i + 1).last() == all[i as int]);
        }
        let s = &stretches[i];
        let ghost before = out@;
        write_stretch_name(out, s);
        append_str(out, "\n");
        write_history_days(out, rows(s, "days"), today, order);
        proof {
            assert(out@ =~= start + history_stretches(all.subrange(0, i + 1), t, order));
        }
        i = i + 1;
    }
    assert(all.subrange(0, all.len() as int) =~= all);
    let ghost body = out@;
    append_str(out, "\n");
    write_count(out, number_field(data, "total_days"), "day", "days");
    append_str(out, "\n");
    assert(out@ =~= body + ("\n"@ + count_text(number_or_zero(data@, "total_days"@), "day"@, "days"@) + "\n"@));
    assert(out@ =~= start + history_text(data@, t, order));
}

// ---- notes -----------------------------------------------------------

/// The first line of a text, as `str::lines` gives it: up to the first
/// line feed, without a carriage return before it; nothing of an empty
/// text.
pub open spec fn first_line(body: Seq<char>) -> Seq<char> {
    if body.contains('\n') {
        let i = choose|i: int| 0 <= i < body.len() && body[i] == '\n' && forall|j: int| 0 <= j < i ==> body[j] != '\n';
        let seg = body.subrange(0, i);
        if seg.len() > 0 && seg.last() == '\r' {
            seg.drop_last()
        } else {
            seg
        }
    } else {
        body
    }
}

fn write_first_line(out: &mut Vec<char>, body: &str)
    ensures
        final(out)@ == old(out)@ + first_line(body@),
{
    let cs = chars_of(body);
    match crate::text::find_char(cs.as_slice(), '\n') {
        Some(i) => {
            proof {
                assert(body@.contains('\n'));
                let c = choose|c: int| 0 <= c < body@.len() && body@[c] == '\n' && forall|j: int| 0 <= j < c ==> body@[j] != '\n';
                if c < i {
                    assert(cs@[c] == '\n');
                }
                if c > i {
                    assert(body@[i as int] == '\n');
                }
                assert(c == i);
            }
            let end = if i > 0 && cs[i - 1] == '\r' {
                i - 1
            } else {
                i
            };
            let seg = crate::text::slice_of(cs.as_slice(), 0, end);
            proof {
                if i > 0 && cs@[i - 1] == '\r' {
                    assert(seg@ =~= body@.subrange(0, i as int).drop_last());
                }
            }
            append_all(out, seg.as_slice());
        },
        None => {
            append_all(out, cs.as_slice());
        },
    }
}

pub open spec fn note_first(note: JsonView) -> Seq<char> {
    match text_at_of(note, "first_line"@) {
        Some(f) => f,
        None => match text_at_of(note, "body"@) {
            Some(b) => first_line(b),
            None => Seq::empty(),
        },
    }
}

pub open spec fn note_stamp(note: JsonView, order: DateOrder) -> Seq<char> {
    match text_at_of(note, "archived_at"@) {
        Some(a) => "archived "@ + stamp_text(a, order),
        None => stamp_text(text_or_empty(note, "created_at"@), order),
    }
}

pub open spec fn note_line(note: JsonView, order: DateOrder) -> Seq<char> {
    "  "@ + right4(signed_decimal(number_or_zero(note, "id"@))) + "  "@ + note_first(note) + " · "@ + note_stamp(note, order)
        + "\n"@
}

pub open spec fn note_lines(notes: Seq<JsonView>, order: DateOrder) -> Seq<char>
    decreases notes.len(),
{
    if notes.len() == 0 {
        Seq::empty()
    } else {
        note_lines(notes.drop_last(), order) + note_line(notes.last(), order)
    }
}

/// The notes, a line each with its first line and when it was made or
/// archived, and how many.
pub open spec fn notes_text(data: JsonView, order: DateOrder) -> Seq<char> {
    let notes = rows_of(data, "notes"@);
    if notes.len() == 0 {
        "No notes.\n"@
    } else {
        let n = match number_at_of(data, "count"@) {
            Some(n) => n,
            None => notes.len() as int,
        };
        note_lines(notes, order) + "\n"@ + count_text(n, "note"@, "notes"@) + "\n"@
    }
}

fn write_text_or_stamp(out: &mut Vec<char>, v: &Json, key: &str, order: DateOrder)
    ensures
        final(out)@ == old(out)@ + stamp_text(text_or_empty(v@, key@), order),
{
    match text_at(v, key) {
        Some(t) => write_stamp(out, t.as_str(), order),
        None => {
            proof {
                reveal_strlit("");
                assert(""@ =~= Seq::<char>::empty());
            }
            write_stamp(out, "", order);
        },
    }
}

fn write_note_first(out: &mut Vec<char>, note: &Json)
    ensures
        final(out)@ == old(out)@ + note_first(note@),
{
    match text_at(note, "first_line") {
        Some(f) => {
            let cs = chars_of(f.as_str());
            append_all(out, cs.as_slice());
        },
        None => match text_at(note, "body") {
            Some(b) => write_first_line(out, b.as_str()),
            None => {
                assert(old(out)@ + note_first(note@) =~= old(out)@);
            },
        },
    }
}

fn write_note_stamp(out: &mut Vec<char>, note: &Json, order: DateOrder)
    ensures
        final(out)@ == old(out)@ + note_stamp(note@, order),
{
    let ghost start = out@;
    match text_at(note, "archived_at") {
        Some(x) => {
            append_str(out, "archived ");
            write_stamp(out, x.as_str(), order);
            assert(out@ =~= start + note_stamp(note@, order));
        },
        None => write_text_or_stamp(out, note, "created_at", order),
    }
}

fn write_note_line(out: &mut Vec<char>, note: &Json, order: DateOrder)
    ensures
        final(out)@ == old(out)@ + note_line(note@, order),
{
    let ghost start = out@;
    append_str(out, "  ");
    write_id(out, number_field(note, "id"));
    append_str(out, "  ");
    write_note_first(out, note);
    append_str(out, " · ");
    write_note_stamp(out, note, order);
    append_str(out, "\n");
    assert(out@ =~= start + note_line(note@, order));
}

pub(crate) fn write_notes(out: &mut Vec<char>, data: &Json, order: DateOrder)
    ensures
        final(out)@ == old(out)@ + notes_text(data@, order),
{
    let ghost start = out@;
    let notes = rows(data, "notes");
    let ghost all = list_view(notes@);
    proof {
        lemma_list_view(notes@);
    }
    if notes.len() == 0 {
        append_str(out, "No notes.\n");
        return;
    }
    let mut i: usize = 0;
    while i < notes.len()
        invariant
            i <= notes@.len(),
            all == list_view(notes@),
            all.len() == notes@.len(),
            forall|j: int| 0 <= j < notes@.len() ==> #[trigger] all[j] == notes@[j].view_of(),
            out@ == start + note_lines(all.subrange(0, i as int), order),
        decreases notes@.len() - i,
    {
        proof {
            assert(all.subrange(0, i + 1).drop_last() =~= all.subrange(0, i as int));
            assert(all.subrange(0, i + 1).last() == all[i as int]);
        }
        write_note_line(out, &notes[i], order);
        i = i + 1;
    }
    assert(all.subrange(0, all.len() as int) =~= all);
    let ghost lines = out@;
    let n = number_or(data, "count", notes.len());
    append_str(out, "\n");
    write_count_wide(out, n, "note", "notes");
    append_str(out, "\n");
    assert(out@ =~= lines + ("\n"@ + count_text(n as int, "note"@, "notes"@) + "\n"@));
    assert(out@ =~= start + notes_text(data@, order));
}

pub open spec fn note_head(note: JsonView, order: DateOrder) -> Seq<char> {
    "Note "@ + signed_decimal(number_or_zero(note, "id"@)) + " · created "@ + stamp_text(
        text_or_empty(note, "created_at"@),
        order,
    ) + " · updated "@ + stamp_text(text_or_empty(note, "updated_at"@), order) + match text_at_of(
        note,
        "archived_at"@,
    ) {
        Some(a) => " · archived "@ + stamp_text(a, order),
        None => Seq::empty(),
    } + "\n\n"@ + text_or_empty(note, "body"@)
}

/// One note: in full where it was asked for, what was done to it
/// otherwise.
pub open spec fn note_text(data: JsonView, op: Seq<char>, order: DateOrder) -> Seq<char> {
    match at_of(data, "note"@) {
        None => said_of(op) + "\n"@,
        Some(note) => if op == "note.get"@ {
            let head = note_head(note, order);
            if head.last() == '\n' {
                head
            } else {
                head + "\n"@
            }
        } else {
            said_of(op) + " "@ + signed_decimal(number_or_zero(note, "id"@)) + ".\n"@ + undo_line(data)
        },
    }
}

fn write_note_head(out: &mut Vec<char>, note: &Json, order: DateOrder)
    ensures
        final(out)@ == old(out)@ + note_head(note@, order),
{
    let ghost start = out@;
    append_str(out, "Note ");
    write_number(out, number_field(note, "id") as i128);
    append_str(out, " · created ");
    write_text_or_stamp(out, note, "created_at", order);
    append_str(out, " · updated ");
    write_text_or_stamp(out, note, "updated_at", order);
    match text_at(note, "archived_at") {
        Some(a) => {
            append_str(out, " · archived ");
            write_stamp(out, a.as_str(), order);
        },
        None => {},
    }
    append_str(out, "\n\n");
    write_text_field(out, note, "body");
    assert(out@ =~= start + note_head(note@, order));
}

pub(crate) fn write_note(out: &mut Vec<char>, data: &Json, op: &str, order: DateOrder)
    ensures
        final(out)@ == old(out)@ + note_text(data@, op@, order),
{
    let ghost start = out@;
    match at(data, "note") {
        None => {
            append_str(out, said(op));
            append_str(out, "\n");
            assert(out@ =~= start + note_text(data@, op@, order));
        },
        Some(note) => {
            if crate::text::is(chars_of(op).as_slice(), "note.get") {
                let mut head: Vec<char> = Vec::new();
                write_note_head(&mut head, note, order);
                assert(head@ =~= note_head(note@, order));
                let ends = head.len() > 0 && head[head.len() - 1] == '\n';
                append_all(out, head.as_slice());
                if !ends {
                    append_str(out, "\n");
                }
                proof {
                    reveal_strlit("Note ");
                    assert(head@.len() > 0);
                }
                assert(out@ =~= start + note_text(data@, op@, order));
            } else {
                append_str(out, said(op));
                append_str(out, " ");
                write_number(out, number_field(note, "id") as i128);
                append_str(out, ".\n");
                write_undo_line(out, data);
                assert(out@ =~= start + note_text(data@, op@, order));
            }
        },
    }
}

pub open spec fn check_line(one: JsonView) -> Seq<char> {
    let suggestions = texts_of(rows_of(one, "suggestions"@));
    "  "@ + signed_decimal(number_or_zero(one, "start"@)) + "-"@ + signed_decimal(number_or_zero(one, "end"@)) + "  "@
        + text_or_empty(one, "word"@) + (if suggestions.len() == 0 {
        Seq::empty()
    } else {
        " · "@ + super::reading::joined(suggestions)
    }) + "\n"@
}

pub open spec fn check_lines(found: Seq<JsonView>) -> Seq<char>
    decreases found.len(),
{
    if found.len() == 0 {
        Seq::empty()
    } else {
        check_lines(found.drop_last()) + check_line(found.last())
    }
}

/// What a spell check of a note found, and whether notes are checked.
pub open spec fn note_check_text(data: JsonView) -> Seq<char> {
    let found = rows_of(data, "misspellings"@);
    (if found.len() == 0 {
        "Nothing looks misspelt.\n"@
    } else {
        check_lines(found) + "\n"@ + count_text(found.len() as int, "possible mistake"@, "possible mistakes"@)
            + "\n"@
    }) + "spell-check notes is "@ + (if flag_at_of(data, "spell_check_notes"@) {
        "on"@
    } else {
        "off"@
    }) + "\n"@
}

fn write_suggestions(out: &mut Vec<char>, items: &[Json])
    ensures
        final(out)@ == old(out)@ + (if texts_of(list_view(items@)).len() == 0 {
            Seq::empty()
        } else {
            " · "@ + super::reading::joined(texts_of(list_view(items@)))
        }),
{
    let ghost start = out@;
    let ghost all = list_view(items@);
    proof {
        lemma_list_view(items@);
    }
    let mut first = true;
    let mut i: usize = 0;
    while i < items.len()
        invariant
            i <= items@.len(),
            all == list_view(items@),
            all.len() == items@.len(),
            forall|j: int| 0 <= j < items@.len() ==> #[trigger] all[j] == items@[j].view_of(),
            out@ == start + (if texts_of(all.subrange(0, i as int)).len() == 0 {
                Seq::empty()
            } else {
                " · "@ + super::reading::joined(texts_of(all.subrange(0, i as int)))
            }),
            first == (texts_of(all.subrange(0, i as int)).len() == 0),
        decreases items@.len() - i,
    {
        let ghost here = all.subrange(0, i + 1);
        let ghost ts = texts_of(all.subrange(0, i as int));
        proof {
            assert(here.drop_last() =~= all.subrange(0, i as int));
            assert(here.last() == all[i as int]);
        }
        match &items[i] {
            Json::Text(t) => {
                proof {
                    assert(texts_of(here) == ts.push(t@));
                    assert(ts.push(t@).drop_last() =~= ts);
                }
                if first {
                    append_str(out, " · ");
                } else {
                    append_str(out, ", ");
                }
                let cs = chars_of(t.as_str());
                append_all(out, cs.as_slice());
                first = false;
                proof {
                    assert(out@ =~= start + (" · "@ + super::reading::joined(texts_of(here))));
                }
            },
            _ => {
                proof {
                    assert(texts_of(here) == ts);
                }
            },
        }
        i = i + 1;
    }
    assert(all.subrange(0, all.len() as int) =~= all);
    if first {
        assert(start + Seq::<char>::empty() =~= start);
    }
}

fn write_check_line(out: &mut Vec<char>, one: &Json)
    ensures
        final(out)@ == old(out)@ + check_line(one@),
{
    let ghost start = out@;
    append_str(out, "  ");
    write_number(out, number_field(one, "start") as i128);
    append_str(out, "-");
    write_number(out, number_field(one, "end") as i128);
    append_str(out, "  ");
    write_text_field(out, one, "word");
    write_suggestions(out, rows(one, "suggestions"));
    append_str(out, "\n");
    assert(out@ =~= start + check_line(one@));
}

pub(crate) fn write_note_check(out: &mut Vec<char>, data: &Json)
    ensures
        final(out)@ == old(out)@ + note_check_text(data@),
{
    let ghost start = out@;
    let found = rows(data, "misspellings");
    let ghost all = list_view(found@);
    proof {
        lemma_list_view(found@);
    }
    if found.len() == 0 {
        append_str(out, "Nothing looks misspelt.\n");
    } else {
        let mut i: usize = 0;
        while i < found.len()
            invariant
                i <= found@.len(),
                all == list_view(found@),
                all.len() == found@.len(),
                forall|j: int| 0 <= j < found@.len() ==> #[trigger] all[j] == found@[j].view_of(),
                out@ == start + check_lines(all.subrange(0, i as int)),
            decreases found@.len() - i,
        {
            proof {
                assert(all.subrange(0, i + 1).drop_last() =~= all.subrange(0, i as int));
                assert(all.subrange(0, i + 1).last() == all[i as int]);
            }
            write_check_line(out, &found[i]);
            i = i + 1;
        }
        assert(all.subrange(0, all.len() as int) =~= all);
        append_str(out, "\n");
        write_count_wide(out, found.len() as i128, "possible mistake", "possible mistakes");
        append_str(out, "\n");
    }
    let ghost a = out@;
    append_str(out, "spell-check notes is ");
    if flag_at(data, "spell_check_notes") {
        append_str(out, "on");
    } else {
        append_str(out, "off");
    }
    append_str(out, "\n");
    assert(out@ =~= start + note_check_text(data@));
}

// ---- settings --------------------------------------------------------

/// How many bytes UTF-8 writes a text in.
pub open spec fn byte_len(s: Seq<char>) -> int
    decreases s.len(),
{
    if s.len() == 0 {
        0
    } else {
        byte_len(s.drop_last()) + super::reading::utf8_len(s.last())
    }
}

/// The longest key of an object, in bytes.
pub open spec fn widest(fields: Seq<(Seq<char>, JsonView)>) -> int
    decreases fields.len(),
{
    if fields.len() == 0 {
        0
    } else {
        let w = widest(fields.drop_last());
        let b = byte_len(fields.last().0);
        if b > w {
            b
        } else {
            w
        }
    }
}

/// A key left-aligned in a column of a width.
pub open spec fn padded(key: Seq<char>, width: int) -> Seq<char> {
    if key.len() < width {
        key + super::reading::spaces((width - key.len()) as nat)
    } else {
        key
    }
}

pub open spec fn setting_lines(fields: Seq<(Seq<char>, JsonView)>, width: int) -> Seq<char>
    decreases fields.len(),
{
    if fields.len() == 0 {
        Seq::empty()
    } else {
        let f = fields.last();
        setting_lines(fields.drop_last(), width) + "  "@ + padded(f.0, width) + "  "@ + super::reading::plain(f.1)
            + "\n"@
    }
}

pub open spec fn date_order_part(data: JsonView) -> Seq<char> {
    match text_at_of(data, "date_order"@) {
        Some(o) => "\nDates are written "@ + (if o == "month_first"@ {
            "the month before the day"@
        } else {
            "the day before the month"@
        }) + ".\n"@,
        None => Seq::empty(),
    }
}

pub open spec fn desktop_part(data: JsonView) -> Seq<char> {
    match at_of(data, "desktop"@) {
        Some(d) => if flag_at_of(d, "window_rule_changed"@) {
            "\nThe window settings changed. Run `jobsdone desktop` to write the\nwindow rule and reload it; this command does not touch the window\nmanager itself.\n"@
        } else {
            Seq::empty()
        },
        None => Seq::empty(),
    }
}

/// The settings, one a line in the order the object holds them, keys
/// in a column as wide as the longest; how dates are written, and what
/// to run where the window settings changed.
pub open spec fn settings_text(data: JsonView, op: Seq<char>) -> Seq<char> {
    match at_of(data, "settings"@) {
        Some(JsonView::Object(fields)) => (if op == "settings.set"@ {
            "Saved.\n"@
        } else {
            Seq::empty()
        }) + setting_lines(fields, widest(fields)) + date_order_part(data) + desktop_part(data),
        _ => "No settings.\n"@,
    }
}

fn bytes_of(s: &[char]) -> (n: u128)
    ensures
        n == byte_len(s@),
{
    let mut n: u128 = 0;
    let mut i: usize = 0;
    while i < s.len()
        invariant
            i <= s@.len(),
            n == byte_len(s@.subrange(0, i as int)),
            n <= 4 * i,
        decreases s@.len() - i,
    {
        proof {
            assert(s@.subrange(0, i + 1).drop_last() =~= s@.subrange(0, i as int));
        }
        n = n + super::reading::char_bytes(s[i]) as u128;
        i = i + 1;
    }
    assert(s@.subrange(0, s@.len() as int) =~= s@);
    n
}

pub(crate) fn write_settings(out: &mut Vec<char>, data: &Json, op: &str)
    ensures
        final(out)@ == old(out)@ + settings_text(data@, op@),
{
    let ghost start = out@;
    let fields = match at(data, "settings") {
        Some(Json::Object(fields)) => fields,
        _ => {
            append_str(out, "No settings.\n");
            return;
        },
    };
    let ghost fs = super::json::fields_view(fields@);
    proof {
        super::json::lemma_fields_view(fields@);
    }
    if crate::text::is(chars_of(op).as_slice(), "settings.set") {
        append_str(out, "Saved.\n");
    }
    let ghost head = out@;
    let mut width: u128 = 0;
    let mut i: usize = 0;
    let mut keys: Vec<Vec<char>> = Vec::new();
    while i < fields.len()
        invariant
            i <= fields@.len(),
            fs == super::json::fields_view(fields@),
            fs.len() == fields@.len(),
            forall|j: int| 0 <= j < fields@.len() ==> #[trigger] fs[j] == (fields@[j].0@, fields@[j].1.view_of()),
            width == widest(fs.subrange(0, i as int)),
            keys@.len() == i,
            forall|j: int| 0 <= j < i ==> (#[trigger] keys@[j])@ == fs[j].0,
        decreases fields@.len() - i,
    {
        proof {
            assert(fs.subrange(0, i + 1).drop_last() =~= fs.subrange(0, i as int));
        }
        let k = chars_of(fields[i].0.as_str());
        let b = bytes_of(k.as_slice());
        if b > width {
            width = b;
        }
        keys.push(k);
        i = i + 1;
    }
    assert(fs.subrange(0, fs.len() as int) =~= fs);
    let mut i: usize = 0;
    while i < fields.len()
        invariant
            i <= fields@.len(),
            fs == super::json::fields_view(fields@),
            fs.len() == fields@.len(),
            forall|j: int| 0 <= j < fields@.len() ==> #[trigger] fs[j] == (fields@[j].0@, fields@[j].1.view_of()),
            width == widest(fs),
            keys@.len() == fields@.len(),
            forall|j: int| 0 <= j < fields@.len() ==> (#[trigger] keys@[j])@ == fs[j].0,
            out@ == head + setting_lines(fs.subrange(0, i as int), width as int),
        decreases fields@.len() - i,
    {
        proof {
            assert(fs.subrange(0, i + 1).drop_last() =~= fs.subrange(0, i as int));
            assert(fs.subrange(0, i + 1).last() == fs[i as int]);
        }
        let ghost before = out@;
        append_str(out, "  ");
        let k = &keys[i];
        append_all(out, k.as_slice());
        let mut n: u128 = k.len() as u128;
        while n < width
            invariant
                k.len() <= n <= width || (n == k.len() && n >= width),
                out@ == before + "  "@ + k@ + super::reading::spaces((n - k@.len()) as nat),
            decreases width - n,
        {
            out.push(' ');
            n = n + 1;
            assert(out@ =~= before + "  "@ + k@ + super::reading::spaces((n - k@.len()) as nat));
        }
        assert(before + "  "@ + k@ + super::reading::spaces((n - k@.len()) as nat) =~= before + "  "@ + padded(
            fs[i as int].0,
            width as int,
        ));
        append_str(out, "  ");
        super::reading::write_plain(out, &fields[i].1);
        append_str(out, "\n");
        proof {
            assert(out@ =~= head + setting_lines(fs.subrange(0, i + 1), width as int));
        }
        i = i + 1;
    }
    assert(fs.subrange(0, fs.len() as int) =~= fs);
    let ghost lines = out@;
    match text_at(data, "date_order") {
        Some(o) => {
            append_str(out, "\nDates are written ");
            if is_text(o, "month_first") {
                append_str(out, "the month before the day");
            } else {
                append_str(out, "the day before the month");
            }
            append_str(out, ".\n");
        },
        None => {},
    }
    assert(out@ =~= lines + date_order_part(data@));
    let ghost dated = out@;
    match at(data, "desktop") {
        Some(d) => {
            if flag_at(d, "window_rule_changed") {
                append_str(
                    out,
                    "\nThe window settings changed. Run `jobsdone desktop` to write the\nwindow rule and reload it; this command does not touch the window\nmanager itself.\n",
                );
            }
        },
        None => {},
    }
    assert(out@ =~= dated + desktop_part(data@));
    assert(out@ =~= start + settings_text(data@, op@));
}

// ---- a day -----------------------------------------------------------

/// A text with the whitespace at its end taken off.
pub open spec fn trimmed_end(s: Seq<char>) -> Seq<char>
    decreases s.len(),
{
    if s.len() > 0 && crate::text::white(s.last()) {
        trimmed_end(s.drop_last())
    } else {
        s
    }
}

pub open spec fn newlines(s: Seq<char>) -> int
    decreases s.len(),
{
    if s.len() == 0 {
        0
    } else {
        newlines(s.drop_last()) + if s.last() == '\n' {
            1int
        } else {
            0
        }
    }
}

/// How many lines `str::lines` finds in a text.
pub open spec fn line_count(s: Seq<char>) -> int {
    newlines(s) + if s.len() > 0 && s.last() != '\n' {
        1int
    } else {
        0
    }
}

/// A count a day's header has, where the answer has it.
pub open spec fn count_part(counts: JsonView, key: Seq<char>, name: Seq<char>) -> Seq<Seq<char>> {
    match number_at_of(counts, key) {
        Some(n) => seq![signed_decimal(n) + " "@ + name],
        None => Seq::empty(),
    }
}

/// Texts joined by a middle dot between spaces.
pub open spec fn dotted(texts: Seq<Seq<char>>) -> Seq<char>
    decreases texts.len(),
{
    if texts.len() == 0 {
        Seq::empty()
    } else if texts.len() == 1 {
        texts[0]
    } else {
        dotted(texts.drop_last()) + " · "@ + texts.last()
    }
}

pub open spec fn day_head(data: JsonView, today: Option<Seq<char>>, order: DateOrder) -> Seq<char> {
    let counts = or_null(get_of(data, "counts"@));
    let parts = count_part(counts, "planned"@, "planned"@) + count_part(counts, "open"@, "open"@) + count_part(
        counts,
        "done"@,
        "done"@,
    ) + count_part(counts, "moved"@, "moved"@);
    date_text(text_or_empty(data, "day"@), today, order) + " · "@ + dotted(parts) + "\n"@ + "\n"@
}

pub open spec fn day_groups(data: JsonView, today: Option<Seq<char>>, order: DateOrder) -> Seq<char> {
    group_text("Focus"@, rows_of(data, "focus"@), false, today, order) + group_text(
        "Plan"@,
        rows_of(data, "plan"@),
        false,
        today,
        order,
    ) + group_text("Done"@, rows_of(data, "done"@), false, today, order) + group_text(
        "Moved"@,
        rows_of(data, "moved"@),
        true,
        today,
        order,
    )
}

/// A day: its date and counts, then its groups; where that is no more
/// than one line, that nothing is planned.
pub open spec fn day_text(data: JsonView, today: Option<Seq<char>>, order: DateOrder) -> Seq<char> {
    let out = day_head(data, today, order) + day_groups(data, today, order);
    if line_count(trimmed_end(out)) <= 1 {
        out + "Nothing planned.\n"@
    } else {
        out
    }
}

fn push_part(parts: &mut Vec<Vec<char>>, counts: &Json, key: &str, name: &str)
    ensures
        crate::text::views(final(parts)@) == crate::text::views(old(parts)@) + count_part(counts@, key@, name@),
{
    match number_at(counts, key) {
        Some(n) => {
            let mut p: Vec<char> = Vec::new();
            write_number(&mut p, n as i128);
            append_str(&mut p, " ");
            append_str(&mut p, name);
            let ghost was = parts@;
            parts.push(p);
            proof {
                crate::text::lemma_views_push(was, p);
                assert(crate::text::views(parts@) =~= crate::text::views(was) + count_part(counts@, key@, name@));
            }
        },
        None => {
            assert(crate::text::views(parts@) =~= crate::text::views(parts@) + count_part(counts@, key@, name@));
        },
    }
}

fn write_day_head(out: &mut Vec<char>, data: &Json, today: Option<&String>, order: DateOrder)
    ensures
        final(out)@ == old(out)@ + day_head(data@, opt_text(today), order),
{
    let ghost start = out@;
    let null = Json::Null;
    let counts = match get(data, "counts") {
        Some(c) => c,
        None => &null,
    };
    let mut parts: Vec<Vec<char>> = Vec::new();
    assert(crate::text::views(parts@) =~= Seq::<Seq<char>>::empty());
    push_part(&mut parts, counts, "planned", "planned");
    push_part(&mut parts, counts, "open", "open");
    push_part(&mut parts, counts, "done", "done");
    push_part(&mut parts, counts, "moved", "moved");
    let ghost ps = crate::text::views(parts@);
    match text_at(data, "day") {
        Some(d) => write_date(out, d.as_str(), today, order),
        None => {
            proof {
                reveal_strlit("");
                assert(""@ =~= Seq::<char>::empty());
            }
            write_date(out, "", today, order);
        },
    }
    append_str(out, " · ");
    let ghost head = out@;
    let mut i: usize = 0;
    while i < parts.len()
        invariant
            i <= parts@.len(),
            ps == crate::text::views(parts@),
            ps.len() == parts@.len(),
            out@ == head + dotted(ps.subrange(0, i as int)),
        decreases parts@.len() - i,
    {
        proof {
            assert(ps.subrange(0, i + 1).drop_last() =~= ps.subrange(0, i as int));
            assert(ps[i as int] == parts@[i as int]@);
        }
        if i > 0 {
            append_str(out, " · ");
        }
        append_all(out, parts[i].as_slice());
        proof {
            assert(out@ =~= head + dotted(ps.subrange(0, i + 1)));
        }
        i = i + 1;
    }
    assert(ps.subrange(0, ps.len() as int) =~= ps);
    append_str(out, "\n");
    append_str(out, "\n");
    assert(out@ =~= start + day_head(data@, opt_text(today), order));
}

fn trim_end_len(s: &[char]) -> (n: usize)
    ensures
        n <= s@.len(),
        s@.subrange(0, n as int) == trimmed_end(s@),
{
    let mut n = s.len();
    proof {
        assert(s@.subrange(0, n as int) =~= s@);
    }
    while n > 0 && crate::text::is_white(s[n - 1])
        invariant
            n <= s@.len(),
            trimmed_end(s@.subrange(0, n as int)) == trimmed_end(s@),
        decreases n,
    {
        proof {
            assert(s@.subrange(0, n as int).drop_last() =~= s@.subrange(0, n - 1));
        }
        n = n - 1;
    }
    n
}

fn count_lines(s: &[char], n: usize) -> (c: u128)
    requires
        n <= s@.len(),
    ensures
        c == line_count(s@.subrange(0, n as int)),
{
    let mut k: u128 = 0;
    let mut i: usize = 0;
    while i < n
        invariant
            i <= n <= s@.len(),
            k == newlines(s@.subrange(0, i as int)),
            k <= i,
        decreases n - i,
    {
        proof {
            assert(s@.subrange(0, i + 1).drop_last() =~= s@.subrange(0, i as int));
        }
        if s[i] == '\n' {
            k = k + 1;
        }
        i = i + 1;
    }
    if n > 0 && s[n - 1] != '\n' {
        k + 1
    } else {
        k
    }
}

pub(crate) fn write_day(out: &mut Vec<char>, data: &Json, today: Option<&String>, order: DateOrder)
    ensures
        final(out)@ == old(out)@ + day_text(data@, opt_text(today), order),
{
    let ghost t = opt_text(today);
    let mut day: Vec<char> = Vec::new();
    write_day_head(&mut day, data, today, order);
    write_group(&mut day, "Focus", rows(data, "focus"), today, order);
    write_group(&mut day, "Plan", rows(data, "plan"), today, order);
    write_group(&mut day, "Done", rows(data, "done"), today, order);
    write_group_place(&mut day, "Moved", rows(data, "moved"), today, order);
    assert(day@ =~= day_head(data@, t, order) + day_groups(data@, t, order));
    let n = trim_end_len(day.as_slice());
    let lines = count_lines(day.as_slice(), n);
    append_all(out, day.as_slice());
    if lines <= 1 {
        append_str(out, "Nothing planned.\n");
    }
    assert(out@ =~= old(out)@ + day_text(data@, t, order));
}

// ---- the task list ---------------------------------------------------

/// Where a task is, as the list heads a run of rows with it.
pub open spec fn here_of(task: JsonView, today: Option<Seq<char>>, order: DateOrder) -> Option<Seq<char>> {
    match at_of(task, "place"@) {
        Some(p) => Some(place_text(p, today, order)),
        None => None,
    }
}

/// A task of the list: a heading where its place differs from the one
/// before it, a blank line before any heading but the first, and its row.
pub open spec fn list_piece(task: JsonView, before: Option<Seq<char>>, today: Option<Seq<char>>, order: DateOrder) -> Seq<char> {
    let here = here_of(task, today, order);
    (if here != before {
        (if before is Some {
            "\n"@
        } else {
            Seq::empty()
        }) + match here {
            Some(h) => h,
            None => Seq::empty(),
        } + "\n"@
    } else {
        Seq::empty()
    }) + row_text(task, false, today, order) + "\n"@
}

pub open spec fn list_body(tasks: Seq<JsonView>, today: Option<Seq<char>>, order: DateOrder) -> Seq<char>
    decreases tasks.len(),
{
    if tasks.len() == 0 {
        Seq::empty()
    } else {
        let before = if tasks.len() >= 2 {
            here_of(tasks[tasks.len() - 2], today, order)
        } else {
            None
        };
        list_body(tasks.drop_last(), today, order) + list_piece(tasks.last(), before, today, order)
    }
}

/// The task list: runs of rows under the place they are in, and how many.
pub open spec fn task_list_text(data: JsonView, today: Option<Seq<char>>, order: DateOrder) -> Seq<char> {
    let tasks = rows_of(data, "tasks"@);
    if tasks.len() == 0 {
        "No tasks.\n"@
    } else {
        let n = match number_at_of(data, "total"@) {
            Some(n) => n,
            None => tasks.len() as int,
        };
        list_body(tasks, today, order) + "\n"@ + count_text(n, "task"@, "tasks"@) + "\n"@
    }
}

fn here(task: &Json, today: Option<&String>, order: DateOrder) -> (r: Option<Vec<char>>)
    ensures
        match r {
            Some(v) => here_of(task@, opt_text(today), order) == Some(v@),
            None => here_of(task@, opt_text(today), order) is None,
        },
{
    match at(task, "place") {
        Some(p) => {
            let mut v: Vec<char> = Vec::new();
            write_place(&mut v, p, today, order);
            assert(v@ =~= place_text(p@, opt_text(today), order));
            Some(v)
        },
        None => None,
    }
}

pub open spec fn chars_opt(o: Option<Vec<char>>) -> Option<Seq<char>> {
    match o {
        Some(x) => Some(x@),
        None => None,
    }
}

fn same_place(a: &Option<Vec<char>>, b: &Option<Vec<char>>) -> (r: bool)
    ensures
        r == (match a {
            Some(x) => Some(x@),
            None => None,
        } == match b {
            Some(y) => Some(y@),
            None => None,
        }),
{
    match (a, b) {
        (Some(x), Some(y)) => crate::text::same(x.as_slice(), y.as_slice()),
        (None, None) => true,
        _ => false,
    }
}

fn write_list_piece(
    out: &mut Vec<char>,
    task: &Json,
    before: &Option<Vec<char>>,
    today: Option<&String>,
    order: DateOrder,
) -> (h: Option<Vec<char>>)
    ensures
        final(out)@ == old(out)@ + list_piece(task@, chars_opt(*before), opt_text(today), order),
        chars_opt(h) == here_of(task@, opt_text(today), order),
{
    let ghost start = out@;
    let h = here(task, today, order);
    if !same_place(&h, before) {
        if before.is_some() {
            append_str(out, "\n");
        }
        match &h {
            Some(x) => append_all(out, x.as_slice()),
            None => {},
        }
        append_str(out, "\n");
    }
    write_row(out, task, false, today, order);
    append_str(out, "\n");
    assert(out@ =~= start + list_piece(task@, chars_opt(*before), opt_text(today), order));
    h
}

pub(crate) fn write_task_list(out: &mut Vec<char>, data: &Json, today: Option<&String>, order: DateOrder)
    ensures
        final(out)@ == old(out)@ + task_list_text(data@, opt_text(today), order),
{
    let ghost start = out@;
    let ghost t = opt_text(today);
    let tasks = rows(data, "tasks");
    let ghost all = list_view(tasks@);
    proof {
        lemma_list_view(tasks@);
    }
    if tasks.len() == 0 {
        append_str(out, "No tasks.\n");
        return;
    }
    let mut place: Option<Vec<char>> = None;
    let mut i: usize = 0;
    while i < tasks.len()
        invariant
            i <= tasks@.len(),
            all == list_view(tasks@),
            all.len() == tasks@.len(),
            t == opt_text(today),
            forall|j: int| 0 <= j < tasks@.len() ==> #[trigger] all[j] == tasks@[j].view_of(),
            out@ == start + list_body(all.subrange(0, i as int), t, order),
            chars_opt(place) == (if i >= 1 {
                here_of(all[i - 1], t, order)
            } else {
                None
            }),
        decreases tasks@.len() - i,
    {
        let ghost sub = all.subrange(0, i + 1);
        proof {
            assert(sub.drop_last() =~= all.subrange(0, i as int));
            assert(sub.last() == all[i as int]);
            if i >= 1 {
                assert(sub[sub.len() - 2] == all[i - 1]);
            }
        }
        let h = write_list_piece(out, &tasks[i], &place, today, order);
        proof {
            assert(out@ =~= start + list_body(sub, t, order));
        }
        place = h;
        i = i + 1;
    }
    assert(all.subrange(0, all.len() as int) =~= all);
    let ghost body = out@;
    let n = number_or(data, "total", tasks.len());
    append_str(out, "\n");
    write_count_wide(out, n, "task", "tasks");
    append_str(out, "\n");
    assert(out@ =~= body + ("\n"@ + count_text(n as int, "task"@, "tasks"@) + "\n"@));
    assert(out@ =~= start + task_list_text(data@, t, order));
}

} // verus!
