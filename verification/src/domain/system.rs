//! The two operations the program does to itself rather than at
//! somebody's request. Neither touches the undo stack.

use vstd::prelude::*;

use std::collections::BTreeMap;

use super::command::{
    end_of, ids_fit, next_id_of, next_key, place_on_day, placed, put_schedule, put_task, with_schedules,
    with_tasks,
};
use super::rule::Rule;
use super::settings::{working_day_of, WorkDays};
use super::model::{
    apply_write, apply_writes, copy_string, diff, diff_effect, first_with_key, ids_of, lookup,
    meta_date_of, order_of, rows_ok, set_pair, tasks_view, writes_view, Change, FromPlace, Id, Model,
    ModelView, Place, Schedule, ScheduleView, Task, TaskView, Write, WriteView, REVIEW_BEFORE,
    REVIEW_ON,
};
use super::rule::{falls_on_spec, RuleView, Weekday};
use super::time::{
    civil_date_of, civil_date_string, civil_date_text, day_count, day_number, earlier_date,
    is_earlier, next_day, tomorrow, valid, Date, Stamp,
};

verus! {

/// The rows opening the review on a day puts in the model: none when the
/// review was opened that day already; otherwise the day it was last
/// opened, kept as the day the review looks back to, and then the day
/// itself.
pub open spec fn review_writes(m: ModelView, today: Date) -> Option<Seq<WriteView>> {
    if meta_date_of(m.meta, REVIEW_ON@) == Some(today) {
        None
    } else {
        let opened = WriteView::SetMeta { key: REVIEW_ON@, value: civil_date_text(today) };
        Some(
            match lookup(m.meta, REVIEW_ON@) {
                Some(before) => seq![WriteView::SetMeta { key: REVIEW_BEFORE@, value: before }, opened],
                None => seq![opened],
            },
        )
    }
}

/// Opens the review, once a day. Running it again on the same day changes
/// nothing, which is what makes a second window skip a review the first
/// has started.
pub fn start_review(model: &Model, today: Date) -> (r: Option<Change>)
    requires
        valid(today),
    ensures
        match r {
            Some(c) => review_writes(model@, today) == Some(c@),
            None => review_writes(model@, today) is None,
        },
{
    if model.meta_date(REVIEW_ON) == Some(today) {
        return None;
    }
    let mut writes: Vec<Write> = Vec::new();
    let ghost before = lookup(model@.meta, REVIEW_ON@);
    match model.meta_value(REVIEW_ON) {
        Some(before) => {
            writes.push(Write::SetMeta { key: REVIEW_BEFORE.to_owned(), value: before.clone() });
        },
        None => {},
    }
    writes.push(Write::SetMeta { key: REVIEW_ON.to_owned(), value: civil_date_string(today) });
    let change = Change { writes };
    proof {
        match before {
            Some(b) => {
                assert(change@ =~= seq![
                    WriteView::SetMeta { key: REVIEW_BEFORE@, value: b },
                    WriteView::SetMeta { key: REVIEW_ON@, value: civil_date_text(today) },
                ]);
            },
            None => {
                assert(change@ =~= seq![WriteView::SetMeta { key: REVIEW_ON@, value: civil_date_text(today) }]);
            },
        }
    }
    Some(change)
}

proof fn lemma_least_with_key(pairs: Seq<(Seq<char>, Seq<char>)>, key: Seq<char>, n: int)
    requires
        0 <= n <= pairs.len(),
        exists|i: int| 0 <= i < n && pairs[i].0 == key,
    ensures
        exists|i: int| 0 <= i < n && pairs[i].0 == key && forall|j: int| 0 <= j < i ==> pairs[j].0 != key,
    decreases n,
{
    if exists|i: int| 0 <= i < n - 1 && pairs[i].0 == key {
        lemma_least_with_key(pairs, key, n - 1);
        let i = choose|i: int| 0 <= i < n - 1 && pairs[i].0 == key && forall|j: int| 0 <= j < i ==> pairs[j].0 != key;
        assert(0 <= i < n && pairs[i].0 == key && forall|j: int| 0 <= j < i ==> pairs[j].0 != key);
    } else {
        assert(pairs[n - 1].0 == key);
        assert(forall|j: int| 0 <= j < n - 1 ==> pairs[j].0 != key);
    }
}

/// Where the first pair with a key stands: the key is there, and at no
/// place before it.
pub proof fn lemma_first_with_key(pairs: Seq<(Seq<char>, Seq<char>)>, key: Seq<char>)
    ensures
        match first_with_key(pairs, key) {
            Some(i) => 0 <= i < pairs.len() && pairs[i].0 == key && forall|j: int| 0 <= j < i ==> pairs[j].0 != key,
            None => forall|j: int| 0 <= j < pairs.len() ==> pairs[j].0 != key,
        },
{
    if exists|i: int| 0 <= i < pairs.len() && pairs[i].0 == key {
        lemma_least_with_key(pairs, key, pairs.len() as int);
    }
}

/// A key set in a table of text is found there with its value.
pub proof fn lemma_lookup_set_pair(pairs: Seq<(Seq<char>, Seq<char>)>, key: Seq<char>, value: Seq<char>)
    ensures
        lookup(set_pair(pairs, key, value), key) == Some(value),
{
    let after = set_pair(pairs, key, value);
    lemma_first_with_key(pairs, key);
    lemma_first_with_key(after, key);
    match first_with_key(pairs, key) {
        Some(i) => {
            assert(after[i].0 == key);
            let j = first_with_key(after, key)->Some_0;
            if j < i {
                assert(pairs[j].0 == key);
            }
            if i < j {
                assert(after[i].0 == key);
            }
        },
        None => {
            assert(after[pairs.len() as int].0 == key);
            let j = first_with_key(after, key)->Some_0;
            if j < pairs.len() {
                assert(pairs[j].0 == key);
            }
        },
    }
}

/// The review opens once a day: once the rows of opening it are
/// committed, opening it again the same day changes nothing. (That jiff
/// reads back the date it put in text is what its wrapper promises.)
pub proof fn lemma_review_opens_once_a_day(m: ModelView, today: Date, ws: Seq<WriteView>)
    requires
        review_writes(m, today) == Some(ws),
        civil_date_of(civil_date_text(today)) == Some(today),
    ensures
        review_writes(apply_writes(m, ws), today) is None,
{
    let after = apply_writes(m, ws);
    let last = WriteView::SetMeta { key: REVIEW_ON@, value: civil_date_text(today) };
    assert(ws.last() == last);
    assert(after == apply_write(apply_writes(m, ws.drop_last()), last));
    lemma_lookup_set_pair(apply_writes(m, ws.drop_last()).meta, REVIEW_ON@, civil_date_text(today));
}

// ---- recurring copies ------------------------------------------------

/// Later dates rank higher; a count that goes up from each day to the
/// next.
pub open spec fn rank(d: Date) -> int {
    d.year as int * 512 + d.month as int * 32 + d.day as int
}

proof fn lemma_rank(d: Date, today: Date)
    requires
        valid(d),
        valid(today),
    ensures
        next_day(d) matches Some(n) ==> rank(n) > rank(d) && valid(n) && (!earlier_date(today, n) ==> rank(n)
            <= rank(today)),
{
}

/// Whether a schedule already has a copy for a day. A deleted copy keeps
/// its row, so it counts.
pub open spec fn has_copy(tasks: Map<Id, TaskView>, schedule: Id, day: Date) -> bool {
    exists|k: Id| #[trigger] tasks.contains_key(k) && tasks[k].schedule_id == Some(schedule) && tasks[k].scheduled_on
        == Some(day)
}

/// The row a copy is made with.
pub open spec fn copy_row(id: Id, title: Seq<char>, day: Date, position: usize, schedule: Id, now: int) -> TaskView {
    TaskView {
        id,
        title,
        day: Some(day),
        position,
        focus: false,
        waiting: false,
        closed_at: None,
        due_on: None,
        remind_on: None,
        schedule_id: Some(schedule),
        scheduled_on: Some(day),
        created_at: now,
        deleted_at: None,
    }
}

/// One copy of a schedule for one day, last on that day, unless the copy
/// is there already; nothing at all where no id is left to give it.
pub open spec fn copied(m: ModelView, schedule: Id, title: Seq<char>, day: Date, now: int) -> Option<ModelView> {
    if has_copy(m.tasks, schedule, day) {
        Some(m)
    } else if !ids_fit(m.tasks.dom()) {
        None
    } else {
        let id = next_id_of(m.tasks.dom()) as Id;
        let row = copy_row(id, title, day, order_of(m.tasks, Place::Day(day)).len() as usize, schedule, now);
        Some(placed(with_tasks(m, m.tasks.insert(id, row)), id, day, now, FromPlace::New).0)
    }
}

/// Whether a date is one the backfill cap lets generation copy: any,
/// with no cap, or one no more days before today than the cap.
pub open spec fn within_backfill(day: Date, today: Date, backfill: u16) -> bool {
    backfill == 0 || day_number(today) - day_number(day) <= backfill as int
}

/// The copies of a schedule for every day after `day`, up to and with
/// `today`, that its rule falls on and the backfill cap lets through.
pub open spec fn copies_after(
    m: ModelView,
    schedule: Id,
    title: Seq<char>,
    rule: RuleView,
    day: Date,
    today: Date,
    now: int,
    work: Set<Weekday>,
    backfill: u16,
) -> Option<ModelView>
    decreases rank(today) - rank(day),
    when valid(day) && valid(today)
{
    match next_day(day) {
        None => Some(m),
        Some(next) => if earlier_date(today, next) {
            Some(m)
        } else {
            let m1 = if falls_on_spec(rule, next, work) && within_backfill(next, today, backfill) {
                copied(m, schedule, title, next, now)
            } else {
                Some(m)
            };
            match m1 {
                None => None,
                Some(m1) => copies_after(m1, schedule, title, rule, next, today, now, work, backfill),
            }
        },
    }
}

/// Generation for one schedule: its copies since the day it was generated
/// through, then that day moved on to today, whether or not every date
/// was copied.
pub open spec fn generate_one(m: ModelView, id: Id, today: Date, now: int) -> Option<ModelView> {
    if !m.schedules.contains_key(id) {
        Some(m)
    } else {
        let s = m.schedules[id];
        if !earlier_date(s.generated_through, today) {
            Some(m)
        } else {
            let work = m.settings@.work_days;
            let backfill = m.settings@.backfill_days;
            match copies_after(m, id, s.title, s.rule, s.generated_through, today, now, work, backfill) {
                None => None,
                Some(m1) => Some(
                    with_schedules(m1, m1.schedules.insert(id, ScheduleView { generated_through: today, ..m1.schedules[id] })),
                ),
            }
        }
    }
}

/// Generation for schedules in order.
pub open spec fn generate_all(m: ModelView, ids: Seq<Id>, today: Date, now: int) -> Option<ModelView>
    decreases ids.len(),
{
    if ids.len() == 0 {
        Some(m)
    } else {
        match generate_one(m, ids[0], today, now) {
            None => None,
            Some(m1) => generate_all(m1, ids.subrange(1, ids.len() as int), today, now),
        }
    }
}

/// The schedules generation runs over: those not stopped, by id.
pub open spec fn unstopped_order(m: ModelView, ids: Seq<Id>) -> bool {
    &&& forall|i: int, j: int| 0 <= i < j < ids.len() ==> ids[i] < ids[j]
    &&& forall|k: Id| #[trigger] ids.contains(k) <==> (m.schedules.contains_key(k) && m.schedules[k].stopped_on is None)
}

/// Every schedule was generated through a date of the calendar.
pub open spec fn schedules_dated(m: ModelView) -> bool {
    forall|k: Id| #[trigger] m.schedules.contains_key(k) ==> valid(m.schedules[k].generated_through)
}

/// The least key of a list greater than a bound, if there is one.
fn least_above(keys: &Vec<Id>, bound: Option<Id>) -> (r: Option<Id>)
    ensures
        match r {
            Some(b) => keys@.contains(b) && (bound matches Some(x) ==> x < b) && forall|k: Id| #[trigger] keys@.contains(k)
                && (bound matches Some(x) ==> x < k) ==> b <= k,
            None => forall|k: Id| #[trigger] keys@.contains(k) ==> (bound matches Some(x) && k <= x),
        },
{
    let mut best: Option<Id> = None;
    let mut i: usize = 0;
    while i < keys.len()
        invariant
            i <= keys@.len(),
            match best {
                Some(b) => keys@.contains(b) && (bound matches Some(x) ==> x < b) && forall|j: int| 0 <= j < i && (
                bound matches Some(x) ==> x < keys@[j]) ==> b <= #[trigger] keys@[j],
                None => forall|j: int| 0 <= j < i ==> (bound matches Some(x) && #[trigger] keys@[j] <= x),
            },
        decreases keys@.len() - i,
    {
        let k = keys[i];
        let above = match bound {
            Some(x) => x < k,
            None => true,
        };
        if above {
            match best {
                Some(b) => if k < b {
                    best = Some(k);
                },
                None => {
                    best = Some(k);
                },
            }
        }
        i = i + 1;
    }
    proof {
        match best {
            Some(b) => {
                assert forall|k: Id| #[trigger] keys@.contains(k) && (bound matches Some(x) ==> x < k) implies b <= k by {
                    let j = choose|j: int| 0 <= j < keys@.len() && keys@[j] == k;
                }
            },
            None => {
                assert forall|k: Id| #[trigger] keys@.contains(k) implies (bound matches Some(x) && k <= x) by {
                    let j = choose|j: int| 0 <= j < keys@.len() && keys@[j] == k;
                }
            },
        }
    }
    best
}

/// The keys of a list, each once, smallest first.
fn ascending(keys: &Vec<Id>) -> (out: Vec<Id>)
    ensures
        forall|i: int, j: int| 0 <= i < j < out@.len() ==> out@[i] < out@[j],
        forall|k: Id| #[trigger] out@.contains(k) <==> keys@.contains(k),
{
    let mut out: Vec<Id> = Vec::new();
    let mut last: Option<Id> = None;
    loop
        invariant
            forall|i: int, j: int| 0 <= i < j < out@.len() ==> out@[i] < out@[j],
            forall|k: Id| #[trigger] out@.contains(k) ==> keys@.contains(k),
            match last {
                Some(x) => out@.len() > 0 && out@.last() == x && forall|k: Id| #[trigger] keys@.contains(k) && k <= x
                    ==> out@.contains(k),
                None => out@.len() == 0,
            },
        decreases match last {
            Some(x) => i64::MAX - x,
            None => i64::MAX - i64::MIN + 1,
        },
    {
        let next = least_above(keys, last);
        match next {
            None => {
                proof {
                    assert forall|k: Id| #[trigger] keys@.contains(k) implies out@.contains(k) by {
                    }
                }
                return out;
            },
            Some(b) => {
                let ghost was = out@;
                out.push(b);
                proof {
                    assert forall|k: Id| #[trigger] out@.contains(k) implies keys@.contains(k) by {
                        if k != b {
                            let j = choose|j: int| 0 <= j < out@.len() && out@[j] == k;
                            assert(was[j] == k);
                            assert(was.contains(k));
                        }
                    }
                    assert forall|k: Id| #[trigger] keys@.contains(k) && k <= b implies out@.contains(k) by {
                        if k == b {
                            assert(out@[was.len() as int] == b);
                        } else {
                            match last {
                                Some(x) => {
                                    assert(k <= x);
                                    assert(was.contains(k));
                                    let j = choose|j: int| 0 <= j < was.len() && was[j] == k;
                                    assert(out@[j] == k);
                                },
                                None => {},
                            }
                        }
                    }
                    assert forall|i: int, j: int| 0 <= i < j < out@.len() implies out@[i] < out@[j] by {
                        if j == was.len() {
                            match last {
                                Some(x) => {
                                    if i < was.len() - 1 {
                                        assert(was[i] < was[was.len() - 1]);
                                    }
                                },
                                None => {},
                            }
                        }
                    }
                }
                last = Some(b);
            },
        }
    }
}

/// The schedules that are not stopped, by id.
pub(crate) fn unstopped_ids(model: &Model) -> (ids: Vec<Id>)
    ensures
        unstopped_order(model@, ids@),
{
    let keys = ids_of(&model.schedules);
    let mut live: Vec<Id> = Vec::new();
    let mut i: usize = 0;
    while i < keys.len()
        invariant
            i <= keys@.len(),
            forall|k: Id| #[trigger] keys@.contains(k) <==> model.schedules@.contains_key(k),
            forall|k: Id| #[trigger] live@.contains(k) ==> model@.schedules.contains_key(k) && model@.schedules[k].stopped_on is None,
            forall|j: int| 0 <= j < i && model@.schedules.contains_key(#[trigger] keys@[j]) && model@.schedules[keys@[j]].stopped_on is None
                ==> live@.contains(keys@[j]),
        decreases keys@.len() - i,
    {
        let k = keys[i];
        let ghost was = live@;
        match model.schedules.get(&k) {
            Some(s) => {
                if s.stopped_on.is_none() {
                    live.push(k);
                    proof {
                        assert(live@[live@.len() - 1] == k);
                    }
                }
            },
            None => {},
        }
        proof {
            assert forall|x: Id| #[trigger] live@.contains(x) implies model@.schedules.contains_key(x) && model@.schedules[x].stopped_on is None by {
                if x != k {
                    let j = choose|j: int| 0 <= j < live@.len() && live@[j] == x;
                    assert(was[j] == x);
                    assert(was.contains(x));
                }
            }
            assert forall|j: int| 0 <= j < i + 1 && model@.schedules.contains_key(#[trigger] keys@[j]) && model@.schedules[keys@[j]].stopped_on is None
                implies live@.contains(keys@[j]) by {
                if j < i {
                    assert(was.contains(keys@[j]));
                    let w = choose|w: int| 0 <= w < was.len() && was[w] == keys@[j];
                    assert(live@[w] == keys@[j]);
                }
            }
        }
        i = i + 1;
    }
    proof {
        assert forall|k: Id| #[trigger] live@.contains(k) <==> (model@.schedules.contains_key(k) && model@.schedules[k].stopped_on is None) by {
            if model@.schedules.contains_key(k) && model@.schedules[k].stopped_on is None {
                assert(keys@.contains(k));
                let j = choose|j: int| 0 <= j < keys@.len() && keys@[j] == k;
                assert(live@.contains(keys@[j]));
            }
        }
    }
    let ids = ascending(&live);
    proof {
        assert forall|k: Id| #[trigger] ids@.contains(k) <==> (model@.schedules.contains_key(k) && model@.schedules[k].stopped_on is None) by {
            assert(ids@.contains(k) == live@.contains(k));
        }
    }
    ids
}

/// Whether a table of tasks holds a copy of a schedule for a day.
fn has_copy_in(tasks: &BTreeMap<Id, Task>, schedule: Id, day: Date) -> (r: bool)
    ensures
        r == has_copy(tasks_view(tasks@), schedule, day),
{
    let keys = ids_of(tasks);
    let mut i: usize = 0;
    while i < keys.len()
        invariant
            i <= keys@.len(),
            forall|k: Id| #[trigger] keys@.contains(k) <==> tasks@.contains_key(k),
            forall|j: int| 0 <= j < i ==> !(tasks@[#[trigger] keys@[j]]@.schedule_id == Some(schedule)
                && tasks@[keys@[j]]@.scheduled_on == Some(day)),
        decreases keys@.len() - i,
    {
        let k = keys[i];
        assert(keys@.contains(k));
        match tasks.get(&k) {
            Some(t) => {
                if t.schedule_id == Some(schedule) && t.scheduled_on == Some(day) {
                    assert(tasks_view(tasks@).contains_key(k));
                    return true;
                }
            },
            None => {},
        }
        i = i + 1;
    }
    proof {
        assert forall|k: Id| #[trigger] tasks_view(tasks@).contains_key(k) implies !(tasks_view(tasks@)[k].schedule_id == Some(schedule)
            && tasks_view(tasks@)[k].scheduled_on == Some(day)) by {
            assert(keys@.contains(k));
            let j = choose|j: int| 0 <= j < keys@.len() && keys@[j] == k;
        }
    }
    false
}

/// One copy of a schedule for one day, unless the copy is already there.
/// A deleted copy keeps its row, so it is never made again.
fn copy(model: &mut Model, schedule: Id, title: &String, day: Date, now: &Stamp)
    requires
        copied(old(model)@, schedule, title@, day, now@) is Some,
    ensures
        final(model)@ == copied(old(model)@, schedule, title@, day, now@)->Some_0,
{
    if has_copy_in(&model.tasks, schedule, day) {
        return;
    }
    proof {
        super::command::lemma_view_dom(model.tasks@);
    }
    let id = next_key(&model.tasks);
    let position = end_of(&model.tasks, Place::Day(day));
    let row = Task {
        id,
        title: copy_string(title),
        day: Some(day),
        position,
        focus: false,
        waiting: false,
        closed_at: None,
        due_on: None,
        remind_on: None,
        schedule_id: Some(schedule),
        scheduled_on: Some(day),
        created_at: now.copy(),
        deleted_at: None,
    };
    assert(row@ == copy_row(id, title@, day, position, schedule, now@));
    put_task(model, id, row);
    place_on_day(model, id, day, now, FromPlace::New);
}

/// The copies of one schedule for the days after `through` up to today.
fn copy_days(
    model: &mut Model,
    schedule: Id,
    title: &String,
    rule: &Rule,
    through: Date,
    today: Date,
    now: &Stamp,
    work: &WorkDays,
    backfill: u16,
)
    requires
        valid(through),
        valid(today),
        copies_after(old(model)@, schedule, title@, rule@, through, today, now@, work@, backfill) is Some,
    ensures
        final(model)@ == copies_after(old(model)@, schedule, title@, rule@, through, today, now@, work@, backfill)->Some_0,
{
    let ghost goal = copies_after(model@, schedule, title@, rule@, through, today, now@, work@, backfill);
    let mut day = through;
    loop
        invariant
            valid(day),
            valid(today),
            goal is Some,
            goal == copies_after(model@, schedule, title@, rule@, day, today, now@, work@, backfill),
        ensures
            goal == Some(model@),
        decreases rank(today) - rank(day),
    {
        proof {
            lemma_rank(day, today);
        }
        let next = match tomorrow(day) {
            None => {
                break;
            },
            Some(n) => n,
        };
        if is_earlier(today, next) {
            break;
        }
        let cap = backfill == 0 || day_count(today) - day_count(next) <= backfill as i64;
        if cap && rule.falls_on(next, work) {
            copy(model, schedule, title, next, now);
        }
        day = next;
    }
}

/// Generation for one schedule, on the working day given.
fn generate_schedule(model: &mut Model, id: Id, today: Date, now: &Stamp)
    requires
        valid(today),
        schedules_dated(old(model)@),
        generate_one(old(model)@, id, today, now@) is Some,
    ensures
        final(model)@ == generate_one(old(model)@, id, today, now@)->Some_0,
{
    let (title, rule, through) = match model.schedules.get(&id) {
        None => {
            return;
        },
        Some(s) => (copy_string(&s.title), s.rule.copy(), s.generated_through),
    };
    if !is_earlier(through, today) {
        return;
    }
    let work = model.settings.work_days();
    let backfill = model.settings.backfill_days();
    let ghost before = model@;
    copy_days(model, id, &title, &rule, through, today, now, &work, backfill);
    proof {
        lemma_copies_keep_schedules(before, id, title@, rule@, through, today, now@, work@, backfill);
    }
    let moved = match model.schedules.get(&id) {
        None => {
            return;
        },
        Some(s) => {
            let mut c = s.copy();
            c.generated_through = today;
            c
        },
    };
    put_schedule(model, id, moved);
}

/// Copies change tasks and placements, and nothing else.
proof fn lemma_copies_keep_schedules(
    m: ModelView,
    schedule: Id,
    title: Seq<char>,
    rule: RuleView,
    day: Date,
    today: Date,
    now: int,
    work: Set<Weekday>,
    backfill: u16,
)
    requires
        valid(day),
        valid(today),
    ensures
        copies_after(m, schedule, title, rule, day, today, now, work, backfill) matches Some(m2) ==> m2.schedules
            == m.schedules && m2.settings == m.settings && m2.notes == m.notes && m2.undo == m.undo,
    decreases rank(today) - rank(day),
{
    lemma_rank(day, today);
    match next_day(day) {
        None => {},
        Some(next) => if !earlier_date(today, next) {
            let m1 = if falls_on_spec(rule, next, work) && within_backfill(next, today, backfill) {
                copied(m, schedule, title, next, now)
            } else {
                Some(m)
            };
            if let Some(m1) = m1 {
                lemma_copies_keep_schedules(m1, schedule, title, rule, next, today, now, work, backfill);
            }
        },
    }
}

/// What a change is, where generation over the schedules given leaves a
/// model: the rows that turn the model into that one.
pub open spec fn generated_as(m: ModelView, ids: Seq<Id>, today: Date, now: int, ws: Seq<WriteView>) -> bool {
    match generate_all(m, ids, today, now) {
        Some(after) => diff_effect(m, after, apply_writes(m, ws)) && rows_ok(m, after, ws),
        None => false,
    }
}

/// The copies for every scheduled date since the last launch, on the
/// working day given: the rows that turn the model into the one
/// generation leaves. Nothing touches the undo stack.
pub fn generate_copies_on(model: &Model, now: &Stamp, today: Date) -> (c: Change)
    requires
        valid(today),
        schedules_dated(model@),
        forall|ids: Seq<Id>| unstopped_order(model@, ids) ==> generate_all(model@, ids, today, now@) is Some,
    ensures
        exists|ids: Seq<Id>| #![trigger unstopped_order(model@, ids)] unstopped_order(model@, ids) && generated_as(model@, ids, today, now@, c@),
{
    let ids = unstopped_ids(model);
    let ghost all = ids@;
    let mut after = model.copy();
    let mut i: usize = 0;
    proof {
        assert(all.subrange(0, all.len() as int) =~= all);
    }
    while i < ids.len()
        invariant
            i <= ids@.len(),
            all == ids@,
            valid(today),
            schedules_dated(after@),
            generate_all(model@, all, today, now@) is Some,
            generate_all(model@, all, today, now@) == generate_all(after@, all.subrange(i as int, all.len() as int), today, now@),
        decreases ids@.len() - i,
    {
        let ghost rest = all.subrange(i as int, all.len() as int);
        proof {
            assert(rest[0] == all[i as int]);
            assert(rest.subrange(1, rest.len() as int) =~= all.subrange(i + 1, all.len() as int));
        }
        let ghost was = after@;
        generate_schedule(&mut after, ids[i], today, now);
        proof {
            lemma_generate_one_dated(was, all[i as int], today, now@);
        }
        i = i + 1;
    }
    proof {
        assert(all.subrange(i as int, all.len() as int) =~= Seq::<Id>::empty());
    }
    let writes = diff(model, &after);
    Change { writes }
}

proof fn lemma_generate_one_dated(m: ModelView, id: Id, today: Date, now: int)
    requires
        valid(today),
        schedules_dated(m),
    ensures
        generate_one(m, id, today, now) matches Some(m2) ==> schedules_dated(m2),
{
    if m.schedules.contains_key(id) {
        let s = m.schedules[id];
        if earlier_date(s.generated_through, today) {
            lemma_copies_keep_schedules(m, id, s.title, s.rule, s.generated_through, today, now, m.settings@.work_days, m.settings@.backfill_days);
        }
    }
}

/// Creates the copies for every scheduled date since the last launch,
/// on the working day the instant falls in.
///
/// Recurring schedules are the one thing that creates tasks by itself.
/// Three weeks away means fifteen standup copies, each on its own past
/// day, all on the pile, unless the settings cap how far back generation
/// reaches; a date the cap skipped is never copied later.
pub fn generate_copies(model: &Model, now: &Stamp) -> (c: Change)
    requires
        schedules_dated(model@),
        forall|d: Date, ids: Seq<Id>| working_day_of(model@.settings@, now@, d) && unstopped_order(model@, ids) ==> generate_all(model@, ids, d, now@) is Some,
    ensures
        exists|d: Date, ids: Seq<Id>| #![trigger unstopped_order(model@, ids), working_day_of(model@.settings@, now@, d)] working_day_of(model@.settings@, now@, d) && unstopped_order(model@, ids) && generated_as(model@, ids, d, now@, c@),
{
    let today = model.settings.working_day(now);
    let c = generate_copies_on(model, now, today);
    assert(working_day_of(model@.settings@, now@, today));
    c
}

/// Every schedule of a list that the model holds was generated through
/// today or later.
pub open spec fn caught_up(m: ModelView, ids: Seq<Id>, today: Date) -> bool {
    forall|j: int| 0 <= j < ids.len() && #[trigger] m.schedules.contains_key(ids[j]) ==> !earlier_date(
        m.schedules[ids[j]].generated_through,
        today,
    )
}

/// Two models hold the same schedules, each stopped or not alike.
pub open spec fn same_schedules_kept(a: ModelView, b: ModelView) -> bool {
    &&& a.schedules.dom() == b.schedules.dom()
    &&& forall|k: Id| #[trigger] b.schedules.contains_key(k) ==> b.schedules[k].stopped_on == a.schedules[k].stopped_on
}

proof fn lemma_caught_up_is_still(m: ModelView, ids: Seq<Id>, today: Date, now: int)
    requires
        caught_up(m, ids, today),
    ensures
        generate_all(m, ids, today, now) == Some(m),
    decreases ids.len(),
{
    if ids.len() > 0 {
        let rest = ids.subrange(1, ids.len() as int);
        assert forall|j: int| 0 <= j < rest.len() && #[trigger] m.schedules.contains_key(rest[j]) implies !earlier_date(
            m.schedules[rest[j]].generated_through,
            today,
        ) by {
            assert(rest[j] == ids[j + 1]);
        }
        if m.schedules.contains_key(ids[0]) {
            assert(m.schedules.contains_key(ids[0]));
        }
        lemma_caught_up_is_still(m, rest, today, now);
    }
}

proof fn lemma_generate_one_keeps(m: ModelView, id: Id, today: Date, now: int)
    requires
        valid(today),
        schedules_dated(m),
        generate_one(m, id, today, now) is Some,
    ensures
        same_schedules_kept(m, generate_one(m, id, today, now)->Some_0),
        forall|k: Id| k != id && #[trigger] m.schedules.contains_key(k) ==> generate_one(m, id, today, now)->Some_0.schedules[k]
            == m.schedules[k],
        m.schedules.contains_key(id) ==> !earlier_date(generate_one(m, id, today, now)->Some_0.schedules[id].generated_through, today),
{
    if m.schedules.contains_key(id) {
        let s = m.schedules[id];
        if earlier_date(s.generated_through, today) {
            lemma_copies_keep_schedules(m, id, s.title, s.rule, s.generated_through, today, now, m.settings@.work_days, m.settings@.backfill_days);
            let m2 = generate_one(m, id, today, now)->Some_0;
            assert(m2.schedules.dom() =~= m.schedules.dom());
        }
    }
}

proof fn lemma_generate_all_catches_up(m: ModelView, ids: Seq<Id>, today: Date, now: int)
    requires
        valid(today),
        schedules_dated(m),
        ids.no_duplicates(),
        generate_all(m, ids, today, now) is Some,
    ensures
        caught_up(generate_all(m, ids, today, now)->Some_0, ids, today),
        same_schedules_kept(m, generate_all(m, ids, today, now)->Some_0),
        forall|k: Id| !ids.contains(k) && #[trigger] m.schedules.contains_key(k) ==> generate_all(m, ids, today, now)->Some_0.schedules[k]
            == m.schedules[k],
    decreases ids.len(),
{
    if ids.len() > 0 {
        let id = ids[0];
        let rest = ids.subrange(1, ids.len() as int);
        let m1 = generate_one(m, id, today, now)->Some_0;
        lemma_generate_one_keeps(m, id, today, now);
        lemma_generate_one_dated(m, id, today, now);
        assert(rest.no_duplicates());
        lemma_generate_all_catches_up(m1, rest, today, now);
        let after = generate_all(m, ids, today, now)->Some_0;
        assert(!rest.contains(id)) by {
            if rest.contains(id) {
                let j = choose|j: int| 0 <= j < rest.len() && rest[j] == id;
                assert(ids[j + 1] == ids[0]);
            }
        }
        assert forall|j: int| 0 <= j < ids.len() && #[trigger] after.schedules.contains_key(ids[j]) implies !earlier_date(
            after.schedules[ids[j]].generated_through,
            today,
        ) by {
            if j > 0 {
                assert(rest[j - 1] == ids[j]);
            }
        }
        assert forall|k: Id| !ids.contains(k) && #[trigger] m.schedules.contains_key(k) implies after.schedules[k] == m.schedules[k] by {
            if rest.contains(k) {
                let j = choose|j: int| 0 <= j < rest.len() && rest[j] == k;
                assert(ids[j + 1] == k);
            }
            assert(k != id);
        }
    }
}

/// Generation is idempotent: on the same working day, generating again
/// over what generation left changes nothing, and the same schedules are
/// the ones it runs over.
pub proof fn lemma_generation_is_idempotent(m: ModelView, ids: Seq<Id>, today: Date, now: int)
    requires
        valid(today),
        schedules_dated(m),
        unstopped_order(m, ids),
        generate_all(m, ids, today, now) is Some,
    ensures
        unstopped_order(generate_all(m, ids, today, now)->Some_0, ids),
        generate_all(generate_all(m, ids, today, now)->Some_0, ids, today, now) == Some(generate_all(m, ids, today, now)->Some_0),
{
    assert(ids.no_duplicates()) by {
        assert forall|i: int, j: int| 0 <= i < ids.len() && 0 <= j < ids.len() && i != j implies ids[i] != ids[j] by {
            if i < j {
                assert(ids[i] < ids[j]);
            } else {
                assert(ids[j] < ids[i]);
            }
        }
    }
    lemma_generate_all_catches_up(m, ids, today, now);
    let after = generate_all(m, ids, today, now)->Some_0;
    lemma_caught_up_is_still(after, ids, today, now);
    assert forall|k: Id| #[trigger] ids.contains(k) <==> (after.schedules.contains_key(k) && after.schedules[k].stopped_on is None) by {
        if after.schedules.contains_key(k) {
            assert(m.schedules.contains_key(k));
        }
    }
}

} // verus!
