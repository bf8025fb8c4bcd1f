//! The views of the model: what each screen is drawn from.
//!
//! Ordering, filtering and grouping are decided here and nowhere else, so
//! a screen only formats and places what a view hands it.

use vstd::prelude::*;

use super::model::{
    key_of, order_of, place_of, FromPlace, Id, Model, ModelView, Note, Place, Task, TaskView,
    REVIEW_BEFORE, REVIEW_ON,
};
use super::rule::{Rule, RuleView};
use super::system::{unstopped_ids, unstopped_order};
use super::time::{
    day_count, day_number, earlier_date, is_earlier, opt_instant, valid, Date, Stamp,
};

verus! {

/// A due date and whether it has passed.
#[derive(Clone, Copy, Debug, PartialEq, Eq, Structural)]
pub struct DueChip {
    pub on: Date,
    pub overdue: bool,
}

/// A task as a screen draws it, with every decision the domain owns
/// already made.
#[derive(Clone, Debug)]
pub struct Row {
    pub task: Id,
    pub title: String,
    /// Where the task is now, which on a moved row is what it points at.
    pub place: Place,
    pub closed_at: Option<Stamp>,
    pub focus: bool,
    pub waiting: bool,
    pub due: Option<DueChip>,
    pub remind: Option<Date>,
    /// The rule the task repeats by, if it repeats.
    pub repeat: Option<Rule>,
    /// Closed, and in focus when it was.
    pub was_focus: bool,
    /// Open, on a day before today the pile still reaches.
    pub on_the_pile: bool,
    /// The same, on a day beyond the pile's horizon.
    pub still_open: bool,
    /// It came from the backlog on the day being drawn.
    pub from_backlog: bool,
    /// Whether the done group shows a time or a date: a task closed from
    /// the review is closed on its old day at a later date.
    pub closed_on_this_day: bool,
}

/// An optional rule as the contracts speak of it.
pub open spec fn rule_view(rule: Option<Rule>) -> Option<RuleView> {
    match rule {
        Some(r) => Some(r@),
        None => None,
    }
}

/// A due date as a row shows it.
pub open spec fn chip_of(due: Option<Date>, today: Date) -> Option<DueChip> {
    match due {
        Some(d) => Some(DueChip { on: d, overdue: earlier_date(d, today) }),
        None => None,
    }
}

/// Whether the pile reaches back to a day: always while the horizon is
/// off, and otherwise for a day no more days before today than it.
pub open spec fn within_horizon(m: ModelView, day: Option<Date>, today: Date) -> bool {
    let h = m.settings@.pile_horizon_days;
    h == 0 || (day matches Some(d) && day_number(today) - day_number(d) <= h as int)
}

/// Open, on a day that has passed.
pub open spec fn left_open(t: TaskView, today: Date) -> bool {
    t.open() && (t.day matches Some(d) && earlier_date(d, today))
}

/// The rule of the schedule a task is a copy of.
pub open spec fn repeat_of(m: ModelView, t: TaskView) -> Option<RuleView> {
    match t.schedule_id {
        Some(s) => if m.schedules.contains_key(s) {
            Some(m.schedules[s].rule)
        } else {
            None
        },
        None => None,
    }
}

/// The row the task filed under `id` draws as, on the day `on` or in a
/// list with no day of its own. Whether it came from the backlog that day
/// and whether it was closed on its own day go by the working day of an
/// instant, which only a time zone can say; of those two only what they
/// need is stated.
pub open spec fn row_ok(m: ModelView, r: Row, id: Id, today: Date, on: Option<Date>) -> bool {
    let t = m.tasks[id];
    &&& r.task == id
    &&& r.title@ == t.title
    &&& r.place == t.place()
    &&& opt_instant(r.closed_at) == t.closed_at
    &&& r.focus == t.focus
    &&& r.waiting == t.waiting
    &&& r.due == chip_of(t.due_on, today)
    &&& r.remind == t.remind_on
    &&& rule_view(r.repeat) == repeat_of(m, t)
    &&& r.was_focus == (!t.open() && t.focus)
    &&& r.on_the_pile == (left_open(t, today) && within_horizon(m, t.day, today))
    &&& r.still_open == (left_open(t, today) && !within_horizon(m, t.day, today))
    &&& r.from_backlog ==> (on matches Some(d) && m.placements.contains_key(key_of(id, d))
        && m.placements[key_of(id, d)].from_place == FromPlace::Backlog)
    &&& r.closed_on_this_day ==> (t.closed_at is Some && t.day is Some)
}

/// Whether the task came onto the day drawn from the backlog on that very
/// working day: its placement for the day came from the backlog, and the
/// instant it was placed falls on that day once the hours before the day
/// began are taken off it.
pub open spec fn arrived_from_backlog(model: Model, id: Id, on: Option<Date>) -> bool {
    match on {
        Some(d) => {
            let k = key_of(id, d);
            &&& model.placements@.contains_key(k)
            &&& model.placements@[k].from_place == FromPlace::Backlog
            &&& model.placements@[k].placed_at.day_from(model.settings@.day_starts_at as int) == Some(d)
        },
        None => false,
    }
}

/// Whether a closed task was closed on the working day of its own day:
/// the instant it was closed falls on the day it is on.
pub open spec fn closed_on_its_day(model: Model, task: Task) -> bool {
    match (task.closed_at, task.day) {
        (Some(at), Some(d)) => at.day_from(model.settings@.day_starts_at as int) == Some(d),
        _ => false,
    }
}

/// Whether the instant a task was closed, if it was, holds its working
/// days.
pub open spec fn closed_dated(task: Task) -> bool {
    match task.closed_at {
        Some(at) => at.dated(),
        None => true,
    }
}

/// Whether the placement of a task for the day drawn, if it has one, holds
/// the working day of the instant it was placed, as every stamp made from
/// a zoned value does.
pub open spec fn arrival_dated(model: Model, id: Id, on: Option<Date>) -> bool {
    match on {
        Some(d) => model.placements@.contains_key(key_of(id, d)) ==> model.placements@[key_of(id, d)].placed_at.dated(),
        None => true,
    }
}

/// Whether the pile reaches back to a day.
fn reaches(model: &Model, day: Option<Date>, today: Date) -> (r: bool)
    ensures
        r == within_horizon(model@, day, today),
{
    let h = model.settings.pile_horizon_days();
    if h == 0 {
        return true;
    }
    match day {
        Some(d) => day_count(today) - day_count(d) <= h as i64,
        None => false,
    }
}

/// The row a task draws as, on the day being shown or in a list with no
/// day of its own.
pub fn row_of(model: &Model, id: Id, task: &Task, today: Date, on: Option<Date>) -> (r: Row)
    requires
        model@.tasks.contains_key(id),
        model@.tasks[id] == task@,
    ensures
        row_ok(model@, r, id, today, on),
        arrival_dated(*model, id, on) ==> r.from_backlog == arrived_from_backlog(*model, id, on),
        closed_dated(*task) ==> r.closed_on_this_day == closed_on_its_day(*model, *task),
{
    let starts = model.settings.day_starts_at();
    proof {
        if let Some(d) = on {
            if model.placements@.contains_key(key_of(id, d)) && model.placements@[key_of(id, d)].placed_at.dated() {
                model.placements@[key_of(id, d)].placed_at.lemma_dated_day(starts as int);
            }
        }
        if task.closed_at is Some && task.closed_at->Some_0.dated() {
            task.closed_at->Some_0.lemma_dated_day(starts as int);
        }
    }
    let open = task.is_open();
    let left = open && match task.day {
        Some(d) => is_earlier(d, today),
        None => false,
    };
    let within = reaches(model, task.day, today);
    let from_backlog = match on {
        Some(day) => match model.placement(id, day) {
            Some(p) => matches!(p.from_place, FromPlace::Backlog) && model.settings.working_day(&p.placed_at) == day,
            None => false,
        },
        None => false,
    };
    let closed_on_this_day = match (&task.closed_at, task.day) {
        (Some(at), Some(d)) => model.settings.working_day(at) == d,
        _ => false,
    };
    let repeat = match task.schedule_id {
        Some(id) => match model.schedule(id) {
            Some(s) => Some(s.rule.copy()),
            None => None,
        },
        None => None,
    };
    let due = match task.due_on {
        Some(d) => Some(DueChip { on: d, overdue: is_earlier(d, today) }),
        None => None,
    };
    Row {
        task: id,
        title: task.title.clone(),
        place: task.place(),
        closed_at: super::time::copy_stamp(&task.closed_at),
        focus: task.focus,
        waiting: task.waiting,
        due,
        remind: task.remind_on,
        repeat,
        was_focus: !open && task.focus,
        on_the_pile: left && within,
        still_open: left && !within,
        from_backlog,
        closed_on_this_day,
    }
}

// ---- order by a key --------------------------------------------------

/// Whether one keyed row comes before another: by the key, then by task.
pub open spec fn keyed_before(a: (i128, Row), b: (i128, Row)) -> bool {
    a.0 < b.0 || (a.0 == b.0 && a.1.task < b.1.task)
}

pub open spec fn keyed_sorted(s: Seq<(i128, Row)>) -> bool {
    forall|i: int, j: int| 0 <= i < j < s.len() ==> keyed_before(#[trigger] s[i], #[trigger] s[j])
}

/// The rows of a list, each keyed row of it once, sorted by key and task.
fn sort_keyed(rows: Vec<(i128, Row)>) -> (out: Vec<(i128, Row)>)
    requires
        forall|i: int, j: int| 0 <= i < j < rows@.len() ==> rows@[i].1.task != rows@[j].1.task,
    ensures
        keyed_sorted(out@),
        out@.len() == rows@.len(),
        forall|x: (i128, Row)| #[trigger] out@.contains(x) <==> rows@.contains(x),
{
    let mut out: Vec<(i128, Row)> = Vec::new();
    let mut rest = rows;
    let ghost all = rest@;
    while rest.len() > 0
        invariant
            rest@.len() <= all.len(),
            rest@ == all.subrange(0, rest@.len() as int),
            keyed_sorted(out@),
            out@.len() == all.len() - rest@.len(),
            forall|x: (i128, Row)| #[trigger] out@.contains(x) <==> all.subrange(rest@.len() as int, all.len() as int).contains(x),
            forall|a: int, b: int| 0 <= a < b < all.len() ==> all[a].1.task != all[b].1.task,
        decreases rest@.len(),
    {
        let ghost n = rest@.len() as int;
        let x = rest.pop().unwrap();
        let ghost done = all.subrange(n, all.len() as int);
        proof {
            assert(x == all[n - 1]);
            assert forall|y: (i128, Row)| #[trigger] out@.contains(y) implies y.1.task != x.1.task by {
                assert(done.contains(y));
                let c = choose|c: int| 0 <= c < done.len() && done[c] == y;
                assert(all[n + c] == y);
            }
        }
        let mut p: usize = 0;
        while p < out.len() && keyed_before_exec(&out[p], &x)
            invariant
                p <= out@.len(),
                forall|q: int| 0 <= q < p ==> keyed_before(#[trigger] out@[q], x),
            decreases out@.len() - p,
        {
            p = p + 1;
        }
        let ghost was = out@;
        proof {
            assert forall|q: int| p <= q < was.len() implies keyed_before(x, #[trigger] was[q]) by {
                assert(was.contains(was[q]));
                assert(was[q].1.task != x.1.task);
                assert(was.contains(was[p as int]));
                assert(was[p as int].1.task != x.1.task);
                assert(!keyed_before(was[p as int], x));
                if q > p {
                    assert(keyed_before(was[p as int], was[q]));
                }
            }
        }
        out.insert(p, x);
        proof {
            assert(out@ == was.insert(p as int, x));
            assert forall|a: int, b: int| 0 <= a < b < out@.len() implies keyed_before(#[trigger] out@[a], #[trigger] out@[b]) by {
                if b < p {
                } else if a < p && b == p {
                } else if a < p {
                    assert(out@[b] == was[b - 1]);
                } else if a == p {
                    assert(out@[b] == was[b - 1]);
                } else {
                    assert(out@[a] == was[a - 1]);
                    assert(out@[b] == was[b - 1]);
                }
            }
            let now = all.subrange(n - 1, all.len() as int);
            assert forall|y: (i128, Row)| #[trigger] out@.contains(y) <==> now.contains(y) by {
                if out@.contains(y) {
                    let a = choose|a: int| 0 <= a < out@.len() && out@[a] == y;
                    if a == p {
                        assert(now[0] == y);
                    } else {
                        let w = if a < p { a } else { a - 1 };
                        assert(was[w] == y);
                        assert(was.contains(y));
                        assert(done.contains(y));
                        let c = choose|c: int| 0 <= c < done.len() && done[c] == y;
                        assert(now[c + 1] == y);
                    }
                }
                if now.contains(y) {
                    let c = choose|c: int| 0 <= c < now.len() && now[c] == y;
                    if c == 0 {
                        assert(out@[p as int] == y);
                    } else {
                        assert(done[c - 1] == y);
                        assert(done.contains(y));
                        assert(was.contains(y));
                        let a = choose|a: int| 0 <= a < was.len() && was[a] == y;
                        if a < p {
                            assert(out@[a] == y);
                        } else {
                            assert(out@[a + 1] == y);
                        }
                    }
                }
            }
            assert(rest@ =~= all.subrange(0, n - 1));
        }
    }
    proof {
        assert(all.subrange(0, all.len() as int) =~= all);
    }
    out
}

fn keyed_before_exec(a: &(i128, Row), b: &(i128, Row)) -> (r: bool)
    ensures
        r == keyed_before(*a, *b),
{
    a.0 < b.0 || (a.0 == b.0 && a.1.task < b.1.task)
}

// ---- a day -----------------------------------------------------------

/// The group of a day a task is drawn in: focus, the plan, or done.
pub open spec fn group_of(t: TaskView) -> u8 {
    if !t.open() {
        2
    } else if t.focus {
        0
    } else {
        1
    }
}

/// The tasks of a sequence drawn in a group, in the sequence's order.
pub open spec fn in_group(m: ModelView, s: Seq<Id>, group: u8) -> Seq<Id>
    decreases s.len(),
{
    if s.len() == 0 {
        Seq::empty()
    } else {
        let rest = in_group(m, s.drop_last(), group);
        if group_of(m.tasks[s.last()]) == group {
            rest.push(s.last())
        } else {
            rest
        }
    }
}

/// Rows that are the rows of the tasks given, in that order.
pub open spec fn rows_are(m: ModelView, rows: Seq<Row>, ids: Seq<Id>, today: Date, on: Option<Date>) -> bool {
    &&& rows.len() == ids.len()
    &&& forall|i: int| 0 <= i < rows.len() ==> #[trigger] rows[i].task == ids[i] && row_ok(m, rows[i], ids[i], today, on)
}

/// Whether a task is among the rows of a list.
pub open spec fn has_row(rows: Seq<Row>, k: Id) -> bool {
    exists|i: int| 0 <= i < rows.len() && #[trigger] rows[i].task == k
}

/// The instant a task was closed, as a number to order by.
pub open spec fn closed_key(m: ModelView, k: Id) -> int {
    match m.tasks[k].closed_at {
        Some(c) => c,
        None => 0,
    }
}

/// The closed tasks of a day, in the order they were closed.
pub open spec fn done_ok(m: ModelView, rows: Seq<Row>, day: Date, today: Date) -> bool {
    &&& forall|k: Id| has_row(rows, k) <==> #[trigger] in_group(m, order_of(m.tasks, Place::Day(day)), 2).contains(k)
    &&& forall|i: int| 0 <= i < rows.len() ==> row_ok(m, #[trigger] rows[i], rows[i].task, today, Some(day))
    &&& forall|i: int, j: int| 0 <= i < j < rows.len() ==> (closed_key(m, #[trigger] rows[i].task) < closed_key(m, #[trigger] rows[j].task)
        || (closed_key(m, rows[i].task) == closed_key(m, rows[j].task) && rows[i].task < rows[j].task))
}

/// A task that was on a day and is somewhere else now: live, with a
/// placement for the day, and not on it.
pub open spec fn moved_off(m: ModelView, k: Id, day: Date) -> bool {
    &&& m.placements.contains_key(key_of(k, day))
    &&& m.tasks.contains_key(k)
    &&& m.tasks[k].live()
    &&& m.tasks[k].day != Some(day)
}

/// The instant a task arrived on a day, as a number to order by.
pub open spec fn placed_key(m: ModelView, k: Id, day: Date) -> int {
    m.placements[key_of(k, day)].placed_at
}

/// The tasks that left a day, in the order they first arrived on it.
pub open spec fn moved_ok(m: ModelView, rows: Seq<Row>, day: Date, today: Date) -> bool {
    &&& forall|k: Id| #[trigger] has_row(rows, k) <==> moved_off(m, k, day)
    &&& forall|i: int| 0 <= i < rows.len() ==> row_ok(m, #[trigger] rows[i], rows[i].task, today, Some(day))
    &&& forall|i: int, j: int| 0 <= i < j < rows.len() ==> (placed_key(m, #[trigger] rows[i].task, day) < placed_key(m, #[trigger] rows[j].task, day)
        || (placed_key(m, rows[i].task, day) == placed_key(m, rows[j].task, day) && rows[i].task < rows[j].task))
}

/// `planned` is every live placement for the day; the rest split it.
#[derive(Clone, Copy, Debug, Default, PartialEq, Eq, Structural)]
pub struct DayCounts {
    pub planned: usize,
    pub open: usize,
    pub done: usize,
    pub moved: usize,
}

/// The four groups of a day, in the order they are drawn. A group with
/// nothing in it is not drawn at all.
#[derive(Clone, Debug)]
pub struct DayView {
    pub day: Date,
    pub focus: Vec<Row>,
    pub plan: Vec<Row>,
    pub done: Vec<Row>,
    pub moved: Vec<Row>,
    pub counts: DayCounts,
}

/// A count held to what a `usize` holds.
pub open spec fn capped(n: int) -> int {
    if n <= usize::MAX {
        n
    } else {
        usize::MAX as int
    }
}

/// The keyed rows without their keys, in order.
fn unkeyed(pairs: Vec<(i128, Row)>) -> (rows: Vec<Row>)
    ensures
        rows@.len() == pairs@.len(),
        forall|i: int| 0 <= i < rows@.len() ==> #[trigger] rows@[i] == pairs@[i].1,
{
    let ghost all = pairs@;
    let mut p = pairs;
    let mut back: Vec<Row> = Vec::new();
    while p.len() > 0
        invariant
            p@.len() <= all.len(),
            p@ == all.subrange(0, p@.len() as int),
            back@.len() == all.len() - p@.len(),
            forall|j: int| 0 <= j < back@.len() ==> #[trigger] back@[j] == all[all.len() - 1 - j].1,
        decreases p@.len(),
    {
        let (_, r) = p.pop().unwrap();
        back.push(r);
        proof {
            assert(p@ =~= all.subrange(0, p@.len() as int));
        }
    }
    let mut rows: Vec<Row> = Vec::new();
    while back.len() > 0
        invariant
            back@.len() <= all.len(),
            rows@.len() == all.len() - back@.len(),
            forall|j: int| 0 <= j < back@.len() ==> #[trigger] back@[j] == all[all.len() - 1 - j].1,
            forall|j: int| 0 <= j < rows@.len() ==> #[trigger] rows@[j] == all[j].1,
        decreases back@.len(),
    {
        let r = back.pop().unwrap();
        rows.push(r);
    }
    rows
}

/// The rows of the tasks that left a day, in the order they arrived on it.
fn moved_rows(model: &Model, day: Date, today: Date) -> (rows: Vec<Row>)
    ensures
        moved_ok(model@, rows@, day, today),
{
    let ghost m = model@;
    let keys = super::model::placement_keys(&model.placements);
    let ghost ks = keys@;
    let mut pairs: Vec<(i128, Row)> = Vec::new();
    let mut i: usize = 0;
    while i < keys.len()
        invariant
            m == model@,
            ks == keys@,
            ks.no_duplicates(),
            forall|k: super::model::PlacementKey| #[trigger] ks.contains(k) <==> m.placements.contains_key(k),
            i <= ks.len(),
            forall|a: int| 0 <= a < pairs@.len() ==> moved_off(m, #[trigger] pairs@[a].1.task, day)
                && row_ok(m, pairs@[a].1, pairs@[a].1.task, today, Some(day))
                && pairs@[a].0 == placed_key(m, pairs@[a].1.task, day)
                && ks.subrange(0, i as int).contains(key_of(pairs@[a].1.task, day)),
            forall|a: int, b: int| 0 <= a < b < pairs@.len() ==> pairs@[a].1.task != pairs@[b].1.task,
            forall|j: int| 0 <= j < i && ks[j] == key_of(ks[j].0, day) && moved_off(m, ks[j].0, day) ==> exists|a: int|
                0 <= a < pairs@.len() && #[trigger] pairs@[a].1.task == ks[j].0,
        decreases ks.len() - i,
    {
        let key = keys[i];
        let ghost pre = ks.subrange(0, i as int);
        let ghost was = pairs@;
        proof {
            assert(ks.contains(key));
            assert(!pre.contains(key)) by {
                if pre.contains(key) {
                    let a = choose|a: int| 0 <= a < pre.len() && pre[a] == key;
                    assert(ks[a] == ks[i as int]);
                }
            }
        }
        let on_day = key.1 == day.year && key.2 == day.month && key.3 == day.day;
        if on_day {
            match model.live_task(key.0) {
                Some(task) => {
                    if task.day != Some(day) {
                        let placed = match model.placements.get(&key) {
                            Some(p) => p.placed_at.instant(),
                            None => 0,
                        };
                        let row = row_of(model, key.0, task, today, Some(day));
                        pairs.push((placed, row));
                        proof {
                            assert forall|a: int| 0 <= a < pairs@.len() - 1 implies pairs@[a].1.task != key.0 by {
                                assert(pre.contains(key_of(was[a].1.task, day)));
                            }
                        }
                    }
                },
                None => {},
            }
        }
        proof {
            let nowk = ks.subrange(0, i + 1);
            assert forall|a: int| 0 <= a < pairs@.len() implies nowk.contains(key_of(#[trigger] pairs@[a].1.task, day)) by {
                if a < was.len() {
                    assert(pre.contains(key_of(was[a].1.task, day)));
                    let c = choose|c: int| 0 <= c < pre.len() && pre[c] == key_of(was[a].1.task, day);
                    assert(nowk[c] == key_of(was[a].1.task, day));
                } else {
                    assert(nowk[i as int] == key);
                }
            }
            assert forall|j: int| 0 <= j < i + 1 && ks[j] == key_of(ks[j].0, day) && moved_off(m, ks[j].0, day) implies exists|a: int|
                0 <= a < pairs@.len() && #[trigger] pairs@[a].1.task == ks[j].0 by {
                if j < i {
                    let a = choose|a: int| 0 <= a < was.len() && #[trigger] was[a].1.task == ks[j].0;
                    assert(pairs@[a].1.task == ks[j].0);
                } else {
                    assert(pairs@[pairs@.len() - 1].1.task == ks[j].0);
                }
            }
        }
        i = i + 1;
    }
    let sorted = sort_keyed(pairs);
    let rows = unkeyed(sorted);
    proof {
        assert forall|k: Id| #[trigger] has_row(rows@, k) <==> moved_off(m, k, day) by {
            if has_row(rows@, k) {
                let a = choose|a: int| 0 <= a < rows@.len() && #[trigger] rows@[a].task == k;
                assert(sorted@.contains(sorted@[a]));
                let b = choose|b: int| 0 <= b < pairs@.len() && pairs@[b] == sorted@[a];
            }
            if moved_off(m, k, day) {
                assert(ks.contains(key_of(k, day)));
                let j = choose|j: int| 0 <= j < ks.len() && ks[j] == key_of(k, day);
                assert(ks[j].0 == k);
                let b = choose|b: int| 0 <= b < pairs@.len() && #[trigger] pairs@[b].1.task == ks[j].0;
                assert(pairs@.contains(pairs@[b]));
                assert(sorted@.contains(pairs@[b]));
                let a = choose|a: int| 0 <= a < sorted@.len() && sorted@[a] == pairs@[b];
                assert(rows@[a].task == k);
            }
        }
        assert forall|a: int| 0 <= a < rows@.len() implies row_ok(m, #[trigger] rows@[a], rows@[a].task, today, Some(day))
            && sorted@[a].0 == placed_key(m, rows@[a].task, day) by {
            assert(sorted@.contains(sorted@[a]));
            let b = choose|b: int| 0 <= b < pairs@.len() && pairs@[b] == sorted@[a];
        }
    }
    rows
}

/// A day is drawn the same way whether it is today, past or future.
pub fn day_view(model: &Model, day: Date, today: Date) -> (v: DayView)
    ensures
        v.day == day,
        rows_are(model@, v.focus@, in_group(model@, order_of(model@.tasks, Place::Day(day)), 0), today, Some(day)),
        rows_are(model@, v.plan@, in_group(model@, order_of(model@.tasks, Place::Day(day)), 1), today, Some(day)),
        done_ok(model@, v.done@, day, today),
        moved_ok(model@, v.moved@, day, today),
        v.counts.planned == capped((v.focus@.len() + v.plan@.len() + v.done@.len() + v.moved@.len()) as int),
        v.counts.open == capped((v.focus@.len() + v.plan@.len()) as int),
        v.counts.done == v.done@.len(),
        v.counts.moved == v.moved@.len(),
{
    let ghost m = model@;
    let order = model.place(Place::Day(day));
    let ghost ord = order@;
    let mut focus: Vec<Row> = Vec::new();
    let mut plan: Vec<Row> = Vec::new();
    let mut closed: Vec<(i128, Row)> = Vec::new();
    let mut i: usize = 0;
    while i < order.len()
        invariant
            m == model@,
            ord == order@,
            ord == order_of(m.tasks, Place::Day(day)),
            super::model::is_order(m.tasks, Place::Day(day), ord),
            i <= ord.len(),
            rows_are(m, focus@, in_group(m, ord.subrange(0, i as int), 0), today, Some(day)),
            rows_are(m, plan@, in_group(m, ord.subrange(0, i as int), 1), today, Some(day)),
            closed@.len() == in_group(m, ord.subrange(0, i as int), 2).len(),
            forall|a: int| 0 <= a < closed@.len() ==> #[trigger] closed@[a].1.task == in_group(m, ord.subrange(0, i as int), 2)[a]
                && row_ok(m, closed@[a].1, closed@[a].1.task, today, Some(day)) && closed@[a].0 == closed_key(m, closed@[a].1.task),
            in_group(m, ord.subrange(0, i as int), 2).no_duplicates(),
            forall|k: Id| #[trigger] in_group(m, ord.subrange(0, i as int), 2).contains(k) ==> ord.subrange(0, i as int).contains(k),
        decreases ord.len() - i,
    {
        let id = order[i];
        let ghost pre = ord.subrange(0, i as int);
        let ghost now = ord.subrange(0, i + 1);
        proof {
            assert(now.drop_last() =~= pre);
            assert(now.last() == id);
            assert(ord.contains(id));
        }
        let task = model.task(id).unwrap();
        let row = row_of(model, id, task, today, Some(day));
        if !task.is_open() {
            let at = match &task.closed_at {
                Some(c) => c.instant(),
                None => 0,
            };
            closed.push((at, row));
            proof {
                assert(!pre.contains(id)) by {
                    if pre.contains(id) {
                        let a = choose|a: int| 0 <= a < pre.len() && pre[a] == id;
                        assert(ord[a] == ord[i as int]);
                    }
                }
                assert(!in_group(m, pre, 2).contains(id));
                assert(in_group(m, now, 2) == in_group(m, pre, 2).push(id));
                assert(in_group(m, now, 2).no_duplicates()) by {
                    let g = in_group(m, now, 2);
                    assert forall|a: int, b: int| 0 <= a < g.len() && 0 <= b < g.len() && a != b implies g[a] != g[b] by {
                        if a == g.len() - 1 {
                            assert(in_group(m, pre, 2).contains(g[b]));
                        } else if b == g.len() - 1 {
                            assert(in_group(m, pre, 2).contains(g[a]));
                        }
                    }
                }
                assert forall|k: Id| #[trigger] in_group(m, now, 2).contains(k) implies now.contains(k) by {
                    if k != id {
                        assert(in_group(m, pre, 2).contains(k));
                        let a = choose|a: int| 0 <= a < pre.len() && pre[a] == k;
                        assert(now[a] == k);
                    } else {
                        assert(now[i as int] == k);
                    }
                }
            }
        } else if task.focus {
            focus.push(row);
        } else {
            plan.push(row);
        }
        proof {
            assert forall|k: Id| #[trigger] in_group(m, now, 2).contains(k) implies now.contains(k) by {
                if in_group(m, pre, 2).contains(k) {
                    let a = choose|a: int| 0 <= a < pre.len() && pre[a] == k;
                    assert(now[a] == k);
                } else {
                    assert(now[i as int] == k);
                }
            }
        }
        i = i + 1;
    }
    proof {
        assert(ord.subrange(0, ord.len() as int) =~= ord);
    }
    let ghost group2 = in_group(m, ord, 2);
    let sorted = sort_keyed(closed);
    let done = unkeyed(sorted);
    proof {
        assert forall|k: Id| has_row(done@, k) <==> #[trigger] group2.contains(k) by {
            if has_row(done@, k) {
                let a = choose|a: int| 0 <= a < done@.len() && #[trigger] done@[a].task == k;
                assert(sorted@.contains(sorted@[a]));
                let b = choose|b: int| 0 <= b < closed@.len() && closed@[b] == sorted@[a];
                assert(closed@[b].1.task == group2[b]);
            }
            if group2.contains(k) {
                let b = choose|b: int| 0 <= b < group2.len() && group2[b] == k;
                assert(closed@[b].1.task == k);
                assert(closed@.contains(closed@[b]));
                assert(sorted@.contains(closed@[b]));
                let a = choose|a: int| 0 <= a < sorted@.len() && sorted@[a] == closed@[b];
                assert(done@[a].task == k);
            }
        }
        assert forall|a: int| 0 <= a < done@.len() implies row_ok(m, #[trigger] done@[a], done@[a].task, today, Some(day))
            && sorted@[a].0 == closed_key(m, done@[a].task) by {
            assert(sorted@.contains(sorted@[a]));
            let b = choose|b: int| 0 <= b < closed@.len() && closed@[b] == sorted@[a];
        }
    }
    let moved = moved_rows(model, day, today);
    let open = focus.len().saturating_add(plan.len());
    let planned = open.saturating_add(done.len()).saturating_add(moved.len());
    let counts = DayCounts { planned, open, done: done.len(), moved: moved.len() };
    DayView { day, focus, plan, done, moved, counts }
}

// ---- the backlog -----------------------------------------------------

/// The group of the backlog a task is drawn in: the ordinary ones, the
/// waiting ones, or none at all for a closed one.
pub open spec fn backlog_group_of(t: TaskView) -> u8 {
    if !t.open() {
        2
    } else if t.waiting {
        1
    } else {
        0
    }
}

/// The tasks of a sequence drawn in a group of the backlog, in order.
pub open spec fn in_backlog_group(m: ModelView, s: Seq<Id>, group: u8) -> Seq<Id>
    decreases s.len(),
{
    if s.len() == 0 {
        Seq::empty()
    } else {
        let rest = in_backlog_group(m, s.drop_last(), group);
        if backlog_group_of(m.tasks[s.last()]) == group {
            rest.push(s.last())
        } else {
            rest
        }
    }
}

/// A live, unstopped schedule, by title and rule.
#[derive(Clone, Debug)]
pub struct ScheduleRow {
    pub schedule: Id,
    pub title: String,
    pub rule: Rule,
}

/// The two groups of the backlog and the schedule list under them.
#[derive(Clone, Debug)]
pub struct BacklogView {
    pub ordinary: Vec<Row>,
    pub waiting: Vec<Row>,
    pub schedules: Vec<ScheduleRow>,
    /// Live open backlog tasks, and how many of them are waiting.
    pub open: usize,
    pub waiting_count: usize,
}

/// The schedules that are not stopped, by id, each as its title and rule.
pub open spec fn schedule_rows_ok(m: ModelView, rows: Seq<ScheduleRow>) -> bool {
    &&& forall|i: int, j: int| 0 <= i < j < rows.len() ==> #[trigger] rows[i].schedule < #[trigger] rows[j].schedule
    &&& forall|k: Id| (exists|i: int| 0 <= i < rows.len() && #[trigger] rows[i].schedule == k) <==> (m.schedules.contains_key(k)
        && m.schedules[k].stopped_on is None)
    &&& forall|i: int| 0 <= i < rows.len() ==> #[trigger] rows[i].title@ == m.schedules[rows[i].schedule].title
        && rows[i].rule@ == m.schedules[rows[i].schedule].rule
}

/// A schedule row as the schedule filed under an id draws.
pub open spec fn schedule_row_is(m: ModelView, r: ScheduleRow, id: Id) -> bool {
    r.schedule == id && r.title@ == m.schedules[id].title && r.rule@ == m.schedules[id].rule
}

/// The backlog: one flat list, with the waiting tasks shown apart.
pub fn backlog_view(model: &Model, today: Date) -> (v: BacklogView)
    ensures
        rows_are(model@, v.ordinary@, in_backlog_group(model@, order_of(model@.tasks, Place::Backlog), 0), today, None),
        rows_are(model@, v.waiting@, in_backlog_group(model@, order_of(model@.tasks, Place::Backlog), 1), today, None),
        schedule_rows_ok(model@, v.schedules@),
        v.waiting_count == v.waiting@.len(),
        v.open == capped((v.ordinary@.len() + v.waiting@.len()) as int),
{
    let ghost m = model@;
    let order = model.place(Place::Backlog);
    let ghost ord = order@;
    let mut ordinary: Vec<Row> = Vec::new();
    let mut waiting: Vec<Row> = Vec::new();
    let mut i: usize = 0;
    while i < order.len()
        invariant
            m == model@,
            ord == order@,
            super::model::is_order(m.tasks, Place::Backlog, ord),
            i <= ord.len(),
            rows_are(m, ordinary@, in_backlog_group(m, ord.subrange(0, i as int), 0), today, None),
            rows_are(m, waiting@, in_backlog_group(m, ord.subrange(0, i as int), 1), today, None),
        decreases ord.len() - i,
    {
        let id = order[i];
        let ghost pre = ord.subrange(0, i as int);
        let ghost now = ord.subrange(0, i + 1);
        proof {
            assert(now.drop_last() =~= pre);
            assert(now.last() == id);
            assert(ord.contains(id));
        }
        let task = model.task(id).unwrap();
        if task.is_open() {
            let row = row_of(model, id, task, today, None);
            if task.waiting {
                waiting.push(row);
            } else {
                ordinary.push(row);
            }
        }
        i = i + 1;
    }
    proof {
        assert(ord.subrange(0, ord.len() as int) =~= ord);
    }
    let ids = unstopped_ids(model);
    let mut schedules: Vec<ScheduleRow> = Vec::new();
    let mut j: usize = 0;
    while j < ids.len()
        invariant
            m == model@,
            unstopped_order(m, ids@),
            j <= ids@.len(),
            schedules@.len() == j,
            forall|a: int| 0 <= a < j ==> schedule_row_is(m, #[trigger] schedules@[a], ids@[a]),
        decreases ids@.len() - j,
    {
        let id = ids[j];
        proof {
            assert(ids@.contains(id));
        }
        let s = model.schedule(id).unwrap();
        let title = super::model::copy_string(&s.title);
        let rule = s.rule.copy();
        let ghost was = schedules@;
        schedules.push(ScheduleRow { schedule: id, title, rule });
        proof {
            assert(m.schedules[id] == s@);
            assert(schedule_row_is(m, schedules@[j as int], id));
            assert forall|a: int| 0 <= a < j + 1 implies schedule_row_is(m, #[trigger] schedules@[a], ids@[a]) by {
                if a < j {
                    assert(schedules@[a] == was[a]);
                    assert(schedule_row_is(m, was[a], ids@[a]));
                }
            }
        }
        j = j + 1;
    }
    proof {
        assert forall|k: Id| (exists|a: int| 0 <= a < schedules@.len() && #[trigger] schedules@[a].schedule == k) <==> (m.schedules.contains_key(k)
            && m.schedules[k].stopped_on is None) by {
            if m.schedules.contains_key(k) && m.schedules[k].stopped_on is None {
                assert(ids@.contains(k));
                let a = choose|a: int| 0 <= a < ids@.len() && ids@[a] == k;
                assert(schedule_row_is(m, schedules@[a], ids@[a]));
                assert(schedules@[a].schedule == k);
            }
            if exists|a: int| 0 <= a < schedules@.len() && #[trigger] schedules@[a].schedule == k {
                let a = choose|a: int| 0 <= a < schedules@.len() && #[trigger] schedules@[a].schedule == k;
                assert(schedule_row_is(m, schedules@[a], ids@[a]));
                assert(ids@.contains(ids@[a]));
            }
        }
        assert forall|a: int, b: int| 0 <= a < b < schedules@.len() implies #[trigger] schedules@[a].schedule < #[trigger] schedules@[b].schedule by {
            assert(schedule_row_is(m, schedules@[a], ids@[a]));
            assert(schedule_row_is(m, schedules@[b], ids@[b]));
        }
        assert forall|a: int| 0 <= a < schedules@.len() implies #[trigger] schedules@[a].title@ == m.schedules[schedules@[a].schedule].title
            && schedules@[a].rule@ == m.schedules[schedules@[a].schedule].rule by {
            assert(schedule_row_is(m, schedules@[a], ids@[a]));
        }
    }
    let waiting_count = waiting.len();
    let open = ordinary.len().saturating_add(waiting_count);
    BacklogView { ordinary, waiting, schedules, open, waiting_count }
}

// ---- the review ------------------------------------------------------

/// The date of the last review started on a day before today: the day
/// the review was opened, if that was before today, and otherwise the day
/// kept from the opening before it.
pub open spec fn previous_review_of(m: ModelView, today: Date) -> Option<Date> {
    match super::model::meta_date_of(m.meta, REVIEW_ON@) {
        Some(on) => if earlier_date(on, today) {
            Some(on)
        } else {
            super::model::meta_date_of(m.meta, REVIEW_BEFORE@)
        },
        None => None,
    }
}

/// The date of the last review started on a day before today, which is
/// the lower bound of the reminder window.
pub fn previous_review(model: &Model, today: Date) -> (r: Option<Date>)
    ensures
        r == previous_review_of(model@, today),
{
    match model.meta_date(REVIEW_ON) {
        Some(on) => if is_earlier(on, today) {
            Some(on)
        } else {
            model.meta_date(REVIEW_BEFORE)
        },
        None => None,
    }
}

// ---- the pile --------------------------------------------------------

/// The open tasks of a sequence, in order.
pub open spec fn open_of(m: ModelView, s: Seq<Id>) -> Seq<Id>
    decreases s.len(),
{
    if s.len() == 0 {
        Seq::empty()
    } else {
        let rest = open_of(m, s.drop_last());
        if m.tasks[s.last()].open() {
            rest.push(s.last())
        } else {
            rest
        }
    }
}

/// A day the pile has: one that has passed, within the horizon, with a
/// live open task on it.
pub open spec fn pile_day(m: ModelView, d: Date, today: Date) -> bool {
    &&& earlier_date(d, today)
    &&& within_horizon(m, Some(d), today)
    &&& exists|k: Id| #[trigger] m.tasks.contains_key(k) && m.tasks[k].live() && m.tasks[k].open() && m.tasks[k].day == Some(d)
}

/// One day of the pile: how many days ago it was, and its open tasks in
/// their order.
#[derive(Clone, Debug)]
pub struct PileDay {
    pub day: Date,
    /// `today − day` in days, which the screen renders relatively.
    pub age: i64,
    pub rows: Vec<Row>,
}

/// Every open task on a day before today, grouped by day, newest first.
#[derive(Clone, Debug)]
pub struct Pile {
    pub days: Vec<PileDay>,
    pub total: usize,
}

/// How many rows the days of a pile hold.
pub open spec fn rows_in(days: Seq<PileDay>) -> int
    decreases days.len(),
{
    if days.len() == 0 {
        0
    } else {
        rows_in(days.drop_last()) + days.last().rows@.len()
    }
}

/// Each day of the pile as the pile draws it.
pub open spec fn pile_day_ok(m: ModelView, p: PileDay, today: Date) -> bool {
    &&& p.age == day_number(today) - day_number(p.day)
    &&& rows_are(m, p.rows@, open_of(m, order_of(m.tasks, Place::Day(p.day))), today, Some(p.day))
}

/// The pile: the days it has, newest first, each once.
pub open spec fn pile_ok(m: ModelView, p: Pile, today: Date) -> bool {
    &&& forall|i: int, j: int| 0 <= i < j < p.days@.len() ==> earlier_date(#[trigger] p.days@[j].day, #[trigger] p.days@[i].day)
    &&& forall|d: Date| (exists|i: int| 0 <= i < p.days@.len() && #[trigger] p.days@[i].day == d) <==> pile_day(m, d, today)
    &&& forall|i: int| 0 <= i < p.days@.len() ==> pile_day_ok(m, #[trigger] p.days@[i], today)
    &&& p.total == capped(rows_in(p.days@))
}

/// The latest date of a list before a bound, or the latest of all.
fn latest_before(dates: &Vec<Date>, bound: Option<Date>) -> (r: Option<Date>)
    ensures
        match r {
            Some(b) => dates@.contains(b) && (bound matches Some(x) ==> earlier_date(b, x)) && forall|d: Date| #[trigger] dates@.contains(d)
                && (bound matches Some(x) ==> earlier_date(d, x)) ==> !earlier_date(b, d),
            None => forall|d: Date| #[trigger] dates@.contains(d) ==> (bound matches Some(x) && !earlier_date(d, x)),
        },
{
    let mut best: Option<Date> = None;
    let mut i: usize = 0;
    while i < dates.len()
        invariant
            i <= dates@.len(),
            match best {
                Some(b) => dates@.contains(b) && (bound matches Some(x) ==> earlier_date(b, x)) && forall|j: int| 0 <= j < i && (bound matches Some(
                    x,
                ) ==> earlier_date(dates@[j], x)) ==> !earlier_date(b, #[trigger] dates@[j]),
                None => forall|j: int| 0 <= j < i ==> (bound matches Some(x) && !earlier_date(#[trigger] dates@[j], x)),
            },
        decreases dates@.len() - i,
    {
        let d = dates[i];
        let below = match bound {
            Some(x) => is_earlier(d, x),
            None => true,
        };
        if below {
            match best {
                Some(b) => if is_earlier(b, d) {
                    best = Some(d);
                },
                None => {
                    best = Some(d);
                },
            }
        }
        i = i + 1;
    }
    proof {
        match best {
            Some(b) => {
                assert forall|d: Date| #[trigger] dates@.contains(d) && (bound matches Some(x) ==> earlier_date(d, x)) implies !earlier_date(b, d) by {
                    let j = choose|j: int| 0 <= j < dates@.len() && dates@[j] == d;
                }
            },
            None => {
                assert forall|d: Date| #[trigger] dates@.contains(d) implies (bound matches Some(x) && !earlier_date(d, x)) by {
                    let j = choose|j: int| 0 <= j < dates@.len() && dates@[j] == d;
                }
            },
        }
    }
    best
}

/// The dates of a list, each once, latest first.
fn latest_first(dates: &Vec<Date>) -> (out: Vec<Date>)
    ensures
        forall|i: int, j: int| 0 <= i < j < out@.len() ==> earlier_date(#[trigger] out@[j], #[trigger] out@[i]),
        forall|d: Date| #[trigger] out@.contains(d) <==> dates@.contains(d),
{
    let mut out: Vec<Date> = Vec::new();
    let first = latest_before(dates, None);
    let mut last = match first {
        None => {
            return out;
        },
        Some(d) => d,
    };
    out.push(last);
    proof {
        assert(out@[0] == last);
        assert forall|d: Date| #[trigger] dates@.contains(d) && !earlier_date(d, last) implies out@.contains(d) by {
            assert(!earlier_date(last, d));
            assert(d == last);
        }
    }
    loop
        invariant
            out@.len() > 0,
            out@.last() == last,
            forall|i: int, j: int| 0 <= i < j < out@.len() ==> earlier_date(#[trigger] out@[j], #[trigger] out@[i]),
            forall|d: Date| #[trigger] out@.contains(d) ==> dates@.contains(d),
            forall|d: Date| #[trigger] dates@.contains(d) && !earlier_date(d, last) ==> out@.contains(d),
        decreases last.year + 32768, last.month, last.day,
    {
        let next = latest_before(dates, Some(last));
        match next {
            None => {
                return out;
            },
            Some(b) => {
                let ghost was = out@;
                out.push(b);
                proof {
                    assert forall|d: Date| #[trigger] out@.contains(d) implies dates@.contains(d) by {
                        if d != b {
                            let j = choose|j: int| 0 <= j < out@.len() && out@[j] == d;
                            assert(was[j] == d);
                            assert(was.contains(d));
                        }
                    }
                    assert forall|d: Date| #[trigger] dates@.contains(d) && !earlier_date(d, b) implies out@.contains(d) by {
                        if d == b {
                            assert(out@[was.len() as int] == b);
                        } else if !earlier_date(d, last) {
                            assert(was.contains(d));
                            let j = choose|j: int| 0 <= j < was.len() && was[j] == d;
                            assert(out@[j] == d);
                        } else {
                            assert(!earlier_date(b, d));
                        }
                    }
                    assert forall|i: int, j: int| 0 <= i < j < out@.len() implies earlier_date(#[trigger] out@[j], #[trigger] out@[i]) by {
                        if j == was.len() && i < was.len() - 1 {
                            assert(earlier_date(was[was.len() - 1], was[i]));
                        }
                    }
                }
                last = b;
            },
        }
    }
}

/// The days the pile has, from the live open tasks on days that passed.
fn pile_dates(model: &Model, today: Date) -> (dates: Vec<Date>)
    ensures
        forall|d: Date| #[trigger] dates@.contains(d) <==> pile_day(model@, d, today),
{
    let ghost m = model@;
    let keys = super::model::ids_of(&model.tasks);
    let mut dates: Vec<Date> = Vec::new();
    let mut i: usize = 0;
    while i < keys.len()
        invariant
            m == model@,
            i <= keys@.len(),
            forall|k: Id| #[trigger] keys@.contains(k) <==> model.tasks@.contains_key(k),
            forall|d: Date| #[trigger] dates@.contains(d) ==> pile_day(m, d, today),
            forall|j: int, d: Date| 0 <= j < i && m.tasks.contains_key(#[trigger] keys@[j]) && m.tasks[keys@[j]].live() && m.tasks[keys@[j]].open()
                && m.tasks[keys@[j]].day == Some(d) && earlier_date(d, today) && within_horizon(m, Some(d), today) ==> #[trigger] dates@.contains(d),
        decreases keys@.len() - i,
    {
        let k = keys[i];
        let ghost was = dates@;
        proof {
            assert(keys@.contains(k));
        }
        let task = model.task(k).unwrap();
        if task.is_live() && task.is_open() {
            match task.day {
                Some(d) => {
                    if is_earlier(d, today) && reaches(model, Some(d), today) {
                        dates.push(d);
                        proof {
                            assert(dates@[dates@.len() - 1] == d);
                            assert(m.tasks.contains_key(k));
                        }
                    }
                },
                None => {},
            }
        }
        proof {
            assert forall|x: Date| #[trigger] dates@.contains(x) implies pile_day(m, x, today) by {
                if was.contains(x) {
                } else {
                    assert(m.tasks.contains_key(k));
                }
            }
            assert forall|j: int, x: Date| 0 <= j < i + 1 && m.tasks.contains_key(#[trigger] keys@[j]) && m.tasks[keys@[j]].live()
                && m.tasks[keys@[j]].open() && m.tasks[keys@[j]].day == Some(x) && earlier_date(x, today) && within_horizon(m, Some(x), today)
                implies #[trigger] dates@.contains(x) by {
                if j < i {
                    assert(was.contains(x));
                    let w = choose|w: int| 0 <= w < was.len() && was[w] == x;
                    assert(dates@[w] == x);
                } else {
                    assert(dates@[dates@.len() - 1] == x);
                }
            }
        }
        i = i + 1;
    }
    proof {
        assert forall|d: Date| #[trigger] pile_day(m, d, today) implies dates@.contains(d) by {
            let k = choose|k: Id| #[trigger] m.tasks.contains_key(k) && m.tasks[k].live() && m.tasks[k].open() && m.tasks[k].day == Some(d);
            assert(keys@.contains(k));
            let j = choose|j: int| 0 <= j < keys@.len() && keys@[j] == k;
        }
    }
    dates
}

/// The open tasks of one day, each as a row of it.
fn open_rows(model: &Model, day: Date, today: Date) -> (rows: Vec<Row>)
    ensures
        rows_are(model@, rows@, open_of(model@, order_of(model@.tasks, Place::Day(day))), today, Some(day)),
{
    let ghost m = model@;
    let order = model.place(Place::Day(day));
    let ghost ord = order@;
    let mut rows: Vec<Row> = Vec::new();
    let mut i: usize = 0;
    while i < order.len()
        invariant
            m == model@,
            ord == order@,
            super::model::is_order(m.tasks, Place::Day(day), ord),
            i <= ord.len(),
            rows_are(m, rows@, open_of(m, ord.subrange(0, i as int)), today, Some(day)),
        decreases ord.len() - i,
    {
        let id = order[i];
        proof {
            assert(ord.subrange(0, i + 1).drop_last() =~= ord.subrange(0, i as int));
            assert(ord.contains(id));
        }
        let task = model.task(id).unwrap();
        if task.is_open() {
            rows.push(row_of(model, id, task, today, Some(day)));
        }
        i = i + 1;
    }
    proof {
        assert(ord.subrange(0, ord.len() as int) =~= ord);
    }
    rows
}

/// Every unfinished task from a day that has passed, back as far as the
/// horizon reaches.
pub fn pile(model: &Model, today: Date) -> (p: Pile)
    ensures
        pile_ok(model@, p, today),
{
    let candidates = pile_dates(model, today);
    let dates = latest_first(&candidates);
    let mut days: Vec<PileDay> = Vec::new();
    let mut total: usize = 0;
    let mut i: usize = 0;
    while i < dates.len()
        invariant
            i <= dates@.len(),
            days@.len() == i,
            forall|a: int| 0 <= a < i ==> #[trigger] days@[a].day == dates@[a] && pile_day_ok(model@, days@[a], today),
            total == capped(rows_in(days@)),
        decreases dates@.len() - i,
    {
        let day = dates[i];
        let rows = open_rows(model, day, today);
        let age = day_count(today) - day_count(day);
        let n = rows.len();
        let ghost was = days@;
        days.push(PileDay { day, age, rows });
        proof {
            assert(days@.drop_last() =~= was);
            assert forall|a: int| 0 <= a < i + 1 implies #[trigger] days@[a].day == dates@[a] && pile_day_ok(model@, days@[a], today) by {
                if a < i {
                    assert(days@[a] == was[a]);
                    assert(was[a].day == dates@[a]);
                }
            }
        }
        total = total.saturating_add(n);
        i = i + 1;
    }
    let p = Pile { days, total };
    proof {
        assert forall|d: Date| (exists|a: int| 0 <= a < p.days@.len() && #[trigger] p.days@[a].day == d) <==> pile_day(model@, d, today) by {
            if pile_day(model@, d, today) {
                assert(candidates@.contains(d));
                assert(dates@.contains(d));
                let a = choose|a: int| 0 <= a < dates@.len() && dates@[a] == d;
                assert(p.days@[a].day == d);
            }
            if exists|a: int| 0 <= a < p.days@.len() && #[trigger] p.days@[a].day == d {
                let a = choose|a: int| 0 <= a < p.days@.len() && #[trigger] p.days@[a].day == d;
                assert(dates@.contains(dates@[a]));
            }
        }
    }
    p
}

// ---- what surfaces -----------------------------------------------------

/// The second step of the review.
#[derive(Clone, Debug)]
pub struct Surfaced {
    pub due: Vec<Row>,
    pub reminders: Vec<Row>,
    /// Copies starting today, shown for information: nothing is decided
    /// about them, so they are outside `total`.
    pub also_starting_today: Vec<Row>,
    /// How many rows the step asks a decision about.
    pub total: usize,
}

impl Surfaced {
    /// Whether the step is skipped. Copies starting today are worth
    /// showing on their own, so they count here.
    pub fn is_empty(&self) -> (r: bool)
        ensures
            r == (self.due@.len() == 0 && self.reminders@.len() == 0 && self.also_starting_today@.len() == 0),
    {
        self.due.len() == 0 && self.reminders.len() == 0 && self.also_starting_today.len() == 0
    }
}

/// A live backlog task that is due by the day the settings let the review
/// look ahead to. Waiting suppresses a due date.
pub open spec fn surfaces_due(m: ModelView, k: Id, today: Date) -> bool {
    let t = m.tasks[k];
    &&& m.tasks.contains_key(k)
    &&& t.live()
    &&& t.open()
    &&& t.day is None
    &&& !t.waiting
    &&& t.due_on matches Some(d) && day_number(d) - day_number(today) <= m.settings@.due_ahead_days as int
}

/// A live backlog task reminded of on a day up to today and after the
/// last review, if there was one. Waiting does not suppress a reminder.
pub open spec fn surfaces_reminder(m: ModelView, k: Id, today: Date) -> bool {
    let t = m.tasks[k];
    &&& m.tasks.contains_key(k)
    &&& t.live()
    &&& t.open()
    &&& t.day is None
    &&& t.remind_on matches Some(r) && !earlier_date(today, r) && match previous_review_of(m, today) {
        Some(p) => earlier_date(p, r),
        None => true,
    }
}

/// A live copy generation made for today, which is on today.
pub open spec fn starts_today(m: ModelView, k: Id, today: Date) -> bool {
    let t = m.tasks[k];
    &&& m.tasks.contains_key(k)
    &&& t.live()
    &&& t.scheduled_on == Some(today)
    &&& t.day == Some(today)
}

/// The order the due rows are in: overdue first, then by due date, then
/// by task.
pub open spec fn due_key(m: ModelView, k: Id, today: Date) -> int {
    match m.tasks[k].due_on {
        Some(d) => (if earlier_date(d, today) { 0int } else { 0x1_0000_0000int }) + day_number(d),
        None => 0,
    }
}

/// The order the reminders are in: by the day, then by task.
pub open spec fn remind_key(m: ModelView, k: Id) -> int {
    match m.tasks[k].remind_on {
        Some(r) => day_number(r),
        None => 0,
    }
}

/// Which list of the step a task is picked for: the due ones, the
/// reminders, or the copies starting today.
pub open spec fn picks(m: ModelView, list: u8, k: Id, today: Date) -> bool {
    if list == 0 {
        surfaces_due(m, k, today)
    } else if list == 1 {
        surfaces_reminder(m, k, today)
    } else {
        starts_today(m, k, today)
    }
}

/// What a list of the step is ordered by, before the task.
pub open spec fn list_key(m: ModelView, list: u8, k: Id, today: Date) -> int {
    if list == 0 {
        due_key(m, k, today)
    } else if list == 1 {
        remind_key(m, k)
    } else {
        0
    }
}

/// The day a list of the step draws its rows on.
pub open spec fn list_day(list: u8, today: Date) -> Option<Date> {
    if list == 2 {
        Some(today)
    } else {
        None
    }
}

/// Rows that are each task a list picks out once, each drawn as its row,
/// in the order of the list's key and then of the task.
pub open spec fn picked_rows(m: ModelView, rows: Seq<Row>, list: u8, today: Date) -> bool {
    &&& forall|k: Id| #[trigger] has_row(rows, k) <==> picks(m, list, k, today)
    &&& forall|i: int| 0 <= i < rows.len() ==> row_ok(m, #[trigger] rows[i], rows[i].task, today, list_day(list, today))
    &&& forall|i: int, j: int| 0 <= i < j < rows.len() ==> (list_key(m, list, #[trigger] rows[i].task, today) < list_key(
        m,
        list,
        #[trigger] rows[j].task,
        today,
    ) || (list_key(m, list, rows[i].task, today) == list_key(m, list, rows[j].task, today) && rows[i].task < rows[j].task))
}

/// What is collected of a list after the first `i` tasks of a table.
pub open spec fn collected(m: ModelView, pairs: Seq<(i128, Row)>, keys: Seq<Id>, i: int, list: u8, today: Date) -> bool {
    &&& forall|a: int| 0 <= a < pairs.len() ==> #[trigger] pairs[a].0 == list_key(m, list, pairs[a].1.task, today)
        && row_ok(m, pairs[a].1, pairs[a].1.task, today, list_day(list, today)) && picks(m, list, pairs[a].1.task, today)
        && keys.subrange(0, i).contains(pairs[a].1.task)
    &&& forall|a: int, b: int| 0 <= a < b < pairs.len() ==> pairs[a].1.task != pairs[b].1.task
    &&& forall|j: int| 0 <= j < i && picks(m, list, #[trigger] keys[j], today) ==> exists|a: int| 0 <= a < pairs.len() && #[trigger] pairs[a].1.task == keys[j]
}

/// One more task of the table looked at, and collected if it is picked.
fn collect_step(pairs: &mut Vec<(i128, Row)>, picked: bool, key: i128, row: Row, keys: Ghost<Seq<Id>>, i: Ghost<int>, m: Ghost<ModelView>, list: u8, today: Date)
    requires
        0 <= i@ < keys@.len(),
        keys@.no_duplicates(),
        row.task == keys@[i@],
        picked == picks(m@, list, keys@[i@], today),
        picked ==> key == list_key(m@, list, keys@[i@], today) && row_ok(m@, row, keys@[i@], today, list_day(list, today)),
        collected(m@, old(pairs)@, keys@, i@, list, today),
    ensures
        collected(m@, final(pairs)@, keys@, i@ + 1, list, today),
{
    let ghost was = pairs@;
    let ghost ks = keys@;
    let ghost n = i@;
    let ghost k = ks[n];
    proof {
        assert(!ks.subrange(0, n).contains(k)) by {
            if ks.subrange(0, n).contains(k) {
                let a = choose|a: int| 0 <= a < n && ks.subrange(0, n)[a] == k;
                assert(ks[a] == ks[n]);
            }
        }
    }
    if picked {
        pairs.push((key, row));
    }
    proof {
        let now = ks.subrange(0, n + 1);
        assert forall|a: int| 0 <= a < pairs@.len() implies #[trigger] pairs@[a].0 == list_key(m@, list, pairs@[a].1.task, today)
            && row_ok(m@, pairs@[a].1, pairs@[a].1.task, today, list_day(list, today)) && picks(m@, list, pairs@[a].1.task, today)
            && now.contains(pairs@[a].1.task) by {
            if a < was.len() {
                assert(pairs@[a] == was[a]);
                assert(was[a].0 == list_key(m@, list, was[a].1.task, today));
                assert(ks.subrange(0, n).contains(was[a].1.task));
                let c = choose|c: int| 0 <= c < n && ks.subrange(0, n)[c] == was[a].1.task;
                assert(now[c] == was[a].1.task);
            } else {
                assert(now[n] == k);
            }
        }
        assert forall|a: int, b: int| 0 <= a < b < pairs@.len() implies pairs@[a].1.task != pairs@[b].1.task by {
            if b >= was.len() {
                assert(was[a].0 == list_key(m@, list, was[a].1.task, today));
                assert(ks.subrange(0, n).contains(was[a].1.task));
            }
        }
        assert forall|j: int| 0 <= j < n + 1 && picks(m@, list, #[trigger] ks[j], today) implies exists|a: int| 0 <= a < pairs@.len()
            && #[trigger] pairs@[a].1.task == ks[j] by {
            if j < n {
                let a = choose|a: int| 0 <= a < was.len() && #[trigger] was[a].1.task == ks[j];
                assert(pairs@[a] == was[a]);
            } else {
                assert(pairs@[pairs@.len() - 1].1.task == ks[j]);
            }
        }
    }
}

/// A list collected from the whole table, in its order.
fn finish_list(pairs: Vec<(i128, Row)>, keys: Ghost<Seq<Id>>, m: Ghost<ModelView>, list: u8, today: Date) -> (rows: Vec<Row>)
    requires
        collected(m@, pairs@, keys@, keys@.len() as int, list, today),
        forall|k: Id| picks(m@, list, k, today) ==> #[trigger] keys@.contains(k),
    ensures
        picked_rows(m@, rows@, list, today),
{
    let ghost ks = keys@;
    proof {
        assert(ks.subrange(0, ks.len() as int) =~= ks);
    }
    let ghost all = pairs@;
    let sorted = sort_keyed(pairs);
    let rows = unkeyed(sorted);
    proof {
        assert forall|k: Id| #[trigger] has_row(rows@, k) <==> picks(m@, list, k, today) by {
            if has_row(rows@, k) {
                let a = choose|a: int| 0 <= a < rows@.len() && #[trigger] rows@[a].task == k;
                assert(sorted@.contains(sorted@[a]));
                let b = choose|b: int| 0 <= b < all.len() && all[b] == sorted@[a];
                assert(all[b].0 == list_key(m@, list, all[b].1.task, today));
            }
            if picks(m@, list, k, today) {
                assert(ks.contains(k));
                let j = choose|j: int| 0 <= j < ks.len() && ks[j] == k;
                let b = choose|b: int| 0 <= b < all.len() && #[trigger] all[b].1.task == ks[j];
                assert(all.contains(all[b]));
                assert(sorted@.contains(all[b]));
                let a = choose|a: int| 0 <= a < sorted@.len() && sorted@[a] == all[b];
                assert(rows@[a].task == k);
            }
        }
        assert forall|a: int| 0 <= a < rows@.len() implies row_ok(m@, #[trigger] rows@[a], rows@[a].task, today, list_day(list, today))
            && sorted@[a].0 == list_key(m@, list, rows@[a].task, today) by {
            assert(sorted@.contains(sorted@[a]));
            let b = choose|b: int| 0 <= b < all.len() && all[b] == sorted@[a];
            assert(all[b].0 == list_key(m@, list, all[b].1.task, today));
        }
    }
    rows
}

/// The tasks a date or a schedule puts in front of the person today.
pub fn surfaced(model: &Model, today: Date) -> (v: Surfaced)
    ensures
        picked_rows(model@, v.due@, 0, today),
        picked_rows(model@, v.reminders@, 1, today),
        picked_rows(model@, v.also_starting_today@, 2, today),
        v.total == capped((v.due@.len() + v.reminders@.len()) as int),
{
    let ghost m = model@;
    let previous = previous_review(model, today);
    let ahead = model.settings.due_ahead_days();
    let keys = super::model::ids_of(&model.tasks);
    let ghost ks = keys@;
    let mut due: Vec<(i128, Row)> = Vec::new();
    let mut reminders: Vec<(i128, Row)> = Vec::new();
    let mut also: Vec<(i128, Row)> = Vec::new();
    let mut i: usize = 0;
    while i < keys.len()
        invariant
            m == model@,
            ks == keys@,
            previous == previous_review_of(m, today),
            ahead == m.settings@.due_ahead_days,
            ks.no_duplicates(),
            forall|k: Id| #[trigger] ks.contains(k) <==> model.tasks@.contains_key(k),
            i <= ks.len(),
            collected(m, due@, ks, i as int, 0, today),
            collected(m, reminders@, ks, i as int, 1, today),
            collected(m, also@, ks, i as int, 2, today),
        decreases ks.len() - i,
    {
        let k = keys[i];
        proof {
            assert(ks.contains(k));
        }
        let task = model.task(k).unwrap();
        let backlog_open = task.is_live() && task.is_open() && task.day.is_none();
        let (is_due, due_at) = match task.due_on {
            Some(d) => {
                let overdue = is_earlier(d, today);
                let key: i128 = (if overdue { 0i128 } else { 0x1_0000_0000i128 }) + day_count(d) as i128;
                (backlog_open && !task.waiting && day_count(d) - day_count(today) <= ahead as i64, key)
            },
            None => (false, 0),
        };
        let (is_reminder, remind_at) = match task.remind_on {
            Some(r) => {
                let after_last = match previous {
                    Some(p) => is_earlier(p, r),
                    None => true,
                };
                (backlog_open && !is_earlier(today, r) && after_last, day_count(r) as i128)
            },
            None => (false, 0),
        };
        let is_also = task.is_live() && task.scheduled_on == Some(today) && task.day == Some(today);
        collect_step(&mut due, is_due, due_at, row_of(model, k, task, today, None), Ghost(ks), Ghost(i as int), Ghost(m), 0, today);
        collect_step(&mut reminders, is_reminder, remind_at, row_of(model, k, task, today, None), Ghost(ks), Ghost(i as int), Ghost(m), 1, today);
        collect_step(&mut also, is_also, 0, row_of(model, k, task, today, Some(today)), Ghost(ks), Ghost(i as int), Ghost(m), 2, today);
        i = i + 1;
    }
    let due = finish_list(due, Ghost(ks), Ghost(m), 0, today);
    let reminders = finish_list(reminders, Ghost(ks), Ghost(m), 1, today);
    let also_starting_today = finish_list(also, Ghost(ks), Ghost(m), 2, today);
    let total = due.len().saturating_add(reminders.len());
    Surfaced { due, reminders, also_starting_today, total }
}

// ---- a review working down what it opened with -----------------------

/// The tasks of rows a review opened with that the model still holds, in
/// the rows' order.
pub open spec fn still_held(m: ModelView, rows: Seq<Row>) -> Seq<Id>
    decreases rows.len(),
{
    if rows.len() == 0 {
        Seq::empty()
    } else {
        let rest = still_held(m, rows.drop_last());
        if m.tasks.contains_key(rows.last().task) {
            rest.push(rows.last().task)
        } else {
            rest
        }
    }
}

/// The day a row is drawn on again: the day given, or the day the task is
/// on now.
pub open spec fn again_on(m: ModelView, on: Option<Date>, k: Id) -> Option<Date> {
    match on {
        Some(d) => Some(d),
        None => m.tasks[k].day,
    }
}

/// Rows drawn again: the row of each task that is still held, in order,
/// drawn on the day given, or where the task is now.
pub open spec fn drawn_again(m: ModelView, rows: Seq<Row>, opened: Seq<Row>, today: Date, on: Option<Date>) -> bool {
    &&& rows.len() == still_held(m, opened).len()
    &&& forall|i: int| 0 <= i < rows.len() ==> #[trigger] rows[i].task == still_held(m, opened)[i] && row_ok(
        m,
        rows[i],
        rows[i].task,
        today,
        again_on(m, on, rows[i].task),
    )
}

/// The rows of the tasks still held, each drawn again on the day given,
/// or on the day the task is on now.
fn rows_again(model: &Model, opened: &Vec<Row>, today: Date, on: Option<Date>) -> (rows: Vec<Row>)
    ensures
        drawn_again(model@, rows@, opened@, today, on),
{
    let ghost m = model@;
    let mut rows: Vec<Row> = Vec::new();
    let mut i: usize = 0;
    while i < opened.len()
        invariant
            m == model@,
            i <= opened@.len(),
            drawn_again(m, rows@, opened@.subrange(0, i as int), today, on),
        decreases opened@.len() - i,
    {
        let id = opened[i].task;
        let ghost pre = opened@.subrange(0, i as int);
        let ghost now = opened@.subrange(0, i + 1);
        let ghost was = rows@;
        proof {
            assert(now.drop_last() =~= pre);
            assert(now.last().task == id);
        }
        match model.task(id) {
            Some(task) => {
                let day = match on {
                    Some(d) => Some(d),
                    None => task.day,
                };
                rows.push(row_of(model, id, task, today, day));
                proof {
                    assert(still_held(m, now) == still_held(m, pre).push(id));
                    assert forall|j: int| 0 <= j < rows@.len() implies #[trigger] rows@[j].task == still_held(m, now)[j] && row_ok(
                        m,
                        rows@[j],
                        rows@[j].task,
                        today,
                        again_on(m, on, rows@[j].task),
                    ) by {
                        if j < was.len() {
                            assert(rows@[j] == was[j]);
                            assert(was[j].task == still_held(m, pre)[j]);
                        }
                    }
                    assert(drawn_again(m, rows@, now, today, on));
                }
            },
            None => {
                proof {
                    assert(drawn_again(m, was, pre, today, on));
                    assert(!m.tasks.contains_key(now.last().task));
                    assert(still_held(m, now) == still_held(m, pre));
                    assert forall|j: int| 0 <= j < rows@.len() implies #[trigger] rows@[j].task == still_held(m, now)[j] && row_ok(
                        m,
                        rows@[j],
                        rows@[j].task,
                        today,
                        again_on(m, on, rows@[j].task),
                    ) by {
                        assert(was[j].task == still_held(m, pre)[j]);
                    }
                    assert(drawn_again(m, rows@, now, today, on));
                }
            },
        }
        i = i + 1;
    }
    proof {
        assert(opened@.subrange(0, opened@.len() as int) =~= opened@);
    }
    rows
}

/// A pile drawn again: the days and tasks it opened with, in that order,
/// each task drawn as it is now.
pub open spec fn pile_again_ok(m: ModelView, p: Pile, opened: Pile, today: Date) -> bool {
    &&& p.days@.len() == opened.days@.len()
    &&& forall|i: int| 0 <= i < p.days@.len() ==> {
        let d = #[trigger] p.days@[i];
        &&& d.day == opened.days@[i].day
        &&& d.age == day_number(today) - day_number(d.day)
        &&& drawn_again(m, d.rows@, opened.days@[i].rows@, today, Some(d.day))
    }
    &&& p.total == capped(rows_in(p.days@))
}

/// The pile a review is working down: the same days and the same tasks it
/// opened with, every row drawn as the task is now.
///
/// A task the review has closed, moved or deleted has left the pile
/// itself, and its row stays in the day it was on, so that the list never
/// moves under the person's hand. That is also why a deleted task keeps
/// its row here and nowhere else: the review has to be able to say what
/// it did to it.
pub fn pile_again(model: &Model, today: Date, opened: &Pile) -> (p: Pile)
    ensures
        pile_again_ok(model@, p, *opened, today),
{
    let mut days: Vec<PileDay> = Vec::new();
    let mut total: usize = 0;
    let mut i: usize = 0;
    while i < opened.days.len()
        invariant
            i <= opened.days@.len(),
            days@.len() == i,
            forall|a: int| 0 <= a < i ==> {
                let d = #[trigger] days@[a];
                &&& d.day == opened.days@[a].day
                &&& d.age == day_number(today) - day_number(d.day)
                &&& drawn_again(model@, d.rows@, opened.days@[a].rows@, today, Some(d.day))
            },
            total == capped(rows_in(days@)),
        decreases opened.days@.len() - i,
    {
        let day = opened.days[i].day;
        let rows = rows_again(model, &opened.days[i].rows, today, Some(day));
        let n = rows.len();
        let age = day_count(today) - day_count(day);
        let ghost was = days@;
        days.push(PileDay { day, age, rows });
        proof {
            assert(days@.drop_last() =~= was);
            assert forall|a: int| 0 <= a < i + 1 implies {
                let d = #[trigger] days@[a];
                &&& d.day == opened.days@[a].day
                &&& d.age == day_number(today) - day_number(d.day)
                &&& drawn_again(model@, d.rows@, opened.days@[a].rows@, today, Some(d.day))
            } by {
                if a < i {
                    assert(days@[a] == was[a]);
                }
            }
        }
        total = total.saturating_add(n);
        i = i + 1;
    }
    Pile { days, total }
}

/// The surfaced set a review is working down, drawn again the same way.
/// A row is drawn on the day the task is on now, so a task pulled onto
/// today says where it went.
pub fn surfaced_again(model: &Model, today: Date, opened: &Surfaced) -> (v: Surfaced)
    ensures
        drawn_again(model@, v.due@, opened.due@, today, None),
        drawn_again(model@, v.reminders@, opened.reminders@, today, None),
        drawn_again(model@, v.also_starting_today@, opened.also_starting_today@, today, None),
        v.total == capped((v.due@.len() + v.reminders@.len()) as int),
{
    let due = rows_again(model, &opened.due, today, None);
    let reminders = rows_again(model, &opened.reminders, today, None);
    let also_starting_today = rows_again(model, &opened.also_starting_today, today, None);
    let total = due.len().saturating_add(reminders.len());
    Surfaced { due, reminders, also_starting_today, total }
}


// ---- search ------------------------------------------------------------

/// The live tasks whose title holds a text, whatever the case: the open
/// ones and the closed ones apart, and how many there are in all.
#[derive(Debug)]
pub struct SearchResults {
    pub open: Vec<Row>,
    pub closed: Vec<Row>,
    pub total: usize,
}

/// Whether a text holds another as a run of its characters.
pub open spec fn holds_text(hay: Seq<char>, needle: Seq<char>) -> bool {
    exists|i: int| 0 <= i && i + needle.len() <= hay.len() && #[trigger] hay.subrange(i, i + needle.len()) == needle
}

/// A live task whose title, lowercased, holds a lowercased text.
pub open spec fn found(m: ModelView, k: Id, needle: Seq<char>) -> bool {
    &&& m.tasks.contains_key(k)
    &&& m.tasks[k].live()
    &&& holds_text(super::dictionary::lowercase_of(m.tasks[k].title), needle)
}

/// A date as a number in the calendar's order: by year, then month, then
/// day.
pub open spec fn date_key(d: Date) -> int {
    d.year as int * 65536 + d.month as int * 256 + d.day as int
}

/// Where an open row found stands: the days first, the earlier first,
/// then the backlog.
pub open spec fn open_key(place: Place) -> int {
    match place {
        Place::Day(d) => date_key(d),
        Place::Backlog => 0x100_0000_0000,
    }
}

/// A place as a number in the order places have: the backlog first, then
/// the days, the earlier first.
pub open spec fn place_rank(place: Place) -> int {
    match place {
        Place::Backlog => 0,
        Place::Day(d) => 0x1_0000_0000 + date_key(d),
    }
}

/// Whether one closing time is later than another, a time later than
/// none.
pub open spec fn later_closed(a: Option<int>, b: Option<int>) -> bool {
    match (a, b) {
        (Some(x), Some(y)) => x > y,
        (Some(_), None) => true,
        _ => false,
    }
}

/// Whether one closed row comes before another: the later place first,
/// then the later closing, then the later task.
pub open spec fn closed_before(a: Row, b: Row) -> bool {
    place_rank(a.place) > place_rank(b.place) || (place_rank(a.place) == place_rank(b.place) && (later_closed(
        opt_instant(a.closed_at),
        opt_instant(b.closed_at),
    ) || (opt_instant(a.closed_at) == opt_instant(b.closed_at) && a.task > b.task)))
}

/// What a search hands back for a lowercased text: each task found once,
/// drawn as its row on the day it is on, the open ones by place and then
/// task, the closed ones the latest first, and the count of both.
pub open spec fn search_ok(m: ModelView, v: SearchResults, needle: Seq<char>, today: Date) -> bool {
    &&& forall|k: Id| #[trigger] has_row(v.open@, k) <==> (found(m, k, needle) && m.tasks[k].open())
    &&& forall|k: Id| #[trigger] has_row(v.closed@, k) <==> (found(m, k, needle) && !m.tasks[k].open())
    &&& forall|i: int| 0 <= i < v.open@.len() ==> row_ok(m, #[trigger] v.open@[i], v.open@[i].task, today, m.tasks[v.open@[i].task].day)
    &&& forall|i: int| 0 <= i < v.closed@.len() ==> row_ok(m, #[trigger] v.closed@[i], v.closed@[i].task, today, m.tasks[v.closed@[i].task].day)
    &&& forall|i: int, j: int| 0 <= i < j < v.open@.len() ==> (open_key(#[trigger] v.open@[i].place) < open_key(#[trigger] v.open@[j].place)
        || (open_key(v.open@[i].place) == open_key(v.open@[j].place) && v.open@[i].task < v.open@[j].task))
    &&& forall|i: int, j: int| 0 <= i < j < v.closed@.len() ==> closed_before(#[trigger] v.closed@[i], #[trigger] v.closed@[j])
    &&& v.total == v.open@.len() + v.closed@.len()
}

/// Whether a text holds another, looked for at every place it could
/// start.
fn has_text(hay: &Vec<char>, needle: &Vec<char>) -> (r: bool)
    ensures
        r == holds_text(hay@, needle@),
{
    if needle.len() > hay.len() {
        return false;
    }
    let n = hay.len();
    let last = n - needle.len();
    let mut i: usize = 0;
    loop
        invariant
            n == hay@.len(),
            last == hay@.len() - needle@.len(),
            needle@.len() <= hay@.len(),
            i <= last,
            forall|s: int| 0 <= s < i ==> #[trigger] hay@.subrange(s, s + needle@.len()) != needle@,
        decreases last - i,
    {
        let mut j: usize = 0;
        loop
            invariant
                n == hay@.len(),
                i <= last,
                last == hay@.len() - needle@.len(),
                needle@.len() <= hay@.len(),
                j <= needle@.len(),
                forall|q: int| 0 <= q < j ==> hay@[i + q] == needle@[q],
            ensures
                j == needle@.len() || (j < needle@.len() && hay@[i + j] != needle@[j as int]),
            decreases needle@.len() - j,
        {
            if j == needle.len() {
                break;
            }
            if hay[i + j] != needle[j] {
                break;
            }
            j = j + 1;
        }
        if j == needle.len() {
            proof {
                assert(hay@.subrange(i as int, i + needle@.len()) =~= needle@);
            }
            return true;
        }
        proof {
            assert(hay@.subrange(i as int, i + needle@.len())[j as int] != needle@[j as int]);
        }
        if i == last {
            proof {
                assert forall|s: int| 0 <= s && s + needle@.len() <= hay@.len() implies #[trigger] hay@.subrange(
                    s,
                    s + needle@.len(),
                ) != needle@ by {
                    if s < i {
                    } else {
                        assert(s == i);
                    }
                }
            }
            return false;
        }
        i = i + 1;
    }
}

fn date_key_exec(d: Date) -> (r: i64)
    ensures
        r == date_key(d),
{
    d.year as i64 * 65536 + d.month as i64 * 256 + d.day as i64
}

fn open_key_exec(place: Place) -> (r: i128)
    ensures
        r == open_key(place),
{
    match place {
        Place::Day(d) => date_key_exec(d) as i128,
        Place::Backlog => 0x100_0000_0000,
    }
}

fn closed_before_exec(a: &Row, b: &Row) -> (r: bool)
    ensures
        r == closed_before(*a, *b),
{
    let ra: i64 = match a.place {
        Place::Backlog => 0,
        Place::Day(d) => 0x1_0000_0000 + date_key_exec(d),
    };
    let rb: i64 = match b.place {
        Place::Backlog => 0,
        Place::Day(d) => 0x1_0000_0000 + date_key_exec(d),
    };
    if ra != rb {
        return ra > rb;
    }
    match (&a.closed_at, &b.closed_at) {
        (Some(x), Some(y)) => {
            if x.same(y) {
                a.task > b.task
            } else {
                x.instant() > y.instant()
            }
        },
        (Some(_), None) => true,
        (None, Some(_)) => false,
        (None, None) => a.task > b.task,
    }
}

/// Closed rows, each of a different task, in the order a search lists
/// them.
fn sort_closed(rows: Vec<Row>) -> (out: Vec<Row>)
    requires
        forall|i: int, j: int| 0 <= i < j < rows@.len() ==> rows@[i].task != rows@[j].task,
    ensures
        forall|i: int, j: int| 0 <= i < j < out@.len() ==> closed_before(#[trigger] out@[i], #[trigger] out@[j]),
        out@.len() == rows@.len(),
        forall|x: Row| #[trigger] out@.contains(x) <==> rows@.contains(x),
{
    let mut out: Vec<Row> = Vec::new();
    let mut rest = rows;
    let ghost all = rest@;
    while rest.len() > 0
        invariant
            rest@.len() <= all.len(),
            rest@ == all.subrange(0, rest@.len() as int),
            forall|i: int, j: int| 0 <= i < j < out@.len() ==> closed_before(#[trigger] out@[i], #[trigger] out@[j]),
            out@.len() == all.len() - rest@.len(),
            forall|x: Row| #[trigger] out@.contains(x) <==> all.subrange(rest@.len() as int, all.len() as int).contains(x),
            forall|a: int, b: int| 0 <= a < b < all.len() ==> all[a].task != all[b].task,
        decreases rest@.len(),
    {
        let ghost n = rest@.len() as int;
        let x = rest.pop().unwrap();
        let ghost done = all.subrange(n, all.len() as int);
        proof {
            assert(x == all[n - 1]);
            assert forall|y: Row| #[trigger] out@.contains(y) implies y.task != x.task by {
                assert(done.contains(y));
                let c = choose|c: int| 0 <= c < done.len() && done[c] == y;
                assert(all[n + c] == y);
            }
        }
        let mut p: usize = 0;
        while p < out.len() && closed_before_exec(&out[p], &x)
            invariant
                p <= out@.len(),
                forall|q: int| 0 <= q < p ==> closed_before(#[trigger] out@[q], x),
            decreases out@.len() - p,
        {
            p = p + 1;
        }
        let ghost was = out@;
        proof {
            assert forall|q: int| p <= q < was.len() implies closed_before(x, #[trigger] was[q]) by {
                assert(was.contains(was[q]));
                assert(was[q].task != x.task);
                assert(was.contains(was[p as int]));
                assert(was[p as int].task != x.task);
                assert(!closed_before(was[p as int], x));
                if q > p {
                    assert(closed_before(was[p as int], was[q]));
                }
            }
        }
        out.insert(p, x);
        proof {
            assert(out@ == was.insert(p as int, x));
            assert forall|a: int, b: int| 0 <= a < b < out@.len() implies closed_before(#[trigger] out@[a], #[trigger] out@[b]) by {
                if b < p {
                } else if a < p && b == p {
                } else if a < p {
                    assert(out@[b] == was[b - 1]);
                } else if a == p {
                    assert(out@[b] == was[b - 1]);
                } else {
                    assert(out@[a] == was[a - 1]);
                    assert(out@[b] == was[b - 1]);
                }
            }
            let now = all.subrange(n - 1, all.len() as int);
            assert forall|y: Row| #[trigger] out@.contains(y) <==> now.contains(y) by {
                if out@.contains(y) {
                    let a = choose|a: int| 0 <= a < out@.len() && out@[a] == y;
                    if a == p {
                        assert(now[0] == y);
                    } else {
                        let w = if a < p { a } else { a - 1 };
                        assert(was[w] == y);
                        assert(was.contains(y));
                        assert(done.contains(y));
                        let c = choose|c: int| 0 <= c < done.len() && done[c] == y;
                        assert(now[c + 1] == y);
                    }
                }
                if now.contains(y) {
                    let c = choose|c: int| 0 <= c < now.len() && now[c] == y;
                    if c == 0 {
                        assert(out@[p as int] == y);
                    } else {
                        assert(done[c - 1] == y);
                        assert(done.contains(y));
                        assert(was.contains(y));
                        let a = choose|a: int| 0 <= a < was.len() && was[a] == y;
                        if a < p {
                            assert(out@[a] == y);
                        } else {
                            assert(out@[a + 1] == y);
                        }
                    }
                }
            }
            assert(rest@ =~= all.subrange(0, n - 1));
        }
    }
    proof {
        assert(all.subrange(0, all.len() as int) =~= all);
    }
    out
}

/// What is gathered of a search after the first `i` tasks of a table:
/// the open rows keyed by their place, and the closed rows.
pub open spec fn gathered(
    m: ModelView,
    open: Seq<(i128, Row)>,
    closed: Seq<Row>,
    keys: Seq<Id>,
    i: int,
    needle: Seq<char>,
    today: Date,
) -> bool {
    &&& forall|a: int| 0 <= a < open.len() ==> #[trigger] open[a].0 == open_key(open[a].1.place) && row_ok(
        m,
        open[a].1,
        open[a].1.task,
        today,
        m.tasks[open[a].1.task].day,
    ) && found(m, open[a].1.task, needle) && m.tasks[open[a].1.task].open() && keys.subrange(0, i).contains(open[a].1.task)
    &&& forall|a: int| 0 <= a < closed.len() ==> row_ok(m, #[trigger] closed[a], closed[a].task, today, m.tasks[closed[a].task].day)
        && found(m, closed[a].task, needle) && !m.tasks[closed[a].task].open() && keys.subrange(0, i).contains(closed[a].task)
    &&& forall|a: int, b: int| 0 <= a < b < open.len() ==> open[a].1.task != open[b].1.task
    &&& forall|a: int, b: int| 0 <= a < b < closed.len() ==> closed[a].task != closed[b].task
    &&& forall|j: int| 0 <= j < i && found(m, #[trigger] keys[j], needle) && m.tasks[keys[j]].open() ==> exists|a: int|
        0 <= a < open.len() && #[trigger] open[a].1.task == keys[j]
    &&& forall|j: int| 0 <= j < i && found(m, #[trigger] keys[j], needle) && !m.tasks[keys[j]].open() ==> exists|a: int|
        0 <= a < closed.len() && #[trigger] closed[a].task == keys[j]
    &&& open.len() + closed.len() <= i
}

/// One more task of the table looked at: gathered where it is found.
#[verifier::spinoff_prover]
proof fn lemma_gathered_step(
    m: ModelView,
    was_open: Seq<(i128, Row)>,
    was_closed: Seq<Row>,
    open: Seq<(i128, Row)>,
    closed: Seq<Row>,
    ks: Seq<Id>,
    i: int,
    nd: Seq<char>,
    today: Date,
    hit: bool,
)
    requires
        0 <= i < ks.len(),
        ks.no_duplicates(),
        m.tasks.contains_key(ks[i]),
        gathered(m, was_open, was_closed, ks, i, nd, today),
        hit == found(m, ks[i], nd),
        hit && m.tasks[ks[i]].open() ==> open.len() == was_open.len() + 1 && open.drop_last() == was_open && open.last().1.task == ks[i]
            && open.last().0 == open_key(open.last().1.place) && row_ok(m, open.last().1, ks[i], today, m.tasks[ks[i]].day),
        !(hit && m.tasks[ks[i]].open()) ==> open == was_open,
        hit && !m.tasks[ks[i]].open() ==> closed.len() == was_closed.len() + 1 && closed.drop_last() == was_closed
            && closed.last().task == ks[i] && row_ok(m, closed.last(), ks[i], today, m.tasks[ks[i]].day),
        !(hit && !m.tasks[ks[i]].open()) ==> closed == was_closed,
    ensures
        gathered(m, open, closed, ks, i + 1, nd, today),
{
    let k = ks[i];
    assert(!ks.subrange(0, i).contains(k)) by {
        if ks.subrange(0, i).contains(k) {
            let a = choose|a: int| 0 <= a < i && ks.subrange(0, i)[a] == k;
            assert(ks[a] == ks[i]);
        }
    }
    if open != was_open {
        assert(open =~= was_open.push(open.last()));
    }
    if closed != was_closed {
        assert(closed =~= was_closed.push(closed.last()));
    }
    let now = ks.subrange(0, i + 1);
    assert forall|x: Id| ks.subrange(0, i).contains(x) implies now.contains(x) by {
        let c = choose|c: int| 0 <= c < i && ks.subrange(0, i)[c] == x;
        assert(now[c] == x);
    }
    assert(now[i] == k);
    assert forall|a: int| 0 <= a < open.len() implies #[trigger] open[a].0 == open_key(open[a].1.place) && row_ok(
        m,
        open[a].1,
        open[a].1.task,
        today,
        m.tasks[open[a].1.task].day,
    ) && found(m, open[a].1.task, nd) && m.tasks[open[a].1.task].open() && now.contains(open[a].1.task) by {
        if a < was_open.len() {
            assert(open[a] == was_open[a]);
            assert(was_open[a].0 == open_key(was_open[a].1.place));
        }
    }
    assert forall|a: int| 0 <= a < closed.len() implies row_ok(m, #[trigger] closed[a], closed[a].task, today, m.tasks[closed[a].task].day)
        && found(m, closed[a].task, nd) && !m.tasks[closed[a].task].open() && now.contains(closed[a].task) by {
        if a < was_closed.len() {
            assert(closed[a] == was_closed[a]);
        }
    }
    assert forall|a: int, b: int| 0 <= a < b < open.len() implies open[a].1.task != open[b].1.task by {
        if b >= was_open.len() {
            assert(open[a] == was_open[a]);
            assert(was_open[a].0 == open_key(was_open[a].1.place));
            assert(ks.subrange(0, i).contains(was_open[a].1.task));
        }
    }
    assert forall|a: int, b: int| 0 <= a < b < closed.len() implies closed[a].task != closed[b].task by {
        if b >= was_closed.len() {
            assert(closed[a] == was_closed[a]);
            assert(ks.subrange(0, i).contains(was_closed[a].task));
        }
    }
    assert forall|j: int| 0 <= j < i + 1 && found(m, #[trigger] ks[j], nd) && m.tasks[ks[j]].open() implies exists|a: int|
        0 <= a < open.len() && #[trigger] open[a].1.task == ks[j] by {
        if j < i {
            let a = choose|a: int| 0 <= a < was_open.len() && #[trigger] was_open[a].1.task == ks[j];
            assert(open[a] == was_open[a]);
        } else {
            assert(open[open.len() - 1].1.task == ks[j]);
        }
    }
    assert forall|j: int| 0 <= j < i + 1 && found(m, #[trigger] ks[j], nd) && !m.tasks[ks[j]].open() implies exists|a: int|
        0 <= a < closed.len() && #[trigger] closed[a].task == ks[j] by {
        if j < i {
            let a = choose|a: int| 0 <= a < was_closed.len() && #[trigger] was_closed[a].task == ks[j];
            assert(closed[a] == was_closed[a]);
        } else {
            assert(closed[closed.len() - 1].task == ks[j]);
        }
    }
}

/// The live tasks whose title holds the text, whatever the case: the open
/// ones by place, the days before the backlog and the earlier days first,
/// then by task; the closed ones the latest place first, then the latest
/// closed, then the latest task.
pub fn search(model: &Model, text: &str, today: Date) -> (v: SearchResults)
    ensures
        search_ok(model@, v, super::dictionary::lowercase_of(text@), today),
{
    let ghost m = model@;
    let needle_text = super::dictionary::lowercase(text);
    let needle = crate::text::chars_of(needle_text.as_str());
    let ghost nd = super::dictionary::lowercase_of(text@);
    let keys = super::model::ids_of(&model.tasks);
    let ghost ks = keys@;
    let mut open: Vec<(i128, Row)> = Vec::new();
    let mut closed: Vec<Row> = Vec::new();
    let mut i: usize = 0;
    while i < keys.len()
        invariant
            m == model@,
            ks == keys@,
            needle@ == nd,
            ks.no_duplicates(),
            forall|k: Id| #[trigger] ks.contains(k) <==> model.tasks@.contains_key(k),
            i <= ks.len(),
            gathered(m, open@, closed@, ks, i as int, nd, today),
        decreases ks.len() - i,
    {
        let k = keys[i];
        proof {
            assert(ks.contains(k));
            assert(!ks.subrange(0, i as int).contains(k)) by {
                if ks.subrange(0, i as int).contains(k) {
                    let a = choose|a: int| 0 <= a < i && ks.subrange(0, i as int)[a] == k;
                    assert(ks[a] == ks[i as int]);
                }
            }
        }
        let task = model.task(k).unwrap();
        let title = super::dictionary::lowercase(task.title.as_str());
        let hay = crate::text::chars_of(title.as_str());
        let hit = task.is_live() && has_text(&hay, &needle);
        let ghost was_open = open@;
        let ghost was_closed = closed@;
        if hit {
            let row = row_of(model, k, task, today, task.day);
            if task.is_open() {
                let key = open_key_exec(row.place);
                open.push((key, row));
                proof {
                    assert(open@.drop_last() =~= was_open);
                }
            } else {
                closed.push(row);
                proof {
                    assert(closed@.drop_last() =~= was_closed);
                }
            }
        }
        proof {
            lemma_gathered_step(m, was_open, was_closed, open@, closed@, ks, i as int, nd, today, hit);
        }
        i = i + 1;
    }
    proof {
        assert(ks.subrange(0, ks.len() as int) =~= ks);
    }
    let ghost all_open = open@;
    let ghost all_closed = closed@;
    let total = open.len() + closed.len();
    let sorted = sort_keyed(open);
    let open_rows = unkeyed(sorted);
    let closed_rows = sort_closed(closed);
    proof {
        assert forall|k: Id| #[trigger] has_row(open_rows@, k) <==> (found(m, k, nd) && m.tasks[k].open()) by {
            if has_row(open_rows@, k) {
                let a = choose|a: int| 0 <= a < open_rows@.len() && #[trigger] open_rows@[a].task == k;
                assert(sorted@.contains(sorted@[a]));
                let b = choose|b: int| 0 <= b < all_open.len() && all_open[b] == sorted@[a];
                assert(all_open[b].0 == open_key(all_open[b].1.place));
            }
            if found(m, k, nd) && m.tasks[k].open() {
                assert(ks.contains(k));
                let j = choose|j: int| 0 <= j < ks.len() && ks[j] == k;
                let b = choose|b: int| 0 <= b < all_open.len() && #[trigger] all_open[b].1.task == ks[j];
                assert(all_open.contains(all_open[b]));
                assert(sorted@.contains(all_open[b]));
                let a = choose|a: int| 0 <= a < sorted@.len() && sorted@[a] == all_open[b];
                assert(open_rows@[a].task == k);
            }
        }
        assert forall|a: int| 0 <= a < open_rows@.len() implies row_ok(m, #[trigger] open_rows@[a], open_rows@[a].task, today, m.tasks[open_rows@[a].task].day)
            && sorted@[a].0 == open_key(open_rows@[a].place) by {
            assert(sorted@.contains(sorted@[a]));
            let b = choose|b: int| 0 <= b < all_open.len() && all_open[b] == sorted@[a];
            assert(all_open[b].0 == open_key(all_open[b].1.place));
        }
        assert forall|i: int, j: int| 0 <= i < j < open_rows@.len() implies (open_key(#[trigger] open_rows@[i].place) < open_key(#[trigger] open_rows@[j].place)
            || (open_key(open_rows@[i].place) == open_key(open_rows@[j].place) && open_rows@[i].task < open_rows@[j].task)) by {
            assert(keyed_before(sorted@[i], sorted@[j]));
            assert(sorted@.contains(sorted@[i]) && sorted@.contains(sorted@[j]));
            let bi = choose|b: int| 0 <= b < all_open.len() && all_open[b] == sorted@[i];
            let bj = choose|b: int| 0 <= b < all_open.len() && all_open[b] == sorted@[j];
            assert(all_open[bi].0 == open_key(all_open[bi].1.place));
            assert(all_open[bj].0 == open_key(all_open[bj].1.place));
        }
        assert forall|k: Id| #[trigger] has_row(closed_rows@, k) <==> (found(m, k, nd) && !m.tasks[k].open()) by {
            if has_row(closed_rows@, k) {
                let a = choose|a: int| 0 <= a < closed_rows@.len() && #[trigger] closed_rows@[a].task == k;
                assert(closed_rows@.contains(closed_rows@[a]));
                let b = choose|b: int| 0 <= b < all_closed.len() && all_closed[b] == closed_rows@[a];
                assert(row_ok(m, all_closed[b], all_closed[b].task, today, m.tasks[all_closed[b].task].day));
            }
            if found(m, k, nd) && !m.tasks[k].open() {
                assert(ks.contains(k));
                let j = choose|j: int| 0 <= j < ks.len() && ks[j] == k;
                let b = choose|b: int| 0 <= b < all_closed.len() && #[trigger] all_closed[b].task == ks[j];
                assert(all_closed.contains(all_closed[b]));
                assert(closed_rows@.contains(all_closed[b]));
                let a = choose|a: int| 0 <= a < closed_rows@.len() && closed_rows@[a] == all_closed[b];
                assert(closed_rows@[a].task == k);
            }
        }
        assert forall|a: int| 0 <= a < closed_rows@.len() implies row_ok(m, #[trigger] closed_rows@[a], closed_rows@[a].task, today, m.tasks[closed_rows@[a].task].day) by {
            assert(closed_rows@.contains(closed_rows@[a]));
            let b = choose|b: int| 0 <= b < all_closed.len() && all_closed[b] == closed_rows@[a];
            assert(row_ok(m, all_closed[b], all_closed[b].task, today, m.tasks[all_closed[b].task].day));
        }
    }
    SearchResults { open: open_rows, closed: closed_rows, total }
}


// ---- what a row says of where its task came from -------------------------

/// A row says its task came from the backlog exactly when the task's
/// placement for the day drawn came from the backlog and was made on that
/// very working day, whatever day today is: two rows of the task drawn on
/// that day, on any two days, say the same.
pub proof fn lemma_from_backlog_is_the_arrival(
    model: Model,
    id: Id,
    day: Date,
    first: Row,
    second: Row,
    today: Date,
    other_today: Date,
)
    requires
        arrival_dated(model, id, Some(day)),
        row_ok(model@, first, id, today, Some(day)),
        arrival_dated(model, id, Some(day)) ==> first.from_backlog == arrived_from_backlog(model, id, Some(day)),
        row_ok(model@, second, id, other_today, Some(day)),
        arrival_dated(model, id, Some(day)) ==> second.from_backlog == arrived_from_backlog(model, id, Some(day)),
    ensures
        first.from_backlog <==> (model.placements@.contains_key(key_of(id, day)) && model.placements@[key_of(id, day)].from_place
            == FromPlace::Backlog && model.placements@[key_of(id, day)].placed_at.day_from(
            model.settings@.day_starts_at as int,
        ) == Some(day)),
        first.from_backlog == second.from_backlog,
{
}

/// A row drawn in a list of no day of its own never says its task came
/// from the backlog.
pub proof fn lemma_no_day_no_arrival(model: Model, id: Id, r: Row, today: Date)
    requires
        row_ok(model@, r, id, today, None),
    ensures
        !r.from_backlog,
{
}

} // verus!
