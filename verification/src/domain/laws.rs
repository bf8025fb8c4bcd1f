//! What holds of the domain across its functions: a command never takes a
//! task or a note out of the model, and the change an operation comes to,
//! committed, leaves the model its commands computed.

use vstd::prelude::*;

use super::command::{
    add_task_spec, change_of, close_at_spec, close_spec, create_note_spec, create_schedule_spec,
    delete_note_spec, delete_task_spec, edit_note_spec, edit_schedule_title_spec,
    edit_title_and_future_spec, edit_title_spec, many_run, move_back_spec, move_spec, numbered,
    operation_ok, placed, put_in_place_spec, renumbered, reopen_spec, reorder_spec,
    replace_note_spec, restore_note_body_spec, restore_note_spec, restore_task_spec,
    resume_schedule_spec, run_all, run_outcome, run_spec, set_due_spec, set_focus_spec,
    set_position_spec, set_remind_spec, set_rule_spec, set_waiting_spec, stop_schedule_spec,
    uncreate_schedule_spec, undo_ok, undo_tail, update, CommandView, Undone,
};
use super::Rejected;
use super::command::title_of;
use super::rule::usable;
use super::model::{
    apply_write, apply_writes, diff_effect, key_of, keyed, replaced, Id, ModelView, Place, TaskView,
    WriteView,
};
use super::settings::DateOrder;
use super::time::Date;

verus! {

/// Two tables of tasks file rows under the same ids, each row keeping
/// the id it had.
pub open spec fn same_ids(a: Map<Id, TaskView>, b: Map<Id, TaskView>) -> bool {
    &&& a.dom() == b.dom()
    &&& forall|k: Id| #[trigger] b.contains_key(k) ==> b[k].id == a[k].id
}

/// What no command undoes: every row stays filed under its own id, and
/// no task and no note leaves the model.
pub open spec fn rows_kept(m: ModelView, m2: ModelView) -> bool {
    &&& keyed(m2)
    &&& m.tasks.dom().subset_of(m2.tasks.dom())
    &&& m.notes.dom().subset_of(m2.notes.dom())
}

proof fn lemma_same_ids_trans(a: Map<Id, TaskView>, b: Map<Id, TaskView>, c: Map<Id, TaskView>)
    requires
        same_ids(a, b),
        same_ids(b, c),
    ensures
        same_ids(a, c),
{
}

proof fn lemma_numbered_ids(tasks: Map<Id, TaskView>, s: Seq<Id>, n: nat)
    ensures
        same_ids(tasks, numbered(tasks, s, n)),
    decreases n,
{
    if n == 0 || n > s.len() {
    } else {
        lemma_numbered_ids(tasks, s, (n - 1) as nat);
        let m = numbered(tasks, s, (n - 1) as nat);
        let k = s[n - 1];
        if m.contains_key(k) {
            assert(numbered(tasks, s, n).dom() =~= m.dom());
        }
    }
}

proof fn lemma_renumbered_ids(tasks: Map<Id, TaskView>, s: Seq<Id>)
    ensures
        same_ids(tasks, renumbered(tasks, s)),
{
    lemma_numbered_ids(tasks, s, s.len());
}

proof fn lemma_set_position_ids(tasks: Map<Id, TaskView>, id: Id, position: usize)
    ensures
        same_ids(tasks, set_position_spec(tasks, id, position)),
{
    if tasks.contains_key(id) {
        let order = super::model::order_of(tasks, tasks[id].place());
        if order.contains(id) {
            let rest = order.remove(super::command::index_in(order, id));
            let at = if (position as int) < rest.len() {
                position as int
            } else {
                rest.len() as int
            };
            lemma_renumbered_ids(tasks, rest.insert(at, id));
        }
    }
}

proof fn lemma_put_in_place_ids(tasks: Map<Id, TaskView>, id: Id, place: Place, position: usize)
    ensures
        same_ids(tasks, put_in_place_spec(tasks, id, place, position)),
{
    if tasks.contains_key(id) {
        let was = tasks[id].place();
        if was != place {
            let moved = tasks.insert(id, super::command::moved_to(tasks[id], place));
            assert(moved.dom() =~= tasks.dom());
            assert(same_ids(tasks, moved));
            let first = renumbered(moved, super::model::order_of(moved, was));
            lemma_renumbered_ids(moved, super::model::order_of(moved, was));
            lemma_same_ids_trans(tasks, moved, first);
            lemma_set_position_ids(first, id, position);
            lemma_same_ids_trans(tasks, first, set_position_spec(first, id, position));
        } else {
            lemma_set_position_ids(tasks, id, position);
        }
    }
}

proof fn lemma_update_ids(tasks: Map<Id, TaskView>, id: Id, f: spec_fn(TaskView) -> TaskView)
    requires
        tasks.contains_key(id) ==> f(tasks[id]).id == tasks[id].id,
    ensures
        same_ids(tasks, update(tasks, id, f)),
{
    if tasks.contains_key(id) {
        assert(update(tasks, id, f).dom() =~= tasks.dom());
    }
}

/// A table of tasks with the same ids as a keyed model's keeps it keyed.
proof fn lemma_keyed_tasks(m: ModelView, tasks: Map<Id, TaskView>)
    requires
        keyed(m),
        same_ids(m.tasks, tasks),
    ensures
        keyed(ModelView { tasks, ..m }),
        rows_kept(m, ModelView { tasks, ..m }),
{
}

proof fn lemma_placed_keyed(m: ModelView, task: Id, day: Date, now: int, from: super::model::FromPlace)
    requires
        keyed(m),
    ensures
        keyed(placed(m, task, day, now, from).0),
        placed(m, task, day, now, from).0.tasks == m.tasks,
        placed(m, task, day, now, from).0.notes == m.notes,
        placed(m, task, day, now, from).0.schedules == m.schedules,
{
}

/// Whatever a command did, where it did it.
pub open spec fn kept_by(m: ModelView, c: CommandView, now: int, today: Date, dates: DateOrder) -> bool {
    match run_spec(m, c, now, today, dates) {
        Ok((m2, _)) => rows_kept(m, m2),
        Err(_) => true,
    }
}

pub open spec fn kept_by_all(m: ModelView, cs: Seq<CommandView>, now: int, today: Date, dates: DateOrder) -> bool {
    match run_all(m, cs, now, today, dates) {
        Ok(m2) => rows_kept(m, m2),
        Err(_) => true,
    }
}

proof fn lemma_rows_kept_trans(a: ModelView, b: ModelView, c: ModelView)
    requires
        rows_kept(a, b),
        rows_kept(b, c),
    ensures
        rows_kept(a, c),
{
}

proof fn lemma_rows_kept_refl(m: ModelView)
    requires
        keyed(m),
    ensures
        rows_kept(m, m),
{
}

/// No command takes a task or a note out of the model: a deleted one
/// keeps its row, so that it can come back and so that generation never
/// makes a deleted copy again. And every row stays filed under its own id.
#[verifier::rlimit(50)]
pub proof fn lemma_command_keeps_rows(m: ModelView, c: CommandView, now: int, today: Date, dates: DateOrder)
    requires
        keyed(m),
    ensures
        kept_by(m, c, now, today, dates),
    decreases c, 1nat,
{
    match c {
        CommandView::AddTask { title, place } => lemma_add(m, title, place, now),
        CommandView::EditTitle { task, title } => lemma_edit_title(m, task, title),
        CommandView::EditTitleAndFuture { task, title, schedule_title } =>
            lemma_edit_title_and_future(m, task, title, schedule_title),
        CommandView::Close { task } => lemma_close(m, task, now, today),
        CommandView::Reopen { task } => lemma_reopen(m, task),
        CommandView::SetFocus { task, focus } => lemma_set_focus(m, task, focus),
        CommandView::Move { task, place } => lemma_move(m, task, place, now, today, dates),
        CommandView::Reorder { task, position } => lemma_reorder(m, task, position),
        CommandView::SetWaiting { task, waiting } => lemma_set_waiting(m, task, waiting),
        CommandView::SetDue { task, date } => lemma_set_due(m, task, date),
        CommandView::SetRemind { task, date } => lemma_set_remind(m, task, date),
        CommandView::DeleteTask { task } => lemma_delete(m, task, now),
        CommandView::CreateSchedule { task, rule } => lemma_create_schedule(m, task, rule, now, today),
        CommandView::SetRule { schedule, rule } => lemma_schedule_rows(m, set_rule_spec(m, schedule, rule)),
        CommandView::StopSchedule { schedule } => lemma_schedule_rows(m, stop_schedule_spec(m, schedule, today)),
        CommandView::EditScheduleTitle { schedule, title } =>
            lemma_schedule_rows(m, edit_schedule_title_spec(m, schedule, title)),
        CommandView::CreateNote => lemma_note_rows(m, create_note_spec(m, now)),
        CommandView::EditNote { note, body } => lemma_note_rows(m, edit_note_spec(m, note, body, now)),
        CommandView::ReplaceNote { note, body } => lemma_note_rows(m, replace_note_spec(m, note, body, now)),
        CommandView::DeleteNote { note } => lemma_note_rows(m, delete_note_spec(m, note, now)),
        CommandView::MoveBack { task, place, position, waiting, drop_placement } =>
            lemma_move_back(m, task, place, position, waiting, drop_placement),
        CommandView::CloseAt { task, closed_at, position } => lemma_close_at(m, task, closed_at, position),
        CommandView::RestoreTask { task, position } => lemma_restore_task(m, task, position),
        CommandView::UncreateSchedule { task, schedule } => lemma_uncreate_schedule(m, task, schedule),
        CommandView::ResumeSchedule { schedule } => lemma_schedule_rows(m, resume_schedule_spec(m, schedule)),
        CommandView::RestoreNote { note } => lemma_note_rows(m, restore_note_spec(m, note)),
        CommandView::RestoreNoteBody { note, body, updated_at } =>
            lemma_note_rows(m, restore_note_body_spec(m, note, body, updated_at)),
        CommandView::Sequence(commands) => {
            lemma_commands_keep_rows(m, commands, now, today, dates);
        },
    }
}

/// What a command left, where it left only its schedules changed and
/// them keyed.
pub open spec fn schedules_only(m: ModelView, m2: ModelView) -> bool {
    &&& m2.tasks == m.tasks
    &&& m2.notes == m.notes
    &&& m2.placements == m.placements
    &&& forall|k: Id| #[trigger] m2.schedules.contains_key(k) ==> m2.schedules[k].id == k
}

proof fn lemma_schedule_rows(m: ModelView, r: super::command::Outcome)
    requires
        keyed(m),
        r matches Ok((m2, _)) ==> schedules_only(m, m2),
    ensures
        r matches Ok((m2, _)) ==> rows_kept(m, m2),
{
}

pub open spec fn notes_only(m: ModelView, m2: ModelView) -> bool {
    &&& m2.tasks == m.tasks
    &&& m2.schedules == m.schedules
    &&& m2.placements == m.placements
    &&& m.notes.dom().subset_of(m2.notes.dom())
    &&& forall|k: Id| #[trigger] m2.notes.contains_key(k) ==> m2.notes[k].id == k
}

proof fn lemma_note_rows(m: ModelView, r: super::command::Outcome)
    requires
        keyed(m),
        r matches Ok((m2, _)) ==> notes_only(m, m2),
    ensures
        r matches Ok((m2, _)) ==> rows_kept(m, m2),
{
}

proof fn lemma_add(m: ModelView, title: Seq<char>, place: Place, now: int)
    requires
        keyed(m),
    ensures
        add_task_spec(m, title, place, now) matches Ok((m2, _)) ==> rows_kept(m, m2),
{
    if let Ok((m2, _)) = add_task_spec(m, title, place, now) {
        let id = super::command::next_id_of(m.tasks.dom()) as Id;
        let m1 = ModelView { tasks: m.tasks.insert(id, m2.tasks[id]), ..m };
        assert(m1.tasks == m2.tasks);
        assert(keyed(m1));
        if let Place::Day(d) = place {
            lemma_placed_keyed(m1, id, d, now, super::model::FromPlace::New);
        }
    }
}

proof fn lemma_edit_title(m: ModelView, task: Id, title: Seq<char>)
    requires
        keyed(m),
    ensures
        edit_title_spec(m, task, title) matches Ok((m2, _)) ==> rows_kept(m, m2),
{
    if let Ok((m2, _)) = edit_title_spec(m, task, title) {
        let t = m2.tasks[task].title;
        lemma_update_ids(m.tasks, task, |x: TaskView| TaskView { title: t, ..x });
        assert(same_ids(m.tasks, m2.tasks));
    }
}

proof fn lemma_edit_title_and_future(m: ModelView, task: Id, title: Seq<char>, schedule_title: Seq<char>)
    requires
        keyed(m),
    ensures
        edit_title_and_future_spec(m, task, title, schedule_title) matches Ok((m2, _)) ==> rows_kept(m, m2),
{
    if let Ok((m2, _)) = edit_title_and_future_spec(m, task, title, schedule_title) {
        assert(m2.tasks.dom() =~= m.tasks.dom());
        assert(same_ids(m.tasks, m2.tasks));
        assert(m2.schedules.dom() =~= m.schedules.dom());
    }
}

proof fn lemma_reopen(m: ModelView, task: Id)
    requires
        keyed(m),
    ensures
        reopen_spec(m, task) matches Ok((m2, _)) ==> rows_kept(m, m2),
{
    if let Ok((m2, _)) = reopen_spec(m, task) {
        let id = m.tasks[task].id;
        let t1 = update(m.tasks, id, |x: TaskView| TaskView { closed_at: None, ..x });
        lemma_update_ids(m.tasks, id, |x: TaskView| TaskView { closed_at: None, ..x });
        lemma_set_position_ids(t1, id, usize::MAX);
        lemma_same_ids_trans(m.tasks, t1, m2.tasks);
    }
}

proof fn lemma_set_focus(m: ModelView, task: Id, focus: bool)
    requires
        keyed(m),
    ensures
        set_focus_spec(m, task, focus) matches Ok((m2, _)) ==> rows_kept(m, m2),
{
    lemma_update_ids(m.tasks, task, |x: TaskView| TaskView { focus, ..x });
}

proof fn lemma_reorder(m: ModelView, task: Id, position: usize)
    requires
        keyed(m),
    ensures
        reorder_spec(m, task, position) matches Ok((m2, _)) ==> rows_kept(m, m2),
{
    if m.tasks.contains_key(task) {
        lemma_set_position_ids(m.tasks, m.tasks[task].id, position);
    }
}

proof fn lemma_set_due(m: ModelView, task: Id, date: Option<Date>)
    requires
        keyed(m),
    ensures
        set_due_spec(m, task, date) matches Ok((m2, _)) ==> rows_kept(m, m2),
{
    lemma_update_ids(m.tasks, task, |x: TaskView| TaskView { due_on: date, ..x });
}

proof fn lemma_set_remind(m: ModelView, task: Id, date: Option<Date>)
    requires
        keyed(m),
    ensures
        set_remind_spec(m, task, date) matches Ok((m2, _)) ==> rows_kept(m, m2),
{
    lemma_update_ids(m.tasks, task, |x: TaskView| TaskView { remind_on: date, ..x });
}

proof fn lemma_delete(m: ModelView, task: Id, now: int)
    requires
        keyed(m),
    ensures
        delete_task_spec(m, task, now) matches Ok((m2, _)) ==> rows_kept(m, m2),
{
    if let Ok((m2, _)) = delete_task_spec(m, task, now) {
        let cur = m.tasks[task];
        let id = cur.id;
        let t1 = update(m.tasks, id, |x: TaskView| TaskView { deleted_at: Some(now), ..x });
        lemma_update_ids(m.tasks, id, |x: TaskView| TaskView { deleted_at: Some(now), ..x });
        lemma_renumbered_ids(t1, super::model::order_of(t1, cur.place()));
        lemma_same_ids_trans(m.tasks, t1, m2.tasks);
    }
}

proof fn lemma_create_schedule(m: ModelView, task: Id, rule: super::rule::RuleView, now: int, today: Date)
    requires
        keyed(m),
    ensures
        create_schedule_spec(m, task, rule, now, today) matches Ok((m2, _)) ==> rows_kept(m, m2),
{
    if let Ok((m2, _)) = create_schedule_spec(m, task, rule, now, today) {
        let sid = super::command::next_id_of(m.schedules.dom()) as Id;
        let scheduled_on = match m.tasks[task].day {
            Some(d) => d,
            None => today,
        };
        lemma_update_ids(
            m.tasks,
            m.tasks[task].id,
            |x: TaskView| TaskView { schedule_id: Some(sid), scheduled_on: Some(scheduled_on), ..x },
        );
    }
}

proof fn lemma_close_at(m: ModelView, task: Id, closed_at: int, position: usize)
    requires
        keyed(m),
    ensures
        close_at_spec(m, task, closed_at, position) matches Ok((m2, _)) ==> rows_kept(m, m2),
{
    if let Ok((m2, _)) = close_at_spec(m, task, closed_at, position) {
        let id = m.tasks[task].id;
        let t1 = update(m.tasks, id, |x: TaskView| TaskView { closed_at: Some(closed_at), ..x });
        lemma_update_ids(m.tasks, id, |x: TaskView| TaskView { closed_at: Some(closed_at), ..x });
        lemma_set_position_ids(t1, id, position);
        lemma_same_ids_trans(m.tasks, t1, m2.tasks);
    }
}

proof fn lemma_restore_task(m: ModelView, task: Id, position: usize)
    requires
        keyed(m),
    ensures
        restore_task_spec(m, task, position) matches Ok((m2, _)) ==> rows_kept(m, m2),
{
    if let Ok((m2, _)) = restore_task_spec(m, task, position) {
        let id = m.tasks[task].id;
        let t1 = update(m.tasks, id, |x: TaskView| TaskView { deleted_at: None, ..x });
        lemma_update_ids(m.tasks, id, |x: TaskView| TaskView { deleted_at: None, ..x });
        lemma_set_position_ids(t1, id, position);
        lemma_same_ids_trans(m.tasks, t1, m2.tasks);
    }
}

proof fn lemma_uncreate_schedule(m: ModelView, task: Id, schedule: Id)
    requires
        keyed(m),
    ensures
        uncreate_schedule_spec(m, task, schedule) matches Ok((m2, _)) ==> rows_kept(m, m2),
{
    if let Ok((m2, _)) = uncreate_schedule_spec(m, task, schedule) {
        lemma_update_ids(m.tasks, m.tasks[task].id, |x: TaskView| TaskView { schedule_id: None, scheduled_on: None, ..x });
    }
}

proof fn lemma_commands_keep_rows(m: ModelView, cs: Seq<CommandView>, now: int, today: Date, dates: DateOrder)
    requires
        keyed(m),
    ensures
        kept_by_all(m, cs, now, today, dates),
    decreases cs, 0nat,
{
    if cs.len() == 0 {
        lemma_rows_kept_refl(m);
    } else {
        assert(decreases_to!(cs => cs[0]));
        lemma_command_keeps_rows(m, cs[0], now, today, dates);
        if let Ok((m1, _)) = run_spec(m, cs[0], now, today, dates) {
            let rest = cs.subrange(1, cs.len() as int);
            assert(decreases_to!(cs => rest));
            lemma_commands_keep_rows(m1, rest, now, today, dates);
            if let Ok(m2) = run_all(m1, rest, now, today, dates) {
                lemma_rows_kept_trans(m, m1, m2);
            }
        }
    }
}

proof fn lemma_close(m: ModelView, task: Id, now: int, today: Date)
    requires
        keyed(m),
    ensures
        close_spec(m, task, now, today) matches Ok((m2, _)) ==> rows_kept(m, m2),
{
    if close_spec(m, task, now, today) is Ok {
        let cur = m.tasks[task];
        let id = cur.id;
        let from = cur.place();
        let m2 = close_spec(m, task, now, today)->Ok_0.0;
        if from == Place::Backlog {
            let end = super::model::order_of(m.tasks, Place::Day(today)).len() as usize;
            let (ma, wrote) = placed(m, id, today, now, super::model::from_place_of(from));
            lemma_placed_keyed(m, id, today, now, super::model::from_place_of(from));
            let tb = put_in_place_spec(ma.tasks, id, Place::Day(today), end);
            lemma_put_in_place_ids(ma.tasks, id, Place::Day(today), end);
            let tc = update(tb, id, |x: TaskView| TaskView { waiting: false, ..x });
            lemma_update_ids(tb, id, |x: TaskView| TaskView { waiting: false, ..x });
            lemma_same_ids_trans(m.tasks, tb, tc);
            lemma_update_ids(tc, id, |x: TaskView| TaskView { closed_at: Some(now), ..x });
            lemma_same_ids_trans(m.tasks, tc, m2.tasks);
        } else {
            lemma_update_ids(m.tasks, id, |x: TaskView| TaskView { closed_at: Some(now), ..x });
        }
    }
}

proof fn lemma_move(m: ModelView, task: Id, place: Place, now: int, today: Date, dates: DateOrder)
    requires
        keyed(m),
    ensures
        move_spec(m, task, place, now, today, dates) matches Ok((m2, _)) ==> rows_kept(m, m2),
{
    if move_spec(m, task, place, now, today, dates) is Ok {
        let cur = m.tasks[task];
        let id = cur.id;
        let from = cur.place();
        let end = super::model::order_of(m.tasks, place).len() as usize;
        let m1 = match place {
            Place::Day(d) => {
                lemma_placed_keyed(m, id, d, now, super::model::from_place_of(from));
                placed(m, id, d, now, super::model::from_place_of(from)).0
            },
            Place::Backlog => m,
        };
        let t2 = put_in_place_spec(m1.tasks, id, place, end);
        lemma_put_in_place_ids(m1.tasks, id, place, end);
        lemma_update_ids(t2, id, |x: TaskView| TaskView { waiting: false, ..x });
        lemma_same_ids_trans(m.tasks, t2, update(t2, id, |x: TaskView| TaskView { waiting: false, ..x }));
    }
}

proof fn lemma_set_waiting(m: ModelView, task: Id, waiting: bool)
    requires
        keyed(m),
    ensures
        set_waiting_spec(m, task, waiting) matches Ok((m2, _)) ==> rows_kept(m, m2),
{
    if set_waiting_spec(m, task, waiting) is Ok {
        let cur = m.tasks[task];
        let id = cur.id;
        let from = cur.place();
        if waiting && from != Place::Backlog {
            let end = super::model::order_of(m.tasks, Place::Backlog).len() as usize;
            let t1 = put_in_place_spec(m.tasks, id, Place::Backlog, end);
            lemma_put_in_place_ids(m.tasks, id, Place::Backlog, end);
            lemma_update_ids(t1, id, |x: TaskView| TaskView { waiting: true, ..x });
            lemma_same_ids_trans(m.tasks, t1, update(t1, id, |x: TaskView| TaskView { waiting: true, ..x }));
        } else {
            lemma_update_ids(m.tasks, id, |x: TaskView| TaskView { waiting, ..x });
        }
    }
}

proof fn lemma_move_back(m: ModelView, task: Id, place: Place, position: usize, waiting: bool, drop: Option<Date>)
    requires
        keyed(m),
    ensures
        move_back_spec(m, task, place, position, waiting, drop) matches Ok((m2, _)) ==> rows_kept(m, m2),
{
    if move_back_spec(m, task, place, position, waiting, drop) is Ok {
        let id = m.tasks[task].id;
        let t1 = put_in_place_spec(m.tasks, id, place, position);
        lemma_put_in_place_ids(m.tasks, id, place, position);
        let f = |x: TaskView| TaskView { waiting: waiting && super::model::day_of(place) is None, closed_at: None, ..x };
        lemma_update_ids(t1, id, f);
        lemma_same_ids_trans(m.tasks, t1, update(t1, id, f));
    }
}

/// The rows an operation's change writes, committed onto the model it was
/// computed from, leave the tasks, placements, schedules, notes and
/// settings of the model its commands computed, and the undo stack as it
/// was; what follows them in the change is the operation's one entry and
/// the stack held to its cap.
pub proof fn lemma_committed_operation(
    m: ModelView,
    cs: Seq<CommandView>,
    now: int,
    today: Date,
    dates: DateOrder,
    cap: usize,
    ws: Seq<WriteView>,
)
    requires
        keyed(m),
        operation_ok(m, cs, now, today, dates, cap, Ok(ws)),
    ensures
        many_run(m, cs, now, today, dates) matches Ok((after, es)) && {
            let tail = undo_tail(m, now, cap, es);
            let rows = apply_writes(m, ws.subrange(0, ws.len() - tail.len()));
            &&& ws.subrange(ws.len() - tail.len(), ws.len() as int) == tail
            &&& rows.tasks == after.tasks
            &&& rows.placements == after.placements
            &&& rows.schedules == after.schedules
            &&& rows.notes == after.notes
            &&& rows.settings == after.settings
            &&& rows.undo == m.undo
        },
{
    lemma_operation_keeps_rows(m, cs, now, today, dates);
    let (after, es) = many_run(m, cs, now, today, dates)->Ok_0;
    let tail = undo_tail(m, now, cap, es);
    lemma_committed_rows(m, after, ws.subrange(0, ws.len() - tail.len()));
}

/// The difference between two models, committed onto the first, gives
/// the second's tables, where no task and no note was taken out between
/// them.
pub proof fn lemma_committed_rows(before: ModelView, after: ModelView, ws: Seq<WriteView>)
    requires
        rows_kept(before, after),
        diff_effect(before, after, apply_writes(before, ws)),
    ensures
        apply_writes(before, ws).tasks == after.tasks,
        apply_writes(before, ws).placements == after.placements,
        apply_writes(before, ws).schedules == after.schedules,
        apply_writes(before, ws).notes == after.notes,
        apply_writes(before, ws).settings == after.settings,
        apply_writes(before, ws).undo == before.undo,
{
    let r = apply_writes(before, ws);
    assert(r.tasks =~= after.tasks);
    assert(r.notes =~= after.notes);
    assert(replaced(before.schedules, after.schedules) =~= after.schedules);
    assert(replaced(before.placements, after.placements) =~= after.placements);
}

proof fn lemma_operation_keeps_rows(m: ModelView, cs: Seq<CommandView>, now: int, today: Date, dates: DateOrder)
    requires
        keyed(m),
    ensures
        many_run(m, cs, now, today, dates) matches Ok((after, _)) ==> rows_kept(m, after),
    decreases cs.len(),
{
    if cs.len() > 0 && !super::command::inverse_kind(cs[0]) {
        reveal(run_outcome);
        lemma_command_keeps_rows(m, cs[0], now, today, dates);
        if let Ok((m1, _)) = run_spec(m, cs[0], now, today, dates) {
            lemma_operation_keeps_rows(m1, cs.subrange(1, cs.len() as int), now, today, dates);
            if let Ok((m2, _)) = many_run(m1, cs.subrange(1, cs.len() as int), now, today, dates) {
                lemma_rows_kept_trans(m, m1, m2);
            }
        }
    } else if cs.len() == 0 {
        lemma_rows_kept_refl(m);
    }
}

/// What undo hands back, committed onto the model it was read from,
/// leaves the tables of the model the top entry's inverse computes, and
/// the stack without that entry; where the inverse no longer applies, it
/// takes the entry off the stack and changes nothing else.
pub proof fn lemma_committed_undo(m: ModelView, now: int, today: Date, dates: DateOrder, r: Result<Undone, Rejected>)
    requires
        keyed(m),
        m.undo.len() > 0,
        undo_ok(m, now, today, dates, r),
    ensures
        r matches Ok(u) && match run_outcome(m, m.undo.last().inverse, now, today, dates) {
            Ok((after, _)) => {
                let rows = apply_writes(m, u.change@.drop_last());
                &&& u.change@.last() == WriteView::PopUndo(m.undo.last().id)
                &&& rows.tasks == after.tasks
                &&& rows.placements == after.placements
                &&& rows.schedules == after.schedules
                &&& rows.notes == after.notes
                &&& rows.undo == m.undo
            },
            Err(_) => u.change@ == seq![WriteView::PopUndo(m.undo.last().id)],
        },
{
    reveal(run_outcome);
    let top = m.undo.last();
    lemma_command_keeps_rows(m, top.inverse, now, today, dates);
    if let Ok((after, _)) = run_spec(m, top.inverse, now, today, dates) {
        let u = r->Ok_0;
        lemma_committed_rows(m, after, u.change@.drop_last());
    }
}

/// A command that changes fields of rows in place, where the value it
/// takes back is one the command would take: a title as a title is kept,
/// a rule that comes round.
pub open spec fn field_edit(m: ModelView, c: CommandView) -> bool {
    match c {
        CommandView::EditTitle { task, .. } =>
            m.tasks.contains_key(task) && title_of(m.tasks[task].title) == Ok::<Seq<char>, Seq<char>>(m.tasks[task].title),
        CommandView::EditTitleAndFuture { task, .. } => m.tasks.contains_key(task) && title_of(m.tasks[task].title)
            == Ok::<Seq<char>, Seq<char>>(m.tasks[task].title) && match m.tasks[task].schedule_id {
            Some(s) => m.schedules.contains_key(s) && title_of(m.schedules[s].title) == Ok::<Seq<char>, Seq<char>>(
                m.schedules[s].title,
            ),
            None => true,
        },
        CommandView::SetFocus { .. } | CommandView::SetDue { .. } | CommandView::SetRemind { .. } => true,
        CommandView::SetRule { schedule, .. } => m.schedules.contains_key(schedule) && usable(m.schedules[schedule].rule),
        CommandView::EditScheduleTitle { schedule, .. } =>
            m.schedules.contains_key(schedule) && title_of(m.schedules[schedule].title) == Ok::<Seq<char>, Seq<char>>(
                m.schedules[schedule].title,
            ),
        CommandView::StopSchedule { .. } | CommandView::ReplaceNote { .. } | CommandView::DeleteNote { .. } => true,
        _ => false,
    }
}

/// Undoing an edit of one field puts the model back: the inverse such a
/// command earns, run on what the command left, gives back every task,
/// placement, schedule and note the model had.
pub proof fn lemma_field_edit_undone(m: ModelView, c: CommandView, now: int, today: Date, dates: DateOrder)
    requires
        field_edit(m, c),
        run_spec(m, c, now, today, dates) is Ok,
    ensures
        run_spec(m, c, now, today, dates) matches Ok((m2, Some(e))) && run_spec(m2, e.1, now, today, dates) matches Ok((
            m3,
            _,
        )) && m3.tasks == m.tasks && m3.placements == m.placements && m3.schedules == m.schedules && m3.notes
            == m.notes,
{
    let m2 = run_spec(m, c, now, today, dates)->Ok_0.0;
    match c {
        CommandView::EditTitle { task, title } => {
            let e = run_spec(m, c, now, today, dates)->Ok_0.1->Some_0;
            let m3 = run_spec(m2, e.1, now, today, dates)->Ok_0.0;
            assert(m3.tasks =~= m.tasks);
        },
        CommandView::EditTitleAndFuture { task, title, schedule_title } => {
            lemma_title_and_future_undone(m, task, title, schedule_title, now, today, dates);
        },
        CommandView::SetFocus { task, focus } => {
            let e = run_spec(m, c, now, today, dates)->Ok_0.1->Some_0;
            let m3 = run_spec(m2, e.1, now, today, dates)->Ok_0.0;
            assert(m3.tasks =~= m.tasks);
        },
        CommandView::SetDue { task, date } => {
            let e = run_spec(m, c, now, today, dates)->Ok_0.1->Some_0;
            let m3 = run_spec(m2, e.1, now, today, dates)->Ok_0.0;
            assert(m3.tasks =~= m.tasks);
        },
        CommandView::SetRemind { task, date } => {
            let e = run_spec(m, c, now, today, dates)->Ok_0.1->Some_0;
            let m3 = run_spec(m2, e.1, now, today, dates)->Ok_0.0;
            assert(m3.tasks =~= m.tasks);
        },
        CommandView::SetRule { schedule, rule } => {
            let e = run_spec(m, c, now, today, dates)->Ok_0.1->Some_0;
            let m3 = run_spec(m2, e.1, now, today, dates)->Ok_0.0;
            assert(m3.schedules =~= m.schedules);
        },
        CommandView::EditScheduleTitle { schedule, title } => {
            let e = run_spec(m, c, now, today, dates)->Ok_0.1->Some_0;
            let m3 = run_spec(m2, e.1, now, today, dates)->Ok_0.0;
            assert(m3.schedules =~= m.schedules);
        },
        CommandView::StopSchedule { schedule } => {
            let e = run_spec(m, c, now, today, dates)->Ok_0.1->Some_0;
            let m3 = run_spec(m2, e.1, now, today, dates)->Ok_0.0;
            assert(m3.schedules =~= m.schedules);
        },
        CommandView::ReplaceNote { note, body } => {
            let e = run_spec(m, c, now, today, dates)->Ok_0.1->Some_0;
            let m3 = run_spec(m2, e.1, now, today, dates)->Ok_0.0;
            assert(m3.notes =~= m.notes);
        },
        CommandView::DeleteNote { note } => {
            let e = run_spec(m, c, now, today, dates)->Ok_0.1->Some_0;
            let m3 = run_spec(m2, e.1, now, today, dates)->Ok_0.0;
            assert(m3.notes =~= m.notes);
        },
        _ => {},
    }
}

proof fn lemma_title_and_future_undone(
    m: ModelView,
    task: Id,
    title: Seq<char>,
    schedule_title: Seq<char>,
    now: int,
    today: Date,
    dates: DateOrder,
)
    requires
        field_edit(m, CommandView::EditTitleAndFuture { task, title, schedule_title }),
        run_spec(m, CommandView::EditTitleAndFuture { task, title, schedule_title }, now, today, dates) is Ok,
    ensures
        run_spec(m, CommandView::EditTitleAndFuture { task, title, schedule_title }, now, today, dates) matches Ok((
            m2,
            Some(e),
        )) && run_spec(m2, e.1, now, today, dates) matches Ok((m3, _)) && m3.tasks == m.tasks && m3.placements
            == m.placements && m3.schedules == m.schedules && m3.notes == m.notes,
{
    let c = CommandView::EditTitleAndFuture { task, title, schedule_title };
    assert(run_spec(m, c, now, today, dates) == edit_title_and_future_spec(m, task, title, schedule_title));
    let m2 = run_spec(m, c, now, today, dates)->Ok_0.0;
    let e = run_spec(m, c, now, today, dates)->Ok_0.1->Some_0;
    let sid = m.tasks[task].schedule_id->Some_0;
    assert(e.1 == CommandView::EditTitleAndFuture {
        task,
        title: m.tasks[task].title,
        schedule_title: m.schedules[sid].title,
    });
    assert(run_spec(m2, e.1, now, today, dates) == edit_title_and_future_spec(
        m2,
        task,
        m.tasks[task].title,
        m.schedules[sid].title,
    ));
    let m3 = run_spec(m2, e.1, now, today, dates)->Ok_0.0;
    assert(m3.tasks =~= m.tasks);
    assert(m3.schedules =~= m.schedules);
}

/// Nothing outside the program may ask for an inverse: an operation that
/// holds one, where every command before the first such one holds, is
/// refused as a change nothing may ask for, and so writes nothing.
pub proof fn lemma_inverse_refused(m: ModelView, cs: Seq<CommandView>, now: int, today: Date, dates: DateOrder, k: int)
    requires
        0 <= k < cs.len(),
        super::command::inverse_kind(cs[k]),
        forall|j: int| 0 <= j < k ==> !super::command::inverse_kind(#[trigger] cs[j]),
        super::command::run_all(m, cs.subrange(0, k), now, today, dates) is Ok,
    ensures
        many_run(m, cs, now, today, dates) == Err::<(ModelView, Seq<(Seq<char>, CommandView)>), Seq<char>>(
            super::command::not_asked(),
        ),
    decreases k,
{
    reveal(run_outcome);
    if k > 0 {
        let head = cs.subrange(0, k);
        assert(head[0] == cs[0]);
        assert(!super::command::inverse_kind(cs[0]));
        let m1 = run_spec(m, cs[0], now, today, dates)->Ok_0.0;
        let rest = cs.subrange(1, cs.len() as int);
        assert(head.subrange(1, head.len() as int) =~= rest.subrange(0, k - 1));
        assert(rest[k - 1] == cs[k]);
        assert forall|j: int| 0 <= j < k - 1 implies !super::command::inverse_kind(#[trigger] rest[j]) by {
            assert(rest[j] == cs[j + 1]);
        }
        lemma_inverse_refused(m1, rest, now, today, dates, k - 1);
    }
}

// ---- undoing what adds a row -----------------------------------------

/// The rows of a table of tasks that are not deleted.
pub open spec fn live_rows(tasks: Map<Id, TaskView>) -> Map<Id, TaskView> {
    Map::new(|k: Id| tasks.contains_key(k) && tasks[k].live(), |k: Id| tasks[k])
}

/// The notes that are not deleted.
pub open spec fn live_notes(notes: Map<Id, super::model::NoteView>) -> Map<Id, super::model::NoteView> {
    Map::new(|k: Id| notes.contains_key(k) && notes[k].deleted_at is None, |k: Id| notes[k])
}

/// The id a new row takes is not one the table has.
proof fn lemma_next_id_fresh(ids: Set<Id>)
    requires
        ids.finite(),
        super::command::ids_fit(ids),
    ensures
        !ids.contains(super::command::next_id_of(ids) as Id),
        super::command::next_id_of(ids) <= i64::MAX,
        super::command::next_id_of(ids) >= i64::MIN,
{
    if !(ids =~= Set::<Id>::empty()) {
        let r = |a: Id, b: Id| a <= b;
        assert(vstd::relations::total_ordering(r));
        let k = choose|k: Id| ids.contains(k);
        assert(ids.len() > 0) by {
            if ids.len() == 0 {
                ids.lemma_len0_is_empty();
            }
        }
        ids.find_unique_maximal_ensures(r);
        let top = ids.find_unique_maximal(r);
        ids.lemma_maximal_equivalent_greatest(r, top);
        assert(vstd::relations::is_greatest(r, top, ids));
        assert forall|x: Id| ids.contains(x) implies x <= top by {
            assert(r(x, top));
        }
        let c = choose|c: Id| ids.contains(c) && forall|x: Id| ids.contains(x) ==> x <= c;
        assert(c <= top && top <= c);
    }
}

proof fn lemma_numbered_same(tasks: Map<Id, TaskView>, s: Seq<Id>, n: nat)
    requires
        n <= s.len(),
        forall|i: int| 0 <= i < n && tasks.contains_key(#[trigger] s[i]) ==> tasks[s[i]].position == i,
    ensures
        super::command::numbered(tasks, s, n) == tasks,
    decreases n,
{
    if n > 0 {
        lemma_numbered_same(tasks, s, (n - 1) as nat);
        let k = s[n - 1];
        if tasks.contains_key(k) {
            assert(super::command::with_position(tasks[k], (n - 1) as usize) == tasks[k]);
            assert(tasks.insert(k, tasks[k]) =~= tasks);
        }
    }
}

/// A deleted row filed under a new id leaves the order of a place and its
/// numbers as they were.
proof fn lemma_deleted_row_keeps_order(tasks: Map<Id, TaskView>, id: Id, gone: TaskView, place: Place, s: Seq<Id>)
    requires
        !tasks.contains_key(id),
        !gone.live(),
        super::model::is_order(tasks, place, s),
        forall|i: int| 0 <= i < s.len() ==> tasks[#[trigger] s[i]].position == i,
    ensures
        renumbered(tasks.insert(id, gone), super::model::order_of(tasks.insert(id, gone), place))
            == tasks.insert(id, gone),
{
    let t1 = tasks.insert(id, gone);
    assert(!s.contains(id));
    assert(super::model::is_order(t1, place, s)) by {
        assert forall|k: Id| #[trigger] s.contains(k) <==> (t1.contains_key(k) && super::model::in_place(t1[k], place)) by {
            if k != id {
                assert(t1[k] == tasks[k]);
            }
        }
        assert forall|i: int, j: int| 0 <= i < j < s.len() implies super::model::earlier(t1, #[trigger] s[i], #[trigger] s[j]) by {
            assert(s.contains(s[i]) && s.contains(s[j]));
            assert(t1[s[i]] == tasks[s[i]] && t1[s[j]] == tasks[s[j]]);
        }
    }
    super::model::lemma_is_the_order(t1, place, s);
    assert forall|i: int| 0 <= i < s.len() && t1.contains_key(#[trigger] s[i]) implies t1[s[i]].position == i by {
        assert(s.contains(s[i]));
        assert(t1[s[i]] == tasks[s[i]]);
    }
    lemma_numbered_same(t1, s, s.len());
}

proof fn lemma_add_step(m: ModelView, title: Seq<char>, place: Place, now: int, today: Date, dates: DateOrder) -> (id: Id)
    requires
        m.tasks.dom().finite(),
        super::command::ids_fit(m.tasks.dom()),
        run_spec(m, CommandView::AddTask { title, place }, now, today, dates) is Ok,
    ensures
        !m.tasks.contains_key(id),
        run_spec(m, CommandView::AddTask { title, place }, now, today, dates) matches Ok((m2, Some(e))) && e.1 == (
        CommandView::DeleteTask { task: id }) && m2 == (ModelView {
            tasks: m.tasks.insert(id, m2.tasks[id]),
            placements: m2.placements,
            ..m
        }) && m2.tasks[id].live() && m2.tasks[id].place() == place && m2.tasks[id].id == id && (m2.placements
            == m.placements || exists|k: super::model::PlacementKey| !m.placements.contains_key(k)
            && m2.placements == m.placements.insert(k, m2.placements[k]) && m2.placements[k].task_id == id),
{
    let c = CommandView::AddTask { title, place };
    assert(run_spec(m, c, now, today, dates) == add_task_spec(m, title, place, now));
    lemma_next_id_fresh(m.tasks.dom());
    let id = super::command::next_id_of(m.tasks.dom()) as Id;
    let m2 = run_spec(m, c, now, today, dates)->Ok_0.0;
    assert(m2.tasks =~= m.tasks.insert(id, m2.tasks[id]));
    assert(m2.tasks[id].day == super::model::day_of(place));
    assert(m2.tasks[id].place() == place) by {
        match place {
            Place::Backlog => {},
            Place::Day(d) => {},
        }
    }
    match place {
        Place::Day(d) => {
            let k = key_of(id, d);
            if !m.placements.contains_key(k) {
                assert(m2.placements[k].task_id == id);
                assert(m2.placements =~= m.placements.insert(k, m2.placements[k]));
            }
        },
        Place::Backlog => {},
    }
    id
}

proof fn lemma_delete_step(m2: ModelView, id: Id, now: int, today: Date, dates: DateOrder)
    requires
        m2.tasks.contains_key(id),
        m2.tasks[id].live(),
        m2.tasks[id].id == id,
    ensures
        run_spec(m2, CommandView::DeleteTask { task: id }, now, today, dates) matches Ok((m3, _)) && {
            let t1 = m2.tasks.insert(id, TaskView { deleted_at: Some(now), ..m2.tasks[id] });
            m3 == (ModelView {
                tasks: renumbered(t1, super::model::order_of(t1, m2.tasks[id].place())),
                ..m2
            })
        },
{
    let c = CommandView::DeleteTask { task: id };
    assert(run_spec(m2, c, now, today, dates) == delete_task_spec(m2, id, now));
    let t1 = m2.tasks.insert(id, TaskView { deleted_at: Some(now), ..m2.tasks[id] });
    assert(update(m2.tasks, id, |x: TaskView| TaskView { deleted_at: Some(now), ..x }) =~= t1);
}

/// The placements whose task is there and not deleted.
pub open spec fn live_placements(
    placements: Map<super::model::PlacementKey, super::model::PlacementView>,
    tasks: Map<Id, TaskView>,
) -> Map<super::model::PlacementKey, super::model::PlacementView> {
    Map::new(
        |k: super::model::PlacementKey|
            placements.contains_key(k) && tasks.contains_key(placements[k].task_id) && tasks[placements[k].task_id].live(),
        |k: super::model::PlacementKey| placements[k],
    )
}

/// Undoing an add gives back the live tasks and the placements of live
/// tasks, where the place the task went to is numbered `0..n` in its
/// order: the new task is deleted, and nothing else moves.
pub proof fn lemma_add_undone(
    m: ModelView,
    title: Seq<char>,
    place: Place,
    s: Seq<Id>,
    now: int,
    today: Date,
    dates: DateOrder,
)
    requires
        m.tasks.dom().finite(),
        super::command::ids_fit(m.tasks.dom()),
        super::model::is_order(m.tasks, place, s),
        forall|i: int| 0 <= i < s.len() ==> m.tasks[#[trigger] s[i]].position == i,
        run_spec(m, CommandView::AddTask { title, place }, now, today, dates) is Ok,
    ensures
        run_spec(m, CommandView::AddTask { title, place }, now, today, dates) matches Ok((m2, Some(e))) && run_spec(
            m2,
            e.1,
            now,
            today,
            dates,
        ) matches Ok((m3, _)) && live_rows(m3.tasks) == live_rows(m.tasks) && live_placements(
            m3.placements,
            m3.tasks,
        ) == live_placements(m.placements, m.tasks) && m3.schedules == m.schedules && m3.notes == m.notes,
{
    let id = lemma_add_step(m, title, place, now, today, dates);
    let c = CommandView::AddTask { title, place };
    let m2 = run_spec(m, c, now, today, dates)->Ok_0.0;
    let e = run_spec(m, c, now, today, dates)->Ok_0.1->Some_0;
    lemma_delete_step(m2, id, now, today, dates);
    let gone = TaskView { deleted_at: Some(now), ..m2.tasks[id] };
    assert(m2.tasks.insert(id, gone) =~= m.tasks.insert(id, gone));
    lemma_deleted_row_keeps_order(m.tasks, id, gone, place, s);
    let m3 = run_spec(m2, e.1, now, today, dates)->Ok_0.0;
    assert(m3.tasks == m.tasks.insert(id, gone));
    assert(live_rows(m3.tasks) =~= live_rows(m.tasks));
    assert(m3.placements == m2.placements);
    assert(live_placements(m3.placements, m3.tasks) =~= live_placements(m.placements, m.tasks)) by {
        if m2.placements != m.placements {
            let k0 = choose|k: super::model::PlacementKey| !m.placements.contains_key(k) && m2.placements
                == m.placements.insert(k, m2.placements[k]) && m2.placements[k].task_id == id;
        }
    }
}

/// Undoing a new note gives back the live notes: the new one is deleted.
pub proof fn lemma_new_note_undone(m: ModelView, now: int, today: Date, dates: DateOrder)
    requires
        m.notes.dom().finite(),
        super::command::ids_fit(m.notes.dom()),
    ensures
        run_spec(m, CommandView::CreateNote, now, today, dates) matches Ok((m2, Some(e))) && run_spec(
            m2,
            e.1,
            now,
            today,
            dates,
        ) matches Ok((m3, _)) && live_notes(m3.notes) == live_notes(m.notes) && m3.tasks == m.tasks
            && m3.placements == m.placements && m3.schedules == m.schedules,
{
    lemma_next_id_fresh(m.notes.dom());
    let c = CommandView::CreateNote;
    assert(run_spec(m, c, now, today, dates) == create_note_spec(m, now));
    let m2 = run_spec(m, c, now, today, dates)->Ok_0.0;
    let e = run_spec(m, c, now, today, dates)->Ok_0.1->Some_0;
    let id = super::command::next_id_of(m.notes.dom()) as Id;
    assert(e.1 == CommandView::DeleteNote { note: id });
    assert(run_spec(m2, e.1, now, today, dates) == delete_note_spec(m2, id, now));
    let m3 = run_spec(m2, e.1, now, today, dates)->Ok_0.0;
    assert(live_notes(m3.notes) =~= live_notes(m.notes));
}

// ---- undoing a close -------------------------------------------------

/// A row changed in a field the order does not read leaves the order of
/// its place as it was.
proof fn lemma_order_kept(tasks: Map<Id, TaskView>, id: Id, row: TaskView, place: Place, s: Seq<Id>)
    requires
        tasks.contains_key(id),
        super::model::is_order(tasks, place, s),
        row.position == tasks[id].position,
        row.id == tasks[id].id,
        row.live() == tasks[id].live(),
        row.place() == tasks[id].place(),
    ensures
        super::model::is_order(tasks.insert(id, row), place, s),
{
    let t1 = tasks.insert(id, row);
    assert forall|k: Id| #[trigger] s.contains(k) <==> (t1.contains_key(k) && super::model::in_place(t1[k], place)) by {
        if k != id {
            assert(t1[k] == tasks[k]);
        }
    }
    assert forall|i: int, j: int| 0 <= i < j < s.len() implies super::model::earlier(t1, #[trigger] s[i], #[trigger] s[j]) by {
        assert(super::model::earlier(tasks, s[i], s[j]));
    }
}

/// Putting a task back at the place it already has in a numbered order
/// changes nothing.
proof fn lemma_set_position_same(tasks: Map<Id, TaskView>, id: Id, s: Seq<Id>)
    requires
        tasks.contains_key(id),
        tasks[id].live(),
        super::model::is_order(tasks, tasks[id].place(), s),
        forall|i: int| 0 <= i < s.len() ==> tasks[#[trigger] s[i]].position == i,
    ensures
        super::command::set_position_spec(tasks, id, tasks[id].position) == tasks,
{
    let place = tasks[id].place();
    super::model::lemma_is_the_order(tasks, place, s);
    assert(s.contains(id));
    let p = super::command::index_in(s, id);
    assert(0 <= p < s.len() && s[p] == id);
    assert(tasks[s[p]].position == p);
    let rest = s.remove(p);
    assert(rest.insert(p, id) =~= s);
    assert forall|i: int| 0 <= i < s.len() && tasks.contains_key(#[trigger] s[i]) implies tasks[s[i]].position == i by {
    }
    lemma_numbered_same(tasks, s, s.len());
}

/// Undoing the close of a task on a day that waits on nobody gives back
/// every task as it was, where the day is numbered `0..n` in its order.
pub proof fn lemma_close_undone(m: ModelView, task: Id, s: Seq<Id>, now: int, today: Date, dates: DateOrder)
    requires
        m.tasks.contains_key(task),
        m.tasks[task].id == task,
        m.tasks[task].place() != Place::Backlog,
        !m.tasks[task].waiting,
        super::model::is_order(m.tasks, m.tasks[task].place(), s),
        forall|i: int| 0 <= i < s.len() ==> m.tasks[#[trigger] s[i]].position == i,
        run_spec(m, CommandView::Close { task }, now, today, dates) is Ok,
    ensures
        run_spec(m, CommandView::Close { task }, now, today, dates) matches Ok((m2, Some(e))) && run_spec(
            m2,
            e.1,
            now,
            today,
            dates,
        ) matches Ok((m3, _)) && m3.tasks == m.tasks && m3.placements == m.placements && m3.schedules
            == m.schedules && m3.notes == m.notes,
{
    let c = CommandView::Close { task };
    assert(run_spec(m, c, now, today, dates) == close_spec(m, task, now, today));
    let cur = m.tasks[task];
    let place = cur.place();
    let m2 = run_spec(m, c, now, today, dates)->Ok_0.0;
    let e = run_spec(m, c, now, today, dates)->Ok_0.1->Some_0;
    let closed = TaskView { closed_at: Some(now), ..cur };
    assert(m2.tasks =~= m.tasks.insert(task, closed));
    assert(e.1 == CommandView::MoveBack {
        task,
        place,
        position: cur.position,
        waiting: cur.waiting,
        drop_placement: None,
    });
    lemma_order_kept(m.tasks, task, closed, place, s);
    let t2 = m.tasks.insert(task, closed);
    assert forall|i: int| 0 <= i < s.len() implies t2[#[trigger] s[i]].position == i by {
        if s[i] != task {
            assert(t2[s[i]] == m.tasks[s[i]]);
        }
    }
    lemma_set_position_same(t2, task, s);
    assert(run_spec(m2, e.1, now, today, dates) == move_back_spec(m2, task, place, cur.position, cur.waiting, None));
    assert(super::command::put_in_place_spec(t2, task, place, cur.position) == t2);
    let m3 = run_spec(m2, e.1, now, today, dates)->Ok_0.0;
    assert(m3.tasks =~= m.tasks);
}

// ---- undoing a delete ------------------------------------------------

/// What numbering the first `n` ids of a sequence does to a table: each
/// of them takes its index as its position, and every other row stays.
proof fn lemma_numbered_rows(tasks: Map<Id, TaskView>, s: Seq<Id>, n: nat)
    requires
        s.no_duplicates(),
        n <= s.len(),
    ensures
        super::command::numbered(tasks, s, n).dom() == tasks.dom(),
        forall|i: int| 0 <= i < n && tasks.contains_key(#[trigger] s[i]) ==> super::command::numbered(tasks, s, n)[s[i]]
            == super::command::with_position(tasks[s[i]], i as usize),
        forall|k: Id| tasks.contains_key(k) && !s.subrange(0, n as int).contains(k) ==> #[trigger] super::command::numbered(
            tasks,
            s,
            n,
        )[k] == tasks[k],
    decreases n,
{
    if n > 0 {
        lemma_numbered_rows(tasks, s, (n - 1) as nat);
        let k = s[n - 1];
        let prev = super::command::numbered(tasks, s, (n - 1) as nat);
        if tasks.contains_key(k) {
            assert(!s.subrange(0, n - 1).contains(k)) by {
                if s.subrange(0, n - 1).contains(k) {
                    let j = choose|j: int| 0 <= j < n - 1 && #[trigger] s.subrange(0, n - 1)[j] == k;
                    assert(s[j] == s[n - 1]);
                }
            }
            assert(prev[k] == tasks[k]);
        }
        assert forall|k2: Id| tasks.contains_key(k2) && !s.subrange(0, n as int).contains(k2) implies #[trigger] super::command::numbered(
            tasks,
            s,
            n,
        )[k2] == tasks[k2] by {
            assert(k2 != s[n - 1]) by {
                assert(s.subrange(0, n as int)[n - 1] == s[n - 1]);
            }
            assert(!s.subrange(0, n - 1).contains(k2)) by {
                if s.subrange(0, n - 1).contains(k2) {
                    let j = choose|j: int| 0 <= j < n - 1 && #[trigger] s.subrange(0, n - 1)[j] == k2;
                    assert(s.subrange(0, n as int)[j] == k2);
                }
            }
        }
        assert forall|i: int| 0 <= i < n && tasks.contains_key(#[trigger] s[i]) implies super::command::numbered(tasks, s, n)[s[i]]
            == super::command::with_position(tasks[s[i]], i as usize) by {
            if i < n - 1 {
                assert(s[i] != s[n - 1]);
            }
        }
        assert(super::command::numbered(tasks, s, n).dom() =~= tasks.dom());
    }
}

/// Where a numbered order holds the task under `id`: at its position.
proof fn lemma_index_is_position(tasks: Map<Id, TaskView>, place: Place, s: Seq<Id>, id: Id) -> (p: int)
    requires
        tasks.contains_key(id),
        super::model::in_place(tasks[id], place),
        super::model::is_order(tasks, place, s),
        forall|i: int| 0 <= i < s.len() ==> tasks[#[trigger] s[i]].position == i,
    ensures
        0 <= p < s.len(),
        s[p] == id,
        p == tasks[id].position,
        super::command::index_in(s, id) == p,
{
    assert(s.contains(id));
    let p = choose|i: int| 0 <= i < s.len() && s[i] == id;
    let q = super::command::index_in(s, id);
    assert(s[q] == id);
    assert(p == q);
    p
}

/// The ids of a sequence with one taken out, each once.
proof fn lemma_remove_keeps(s: Seq<Id>, p: int)
    requires
        s.no_duplicates(),
        0 <= p < s.len(),
    ensures
        s.remove(p).no_duplicates(),
        forall|k: Id| s.remove(p).contains(k) <==> (s.contains(k) && k != s[p]),
        forall|j: int| 0 <= j < s.remove(p).len() ==> #[trigger] s.remove(p)[j] == if j < p {
            s[j]
        } else {
            s[j + 1]
        },
{
    let r = s.remove(p);
    assert forall|j: int| 0 <= j < r.len() implies #[trigger] r[j] == if j < p {
        s[j]
    } else {
        s[j + 1]
    } by {
    }
    assert forall|a: int, b: int| 0 <= a < b < r.len() implies r[a] != r[b] by {
        let a2 = if a < p { a } else { a + 1 };
        let b2 = if b < p { b } else { b + 1 };
        assert(r[a] == s[a2] && r[b] == s[b2]);
    }
    assert forall|k: Id| r.contains(k) <==> (s.contains(k) && k != s[p]) by {
        if r.contains(k) {
            let j = choose|j: int| 0 <= j < r.len() && r[j] == k;
            let j2 = if j < p { j } else { j + 1 };
            assert(s[j2] == k);
        }
        if s.contains(k) && k != s[p] {
            let j = choose|j: int| 0 <= j < s.len() && s[j] == k;
            if j < p {
                assert(r[j] == k);
            } else {
                assert(j != p);
                assert(r[j - 1] == k);
            }
        }
    }
}

/// The order of a place once a task is taken out of it, where the place
/// was numbered `0..n`: the same order without the task.
proof fn lemma_order_without(tasks: Map<Id, TaskView>, place: Place, s: Seq<Id>, id: Id, gone: TaskView, p: int)
    requires
        super::model::is_order(tasks, place, s),
        0 <= p < s.len(),
        s[p] == id,
        !super::model::in_place(gone, place),
    ensures
        super::model::is_order(tasks.insert(id, gone), place, s.remove(p)),
{
    let t1 = tasks.insert(id, gone);
    let rest = s.remove(p);
    lemma_remove_keeps(s, p);
    assert forall|k: Id| #[trigger] rest.contains(k) <==> (t1.contains_key(k) && super::model::in_place(t1[k], place)) by {
        assert(s.contains(k) <==> (tasks.contains_key(k) && super::model::in_place(tasks[k], place)));
        assert(rest.contains(k) <==> (s.contains(k) && k != s[p]));
        if k != id {
            assert(t1.contains_key(k) == tasks.contains_key(k));
            if tasks.contains_key(k) {
                assert(t1[k] == tasks[k]);
            }
        } else {
            assert(t1[k] == gone);
        }
    }
    assert forall|i: int, j: int| 0 <= i < j < rest.len() implies super::model::earlier(t1, #[trigger] rest[i], #[trigger] rest[j]) by {
        let i2 = if i < p { i } else { i + 1 };
        let j2 = if j < p { j } else { j + 1 };
        assert(rest[i] == s[i2] && rest[j] == s[j2]);
        assert(super::model::earlier(tasks, s[i2], s[j2]));
        assert(s[i2] != id && s[j2] != id);
    }
}

/// The order of a place once a task comes back at the position it had,
/// the others numbered `0..n-1`: the task stands where that position and
/// its id put it among them.
proof fn lemma_order_with(t3: Map<Id, TaskView>, place: Place, rest: Seq<Id>, id: Id, p: int) -> (o: Seq<Id>)
    requires
        rest.no_duplicates(),
        !rest.contains(id),
        0 <= p <= rest.len(),
        t3.contains_key(id),
        t3[id].position == p,
        super::model::in_place(t3[id], place),
        forall|k: Id| #[trigger] rest.contains(k) <==> (t3.contains_key(k) && super::model::in_place(t3[k], place) && k != id),
        forall|j: int| 0 <= j < rest.len() ==> t3[#[trigger] rest[j]].position == j,
    ensures
        super::model::is_order(t3, place, o),
        o.contains(id),
        o.remove(super::command::index_in(o, id)) == rest,
{
    let q = if p < rest.len() && super::model::earlier(t3, rest[p], id) {
        p + 1
    } else {
        p
    };
    let o = rest.insert(q, id);
    assert(o[q] == id);
    assert forall|j: int| 0 <= j < o.len() implies #[trigger] o[j] == if j < q {
        rest[j]
    } else if j == q {
        id
    } else {
        rest[j - 1]
    } by {
    }
    assert(o.no_duplicates()) by {
        assert forall|a: int, b: int| 0 <= a < b < o.len() implies o[a] != o[b] by {
            if a != q && b != q {
                let a2 = if a < q { a } else { a - 1 };
                let b2 = if b < q { b } else { b - 1 };
                assert(o[a] == rest[a2] && o[b] == rest[b2]);
            } else if a == q {
                let b2 = b - 1;
                assert(rest.contains(rest[b2]));
            } else {
                let a2 = a;
                assert(rest.contains(rest[a2]));
            }
        }
    }
    assert forall|k: Id| #[trigger] o.contains(k) <==> (t3.contains_key(k) && super::model::in_place(t3[k], place)) by {
        if o.contains(k) {
            let j = choose|j: int| 0 <= j < o.len() && o[j] == k;
            if j != q {
                let j2 = if j < q { j } else { j - 1 };
                assert(rest[j2] == k);
                assert(rest.contains(k));
            }
        }
        if t3.contains_key(k) && super::model::in_place(t3[k], place) {
            if k == id {
                assert(o[q] == k);
            } else {
                assert(rest.contains(k));
                let j = choose|j: int| 0 <= j < rest.len() && rest[j] == k;
                if j < q {
                    assert(o[j] == k);
                } else {
                    assert(o[j + 1] == k);
                }
            }
        }
    }
    assert forall|a: int, b: int| 0 <= a < b < o.len() implies super::model::earlier(t3, #[trigger] o[a], #[trigger] o[b]) by {
        if a != q && b != q {
            let a2 = if a < q { a } else { a - 1 };
            let b2 = if b < q { b } else { b - 1 };
            assert(o[a] == rest[a2] && o[b] == rest[b2]);
            assert(t3[rest[a2]].position == a2 && t3[rest[b2]].position == b2);
        } else if a == q {
            let b2 = b - 1;
            assert(o[b] == rest[b2]);
            assert(t3[rest[b2]].position == b2);
            if b2 == p {
                assert(q == p);
                assert(!super::model::earlier(t3, rest[p], id));
                assert(rest.contains(rest[p]));
                assert(rest[p] != id);
            }
        } else {
            assert(o[a] == rest[a]);
            assert(t3[rest[a]].position == a);
        }
    }
    assert(super::command::index_in(o, id) == q) by {
        let c = super::command::index_in(o, id);
        assert(o[c] == id);
        if c != q {
            let c2 = if c < q { c } else { c - 1 };
            assert(rest[c2] == id);
            assert(rest.contains(id));
        }
    }
    assert(o.remove(q) =~= rest);
    o
}

/// Undoing a delete gives back every task as it was, where the place the
/// task was in is numbered `0..n` in its order: the task comes back at
/// its position and the ones after it move back down.
#[verifier::spinoff_prover]
pub proof fn lemma_delete_undone(m: ModelView, task: Id, s: Seq<Id>, now: int, today: Date, dates: DateOrder)
    requires
        m.tasks.contains_key(task),
        m.tasks[task].id == task,
        m.tasks[task].live(),
        super::model::is_order(m.tasks, m.tasks[task].place(), s),
        forall|i: int| 0 <= i < s.len() ==> m.tasks[#[trigger] s[i]].position == i,
        s.len() <= usize::MAX,
    ensures
        run_spec(m, CommandView::DeleteTask { task }, now, today, dates) matches Ok((m2, Some(e))) && run_spec(
            m2,
            e.1,
            now,
            today,
            dates,
        ) matches Ok((m3, _)) && m3.tasks == m.tasks && m3.placements == m.placements && m3.schedules
            == m.schedules && m3.notes == m.notes,
{
    let cur = m.tasks[task];
    let place = cur.place();
    let p = lemma_index_is_position(m.tasks, place, s, task);
    lemma_delete_step(m, task, now, today, dates);
    let gone = TaskView { deleted_at: Some(now), ..cur };
    let t1 = m.tasks.insert(task, gone);
    lemma_order_without(m.tasks, place, s, task, gone, p);
    let rest = s.remove(p);
    lemma_remove_keeps(s, p);
    super::model::lemma_is_the_order(t1, place, rest);
    let c = CommandView::DeleteTask { task };
    assert(run_spec(m, c, now, today, dates) == delete_task_spec(m, task, now));
    let m2 = run_spec(m, c, now, today, dates)->Ok_0.0;
    let e = run_spec(m, c, now, today, dates)->Ok_0.1->Some_0;
    let t2 = renumbered(t1, rest);
    assert(m2.tasks == t2);
    lemma_numbered_rows(t1, rest, rest.len());
    assert(rest.subrange(0, rest.len() as int) =~= rest);
    assert(!rest.contains(task));
    assert(t2[task] == gone);
    assert(e.1 == CommandView::RestoreTask { task, position: cur.position });
    assert(run_spec(m2, e.1, now, today, dates) == restore_task_spec(m2, task, cur.position));
    let t3 = t2.insert(task, cur);
    assert(update(t2, task, |x: TaskView| TaskView { deleted_at: None, ..x }) =~= t3);
    assert forall|k: Id| #[trigger] rest.contains(k) <==> (t3.contains_key(k) && super::model::in_place(t3[k], place) && k != task) by {
        assert(s.contains(k) <==> (m.tasks.contains_key(k) && super::model::in_place(m.tasks[k], place)));
        if k != task && m.tasks.contains_key(k) {
            if rest.contains(k) {
                let j = choose|j: int| 0 <= j < rest.len() && rest[j] == k;
                assert(t2[rest[j]] == super::command::with_position(t1[rest[j]], j as usize));
                assert(t1[k] == m.tasks[k]);
            } else {
                assert(t2[k] == t1[k]);
                assert(t1[k] == m.tasks[k]);
            }
        }
    }
    assert forall|j: int| 0 <= j < rest.len() implies t3[#[trigger] rest[j]].position == j by {
        assert(rest.contains(rest[j]));
        assert(t2[rest[j]] == super::command::with_position(t1[rest[j]], j as usize));
    }
    let o = lemma_order_with(t3, place, rest, task, p);
    super::model::lemma_is_the_order(t3, place, o);
    assert(rest.insert(p, task) =~= s);
    assert(super::command::set_position_spec(t3, task, cur.position) == renumbered(t3, s));
    lemma_numbered_rows(t3, s, s.len());
    assert(s.subrange(0, s.len() as int) =~= s);
    let fin = renumbered(t3, s);
    assert forall|k: Id| #[trigger] fin.contains_key(k) <==> m.tasks.contains_key(k) by {
    }
    assert forall|k: Id| m.tasks.contains_key(k) implies #[trigger] fin[k] == m.tasks[k] by {
        if s.contains(k) {
            let i = choose|i: int| 0 <= i < s.len() && s[i] == k;
            assert(fin[s[i]] == super::command::with_position(t3[s[i]], i as usize));
            if k == task {
                assert(i == p);
            } else {
                assert(rest.contains(k));
                let j = choose|j: int| 0 <= j < rest.len() && rest[j] == k;
                assert(t2[rest[j]] == super::command::with_position(t1[rest[j]], j as usize));
                assert(t1[k] == m.tasks[k]);
                assert(m.tasks[s[i]].position == i);
            }
        } else {
            assert(k != task);
            assert(!rest.contains(k));
            assert(t2[k] == t1[k]);
        }
    }
    assert(fin =~= m.tasks);
    let m3 = run_spec(m2, e.1, now, today, dates)->Ok_0.0;
    assert(m3.tasks == fin);
}

/// Undoing a reopen gives back every task as it was, where the place is
/// numbered `0..n` in its order: the task is closed again at the time it
/// was closed and goes back to its position.
#[verifier::spinoff_prover]
pub proof fn lemma_reopen_undone(m: ModelView, task: Id, s: Seq<Id>, now: int, today: Date, dates: DateOrder)
    requires
        m.tasks.contains_key(task),
        m.tasks[task].id == task,
        m.tasks[task].live(),
        m.tasks[task].closed_at is Some,
        super::model::is_order(m.tasks, m.tasks[task].place(), s),
        forall|i: int| 0 <= i < s.len() ==> m.tasks[#[trigger] s[i]].position == i,
        s.len() <= usize::MAX,
    ensures
        run_spec(m, CommandView::Reopen { task }, now, today, dates) matches Ok((m2, Some(e))) && run_spec(
            m2,
            e.1,
            now,
            today,
            dates,
        ) matches Ok((m3, _)) && m3.tasks == m.tasks && m3.placements == m.placements && m3.schedules
            == m.schedules && m3.notes == m.notes,
{
    let cur = m.tasks[task];
    let place = cur.place();
    let closed = cur.closed_at->Some_0;
    let p = lemma_index_is_position(m.tasks, place, s, task);
    let c = CommandView::Reopen { task };
    assert(run_spec(m, c, now, today, dates) == reopen_spec(m, task));
    let opened = TaskView { closed_at: None, ..cur };
    let t1 = m.tasks.insert(task, opened);
    assert(update(m.tasks, task, |x: TaskView| TaskView { closed_at: None, ..x }) =~= t1);
    lemma_order_kept(m.tasks, task, opened, place, s);
    super::model::lemma_is_the_order(t1, place, s);
    assert(super::command::index_in(s, task) == p);
    let rest = s.remove(p);
    lemma_remove_keeps(s, p);
    let q = rest.insert(rest.len() as int, task);
    assert(q == rest.push(task));
    assert(!rest.contains(task));
    assert(q.no_duplicates()) by {
        assert forall|a: int, b: int| 0 <= a < b < q.len() implies q[a] != q[b] by {
            if b == rest.len() {
                assert(rest.contains(rest[a]));
            }
        }
    }
    let t2 = renumbered(t1, q);
    let m2 = run_spec(m, c, now, today, dates)->Ok_0.0;
    let e = run_spec(m, c, now, today, dates)->Ok_0.1->Some_0;
    assert(m2.tasks == t2);
    lemma_numbered_rows(t1, q, q.len());
    assert(q.subrange(0, q.len() as int) =~= q);
    assert(q[rest.len() as int] == task);
    assert(t2[task] == super::command::with_position(opened, rest.len() as usize));
    assert(e.1 == CommandView::CloseAt { task, closed_at: closed, position: cur.position });
    assert(run_spec(m2, e.1, now, today, dates) == close_at_spec(m2, task, closed, cur.position));
    let back = TaskView { closed_at: Some(closed), ..t2[task] };
    let t3 = t2.insert(task, back);
    assert(update(t2, task, |x: TaskView| TaskView { closed_at: Some(closed), ..x }) =~= t3);
    assert forall|k: Id| #[trigger] rest.contains(k) <==> (t3.contains_key(k) && super::model::in_place(t3[k], place) && k != task) by {
        assert(s.contains(k) <==> (m.tasks.contains_key(k) && super::model::in_place(m.tasks[k], place)));
        if k != task && m.tasks.contains_key(k) {
            if rest.contains(k) {
                let j = choose|j: int| 0 <= j < rest.len() && rest[j] == k;
                assert(q[j] == k);
                assert(t2[q[j]] == super::command::with_position(t1[q[j]], j as usize));
                assert(t1[k] == m.tasks[k]);
            } else {
                assert(!q.contains(k)) by {
                    if q.contains(k) {
                        let j = choose|j: int| 0 <= j < q.len() && q[j] == k;
                        if j < rest.len() {
                            assert(rest[j] == k);
                        }
                    }
                }
                assert(t2[k] == t1[k]);
                assert(t1[k] == m.tasks[k]);
            }
        }
    }
    assert forall|j: int| 0 <= j < rest.len() implies t3[#[trigger] rest[j]].position == j by {
        assert(rest.contains(rest[j]));
        assert(q[j] == rest[j]);
        assert(t2[q[j]] == super::command::with_position(t1[q[j]], j as usize));
    }
    let o = lemma_order_with(t3, place, rest, task, rest.len() as int);
    super::model::lemma_is_the_order(t3, place, o);
    assert(rest.insert(p, task) =~= s);
    assert(super::command::set_position_spec(t3, task, cur.position) == renumbered(t3, s));
    lemma_numbered_rows(t3, s, s.len());
    assert(s.subrange(0, s.len() as int) =~= s);
    let fin = renumbered(t3, s);
    assert forall|k: Id| #[trigger] fin.contains_key(k) <==> m.tasks.contains_key(k) by {
    }
    assert forall|k: Id| m.tasks.contains_key(k) implies #[trigger] fin[k] == m.tasks[k] by {
        if s.contains(k) {
            let i = choose|i: int| 0 <= i < s.len() && s[i] == k;
            assert(fin[s[i]] == super::command::with_position(t3[s[i]], i as usize));
            if k == task {
                assert(i == p);
            } else {
                assert(rest.contains(k));
                let j = choose|j: int| 0 <= j < rest.len() && rest[j] == k;
                assert(q[j] == k);
                assert(t2[q[j]] == super::command::with_position(t1[q[j]], j as usize));
                assert(t1[k] == m.tasks[k]);
                assert(m.tasks[s[i]].position == i);
            }
        } else {
            assert(k != task);
            assert(!q.contains(k)) by {
                if q.contains(k) {
                    let j = choose|j: int| 0 <= j < q.len() && q[j] == k;
                    if j < rest.len() {
                        assert(rest[j] == k);
                        assert(rest.contains(k));
                    }
                }
            }
            assert(t2[k] == t1[k]);
        }
    }
    assert(fin =~= m.tasks);
    let m3 = run_spec(m2, e.1, now, today, dates)->Ok_0.0;
    assert(m3.tasks == fin);
}

/// A sequence that numbers the tasks of a place `0..n` is their order.
proof fn lemma_dense_is_order(t: Map<Id, TaskView>, place: Place, q: Seq<Id>)
    requires
        q.no_duplicates(),
        forall|k: Id| #[trigger] q.contains(k) <==> (t.contains_key(k) && super::model::in_place(t[k], place)),
        forall|j: int| 0 <= j < q.len() ==> t[#[trigger] q[j]].position == j,
    ensures
        super::model::is_order(t, place, q),
{
    assert forall|i: int, j: int| 0 <= i < j < q.len() implies super::model::earlier(t, #[trigger] q[i], #[trigger] q[j]) by {
        assert(t[q[i]].position == i && t[q[j]].position == j);
    }
}

/// A task put into a sequence it is not in, at a place no further than
/// its end: each once, and the task where it was put.
proof fn lemma_insert_keeps(rest: Seq<Id>, at: int, id: Id)
    requires
        rest.no_duplicates(),
        !rest.contains(id),
        0 <= at <= rest.len(),
    ensures
        rest.insert(at, id).no_duplicates(),
        forall|k: Id| rest.insert(at, id).contains(k) <==> (rest.contains(k) || k == id),
        forall|j: int| 0 <= j < rest.insert(at, id).len() ==> #[trigger] rest.insert(at, id)[j] == if j < at {
            rest[j]
        } else if j == at {
            id
        } else {
            rest[j - 1]
        },
        super::command::index_in(rest.insert(at, id), id) == at,
        rest.insert(at, id).remove(at) == rest,
{
    let q = rest.insert(at, id);
    assert forall|j: int| 0 <= j < q.len() implies #[trigger] q[j] == if j < at {
        rest[j]
    } else if j == at {
        id
    } else {
        rest[j - 1]
    } by {
    }
    assert forall|a: int, b: int| 0 <= a < b < q.len() implies q[a] != q[b] by {
        if a != at && b != at {
            let a2 = if a < at { a } else { a - 1 };
            let b2 = if b < at { b } else { b - 1 };
            assert(q[a] == rest[a2] && q[b] == rest[b2]);
        } else if a == at {
            assert(rest.contains(rest[b - 1]));
        } else {
            assert(rest.contains(rest[a]));
        }
    }
    assert forall|k: Id| q.contains(k) <==> (rest.contains(k) || k == id) by {
        if q.contains(k) {
            let j = choose|j: int| 0 <= j < q.len() && q[j] == k;
            if j != at {
                let j2 = if j < at { j } else { j - 1 };
                assert(rest[j2] == k);
            }
        }
        if rest.contains(k) {
            let j = choose|j: int| 0 <= j < rest.len() && rest[j] == k;
            if j < at {
                assert(q[j] == k);
            } else {
                assert(q[j + 1] == k);
            }
        }
        if k == id {
            assert(q[at] == k);
        }
    }
    let c = super::command::index_in(q, id);
    assert(q[c] == id);
    if c != at {
        let c2 = if c < at { c } else { c - 1 };
        assert(rest[c2] == id);
        assert(rest.contains(id));
    }
    assert(q.remove(at) =~= rest);
}

/// Undoing a move within a list gives back every task as it was, where
/// the place is numbered `0..n` in its order.
#[verifier::spinoff_prover]
pub proof fn lemma_reorder_undone(
    m: ModelView,
    task: Id,
    position: usize,
    s: Seq<Id>,
    now: int,
    today: Date,
    dates: DateOrder,
)
    requires
        m.tasks.contains_key(task),
        m.tasks[task].id == task,
        m.tasks[task].live(),
        super::model::is_order(m.tasks, m.tasks[task].place(), s),
        forall|i: int| 0 <= i < s.len() ==> m.tasks[#[trigger] s[i]].position == i,
        s.len() <= usize::MAX,
    ensures
        run_spec(m, CommandView::Reorder { task, position }, now, today, dates) matches Ok((m2, Some(e)))
            && run_spec(m2, e.1, now, today, dates) matches Ok((m3, _)) && m3.tasks == m.tasks && m3.placements
            == m.placements && m3.schedules == m.schedules && m3.notes == m.notes,
{
    let cur = m.tasks[task];
    let place = cur.place();
    let p = lemma_index_is_position(m.tasks, place, s, task);
    let c = CommandView::Reorder { task, position };
    assert(run_spec(m, c, now, today, dates) == reorder_spec(m, task, position));
    super::model::lemma_is_the_order(m.tasks, place, s);
    let rest = s.remove(p);
    lemma_remove_keeps(s, p);
    assert(!rest.contains(task));
    let at: int = if (position as int) < rest.len() {
        position as int
    } else {
        rest.len() as int
    };
    let q = rest.insert(at, task);
    lemma_insert_keeps(rest, at, task);
    let t2 = renumbered(m.tasks, q);
    assert(super::command::set_position_spec(m.tasks, task, position) == t2);
    let m2 = run_spec(m, c, now, today, dates)->Ok_0.0;
    let e = run_spec(m, c, now, today, dates)->Ok_0.1->Some_0;
    assert(m2.tasks == t2);
    lemma_numbered_rows(m.tasks, q, q.len());
    assert(q.subrange(0, q.len() as int) =~= q);
    assert(e.1 == CommandView::Reorder { task, position: cur.position });
    assert(run_spec(m2, e.1, now, today, dates) == reorder_spec(m2, task, cur.position));
    assert(q[at] == task);
    assert(t2[task] == super::command::with_position(cur, at as usize));
    assert forall|k: Id| #[trigger] q.contains(k) <==> (t2.contains_key(k) && super::model::in_place(t2[k], place)) by {
        assert(s.contains(k) <==> (m.tasks.contains_key(k) && super::model::in_place(m.tasks[k], place)));
        if m.tasks.contains_key(k) {
            if q.contains(k) {
                let j = choose|j: int| 0 <= j < q.len() && q[j] == k;
                assert(t2[q[j]] == super::command::with_position(m.tasks[q[j]], j as usize));
            } else {
                assert(t2[k] == m.tasks[k]);
            }
        }
    }
    assert forall|j: int| 0 <= j < q.len() implies t2[#[trigger] q[j]].position == j by {
        assert(q.contains(q[j]));
        assert(t2[q[j]] == super::command::with_position(m.tasks[q[j]], j as usize));
    }
    lemma_dense_is_order(t2, place, q);
    super::model::lemma_is_the_order(t2, place, q);
    assert(rest.insert(p, task) =~= s);
    assert(super::command::set_position_spec(t2, task, cur.position) == renumbered(t2, s));
    lemma_numbered_rows(t2, s, s.len());
    assert(s.subrange(0, s.len() as int) =~= s);
    let fin = renumbered(t2, s);
    assert forall|k: Id| #[trigger] fin.contains_key(k) <==> m.tasks.contains_key(k) by {
    }
    assert forall|k: Id| m.tasks.contains_key(k) implies #[trigger] fin[k] == m.tasks[k] by {
        if s.contains(k) {
            let i = choose|i: int| 0 <= i < s.len() && s[i] == k;
            assert(fin[s[i]] == super::command::with_position(t2[s[i]], i as usize));
            assert(q.contains(k));
            let j = choose|j: int| 0 <= j < q.len() && q[j] == k;
            assert(t2[q[j]] == super::command::with_position(m.tasks[q[j]], j as usize));
            assert(m.tasks[s[i]].position == i);
        } else {
            assert(!q.contains(k));
            assert(t2[k] == m.tasks[k]);
        }
    }
    assert(fin =~= m.tasks);
    let m3 = run_spec(m2, e.1, now, today, dates)->Ok_0.0;
    assert(m3.tasks == fin);
}


// ---- undoing a move between places -------------------------------------

/// Sending a task to the end of another place, where both places are
/// numbered `0..n` in their orders: the task takes the next number
/// there, the tasks it leaves behind close up, and both places stay
/// numbered in their orders.
#[verifier::spinoff_prover]
proof fn lemma_sent_away(tasks: Map<Id, TaskView>, id: Id, to: Place, s: Seq<Id>, u: Seq<Id>) -> (t: Map<Id, TaskView>)
    requires
        tasks.contains_key(id),
        tasks[id].live(),
        tasks[id].place() != to,
        super::model::is_order(tasks, tasks[id].place(), s),
        forall|i: int| 0 <= i < s.len() ==> tasks[#[trigger] s[i]].position == i,
        super::model::is_order(tasks, to, u),
        forall|i: int| 0 <= i < u.len() ==> tasks[#[trigger] u[i]].position == i,
        u.len() < usize::MAX,
    ensures
        t == super::command::put_in_place_spec(tasks, id, to, u.len() as usize),
        t.dom() == tasks.dom(),
        t[id] == (TaskView { day: super::model::day_of(to), position: u.len() as usize, ..tasks[id] }),
        forall|k: Id| #[trigger] t.contains_key(k) && k != id ==> t[k] == (if super::model::in_place(tasks[k], tasks[id].place()) {
            super::command::with_position(tasks[k], if tasks[k].position < tasks[id].position {
                tasks[k].position
            } else {
                (tasks[k].position - 1) as usize
            })
        } else {
            tasks[k]
        }),
        super::model::is_order(t, to, u.insert(u.len() as int, id)),
        forall|i: int| 0 <= i < u.len() + 1 ==> t[#[trigger] u.insert(u.len() as int, id)[i]].position == i,
        super::model::is_order(t, tasks[id].place(), s.remove(tasks[id].position as int)),
        forall|i: int| 0 <= i < s.len() - 1 ==> t[#[trigger] s.remove(tasks[id].position as int)[i]].position == i,
{
    let cur = tasks[id];
    let from = cur.place();
    let n = u.len();
    let p = lemma_index_is_position(tasks, from, s, id);
    let gone = super::command::moved_to(cur, to);
    let moved = tasks.insert(id, gone);
    assert(!super::model::in_place(gone, from));
    lemma_order_without(tasks, from, s, id, gone, p);
    let rest = s.remove(p);
    lemma_remove_keeps(s, p);
    super::model::lemma_is_the_order(moved, from, rest);
    let first = renumbered(moved, rest);
    lemma_numbered_rows(moved, rest, rest.len());
    assert(rest.subrange(0, rest.len() as int) =~= rest);
    assert(!rest.contains(id));
    assert(first[id] == gone);
    assert(!u.contains(id));
    assert forall|j: int| 0 <= j < n implies #[trigger] first[u[j]] == tasks[u[j]] by {
        assert(u.contains(u[j]));
        assert(!s.contains(u[j]));
        assert(!rest.contains(u[j]));
    }
    let w = u.insert(n as int, id);
    lemma_insert_keeps(u, n as int, id);
    assert(super::model::place_of(super::model::day_of(to)) == to) by {
        match to {
            Place::Backlog => {},
            Place::Day(d) => {},
        }
    }
    assert(super::model::in_place(gone, to));
    assert forall|k: Id| #[trigger] w.contains(k) <==> (first.contains_key(k) && super::model::in_place(first[k], to)) by {
        if u.contains(k) {
            let j = choose|j: int| 0 <= j < n && u[j] == k;
            assert(first[u[j]] == tasks[u[j]]);
        }
        if k != id && first.contains_key(k) {
            if rest.contains(k) {
                let j = choose|j: int| 0 <= j < rest.len() && rest[j] == k;
                assert(first[rest[j]] == super::command::with_position(moved[rest[j]], j as usize));
                assert(s.contains(k));
                assert(super::model::in_place(tasks[k], from));
                assert(!u.contains(k));
            } else {
                assert(first[k] == moved[k]);
                assert(moved[k] == tasks[k]);
            }
        }
    }
    assert forall|a: int, b: int| 0 <= a < b < w.len() implies super::model::earlier(first, #[trigger] w[a], #[trigger] w[b]) by {
        assert(first[w[a]].position == a);
        if b < n {
            assert(first[w[b]].position == b);
        } else {
            assert(w[b] == id);
        }
    }
    super::model::lemma_is_the_order(first, to, w);
    assert(super::command::set_position_spec(first, id, n as usize) == renumbered(first, w));
    let t = renumbered(first, w);
    lemma_numbered_rows(first, w, w.len());
    assert(w.subrange(0, w.len() as int) =~= w);
    assert(t.dom() =~= tasks.dom());
    assert(t[id] == super::command::with_position(gone, n as usize));
    assert(t[id] =~= (TaskView { day: super::model::day_of(to), position: n as usize, ..cur }));
    assert forall|k: Id| #[trigger] t.contains_key(k) && k != id implies t[k] == (if super::model::in_place(tasks[k], from) {
        super::command::with_position(tasks[k], if tasks[k].position < cur.position {
            tasks[k].position
        } else {
            (tasks[k].position - 1) as usize
        })
    } else {
        tasks[k]
    }) by {
        if w.contains(k) {
            let j = choose|j: int| 0 <= j < w.len() && w[j] == k;
            assert(j < n);
            assert(first[u[j]] == tasks[u[j]]);
            assert(t[w[j]] == super::command::with_position(first[w[j]], j as usize));
            assert(u.contains(k));
            assert(!s.contains(k));
            assert(t[k] =~= tasks[k]);
        } else if rest.contains(k) {
            let j = choose|j: int| 0 <= j < rest.len() && rest[j] == k;
            assert(first[rest[j]] == super::command::with_position(moved[rest[j]], j as usize));
            assert(s.contains(k));
            let i = if j < p { j } else { j + 1 };
            assert(s[i] == k);
            assert(tasks[s[i]].position == i);
        } else {
            assert(t[k] == first[k]);
            assert(first[k] == moved[k]);
            assert(!s.contains(k));
        }
    }
    assert forall|i: int| 0 <= i < rest.len() implies t[#[trigger] rest[i]].position == i by {
        assert(rest.contains(rest[i]));
        assert(!w.contains(rest[i]));
        assert(first[rest[i]] == super::command::with_position(moved[rest[i]], i as usize));
    }
    assert forall|k: Id| #[trigger] rest.contains(k) <==> (t.contains_key(k) && super::model::in_place(t[k], from)) by {
        if t.contains_key(k) && k != id {
            if w.contains(k) {
                let j = choose|j: int| 0 <= j < w.len() && w[j] == k;
                assert(t[w[j]] == super::command::with_position(first[w[j]], j as usize));
            } else if rest.contains(k) {
            } else {
                assert(t[k] == first[k]);
                assert(first[k] == moved[k]);
            }
        }
    }
    lemma_dense_is_order(t, from, rest);
    assert forall|i: int| 0 <= i < w.len() implies t[#[trigger] w[i]].position == i by {
        assert(w.contains(w[i]));
        assert(t[w[i]] == super::command::with_position(first[w[i]], i as usize));
    }
    assert forall|k: Id| #[trigger] w.contains(k) <==> (t.contains_key(k) && super::model::in_place(t[k], to)) by {
        assert(w.contains(k) <==> (first.contains_key(k) && super::model::in_place(first[k], to)));
        if w.contains(k) {
            let j = choose|j: int| 0 <= j < w.len() && w[j] == k;
            assert(t[w[j]] == super::command::with_position(first[w[j]], j as usize));
        } else if first.contains_key(k) {
            assert(t[k] == first[k]);
        }
    }
    lemma_dense_is_order(t, to, w);
    t
}


/// Sending a task back to a place it left, at a position no further than
/// the place's end, where both places are numbered `0..n` in their orders
/// and the task is last where it stands: it takes that position, and the
/// tasks from it on move one down.
#[verifier::spinoff_prover]
proof fn lemma_sent_back(t: Map<Id, TaskView>, id: Id, from: Place, w: Seq<Id>, rest: Seq<Id>, p: int) -> (r: Map<Id, TaskView>)
    requires
        t.contains_key(id),
        t[id].live(),
        t[id].place() != from,
        super::model::is_order(t, t[id].place(), w),
        forall|i: int| 0 <= i < w.len() ==> t[#[trigger] w[i]].position == i,
        w.len() > 0,
        w[w.len() - 1] == id,
        super::model::is_order(t, from, rest),
        forall|i: int| 0 <= i < rest.len() ==> t[#[trigger] rest[i]].position == i,
        rest.len() < usize::MAX,
        0 <= p <= rest.len(),
    ensures
        r == super::command::put_in_place_spec(t, id, from, p as usize),
        r.dom() == t.dom(),
        r[id] == (TaskView { day: super::model::day_of(from), position: p as usize, ..t[id] }),
        forall|k: Id| #[trigger] r.contains_key(k) && k != id ==> r[k] == (if super::model::in_place(t[k], from) {
            super::command::with_position(t[k], if t[k].position < p {
                t[k].position
            } else {
                (t[k].position + 1) as usize
            })
        } else {
            t[k]
        }),
{
    let cur = t[id];
    let to = cur.place();
    let n = w.len() - 1;
    let gone = super::command::moved_to(cur, from);
    let moved = t.insert(id, gone);
    assert(super::model::place_of(super::model::day_of(from)) == from) by {
        match from {
            Place::Backlog => {},
            Place::Day(d) => {},
        }
    }
    assert(super::model::in_place(gone, from));
    lemma_order_without(t, to, w, id, gone, n);
    let u = w.remove(n);
    lemma_remove_keeps(w, n);
    super::model::lemma_is_the_order(moved, to, u);
    assert forall|i: int| 0 <= i < u.len() && moved.contains_key(#[trigger] u[i]) implies moved[u[i]].position == i by {
        assert(u[i] == w[i]);
        assert(w[i] != id);
    }
    lemma_numbered_same(moved, u, u.len());
    assert(renumbered(moved, u) == moved);
    assert(!rest.contains(id));
    let q = rest.insert(rest.len() as int, id);
    lemma_insert_keeps(rest, rest.len() as int, id);
    assert forall|k: Id| #[trigger] q.contains(k) <==> (moved.contains_key(k) && super::model::in_place(moved[k], from)) by {
        assert(q.contains(k) <==> (rest.contains(k) || k == id));
        assert(rest.contains(k) <==> (t.contains_key(k) && super::model::in_place(t[k], from)));
        if k != id {
            assert(moved.contains_key(k) == t.contains_key(k));
            if t.contains_key(k) {
                assert(moved[k] == t[k]);
            }
        } else {
            assert(moved[k] == gone);
        }
    }
    assert forall|a: int, b: int| 0 <= a < b < q.len() implies super::model::earlier(moved, #[trigger] q[a], #[trigger] q[b]) by {
        assert(q[a] == rest[a]);
        assert(rest.contains(rest[a]));
        assert(moved[rest[a]] == t[rest[a]]);
        assert(t[rest[a]].position == a);
        if b < rest.len() {
            assert(q[b] == rest[b]);
            assert(rest.contains(rest[b]));
            assert(moved[rest[b]] == t[rest[b]]);
            assert(t[rest[b]].position == b);
        } else {
            assert(q[b] == id);
        }
    }
    super::model::lemma_is_the_order(moved, from, q);
    let s = rest.insert(p, id);
    lemma_insert_keeps(rest, p, id);
    assert(super::command::set_position_spec(moved, id, p as usize) == renumbered(moved, s));
    let r = renumbered(moved, s);
    lemma_numbered_rows(moved, s, s.len());
    assert(s.subrange(0, s.len() as int) =~= s);
    assert(r.dom() =~= t.dom());
    assert(s.contains(id));
    assert(r[s[p]] == super::command::with_position(moved[s[p]], p as usize));
    assert(r[id] =~= (TaskView { day: super::model::day_of(from), position: p as usize, ..cur }));
    assert forall|k: Id| #[trigger] r.contains_key(k) && k != id implies r[k] == (if super::model::in_place(t[k], from) {
        super::command::with_position(t[k], if t[k].position < p {
            t[k].position
        } else {
            (t[k].position + 1) as usize
        })
    } else {
        t[k]
    }) by {
        assert(moved[k] == t[k]);
        if rest.contains(k) {
            let j = choose|j: int| 0 <= j < rest.len() && rest[j] == k;
            assert(t[rest[j]].position == j);
            let i = if j < p { j } else { j + 1 };
            assert(s[i] == k);
            assert(r[s[i]] == super::command::with_position(moved[s[i]], i as usize));
        } else {
            assert(!s.contains(k));
            assert(r[k] == moved[k]);
        }
    }
    r
}


/// A task sent to the end of another place, its fields the order does
/// not read changed there, then sent back to the position it had, where
/// both places are numbered `0..n` in their orders: every other task is
/// as it was, and the task is the changed row back at its day and
/// position.
#[verifier::spinoff_prover]
proof fn lemma_round_trip(tasks: Map<Id, TaskView>, id: Id, to: Place, s: Seq<Id>, u: Seq<Id>, row: TaskView)
    requires
        tasks.contains_key(id),
        tasks[id].live(),
        tasks[id].place() != to,
        super::model::is_order(tasks, tasks[id].place(), s),
        forall|i: int| 0 <= i < s.len() ==> tasks[#[trigger] s[i]].position == i,
        super::model::is_order(tasks, to, u),
        forall|i: int| 0 <= i < u.len() ==> tasks[#[trigger] u[i]].position == i,
        u.len() < usize::MAX,
        s.len() <= usize::MAX,
        row.id == tasks[id].id,
        row.live(),
        row.day == super::model::day_of(to),
        row.position == u.len(),
    ensures
        ({
            let back = super::command::put_in_place_spec(
                super::command::put_in_place_spec(tasks, id, to, u.len() as usize).insert(id, row),
                id,
                tasks[id].place(),
                tasks[id].position,
            );
            &&& back.dom() == tasks.dom()
            &&& back[id] == (TaskView { day: tasks[id].day, position: tasks[id].position, ..row })
            &&& forall|k: Id| #[trigger] back.contains_key(k) && k != id ==> back[k] == tasks[k]
        }),
{
    let cur = tasks[id];
    let from = cur.place();
    let p = lemma_index_is_position(tasks, from, s, id);
    let t1 = lemma_sent_away(tasks, id, to, s, u);
    let w = u.insert(u.len() as int, id);
    let rest = s.remove(p);
    lemma_remove_keeps(s, p);
    let t2 = t1.insert(id, row);
    lemma_order_kept(t1, id, row, to, w);
    lemma_order_kept(t1, id, row, from, rest);
    assert forall|i: int| 0 <= i < w.len() implies t2[#[trigger] w[i]].position == i by {
        assert(t1[w[i]].position == i);
    }
    assert forall|i: int| 0 <= i < rest.len() implies t2[#[trigger] rest[i]].position == i by {
        assert(t1[rest[i]].position == i);
    }
    assert(w[w.len() - 1] == id);
    let back = lemma_sent_back(t2, id, from, w, rest, p);
    assert(super::model::day_of(from) == cur.day) by {
        match cur.day {
            Some(d) => {},
            None => {},
        }
    }
    assert(back[id] =~= (TaskView { day: cur.day, position: cur.position, ..row }));
    assert forall|k: Id| #[trigger] back.contains_key(k) && k != id implies back[k] == tasks[k] by {
        assert(t2[k] == t1[k]);
        if super::model::in_place(tasks[k], from) {
            assert(s.contains(k));
            let i = choose|i: int| 0 <= i < s.len() && s[i] == k;
            assert(tasks[s[i]].position == i);
            assert(i != p);
        }
    }
}


/// Undoing a move to another place gives back every task and every
/// placement as they were, where both places are numbered `0..n` in
/// their orders and a task waits only in the backlog: the task goes back
/// to its position, waiting as it was, and the placement the move wrote,
/// if it wrote one, goes.
#[verifier::spinoff_prover]
pub proof fn lemma_move_undone(
    m: ModelView,
    task: Id,
    place: Place,
    s: Seq<Id>,
    u: Seq<Id>,
    now: int,
    today: Date,
    dates: DateOrder,
)
    requires
        m.tasks.contains_key(task),
        m.tasks[task].id == task,
        m.tasks[task].live(),
        m.tasks[task].open(),
        m.tasks[task].place() != place,
        m.tasks[task].waiting ==> m.tasks[task].place() == Place::Backlog,
        super::model::is_order(m.tasks, m.tasks[task].place(), s),
        forall|i: int| 0 <= i < s.len() ==> m.tasks[#[trigger] s[i]].position == i,
        super::model::is_order(m.tasks, place, u),
        forall|i: int| 0 <= i < u.len() ==> m.tasks[#[trigger] u[i]].position == i,
        u.len() < usize::MAX,
        s.len() <= usize::MAX,
    ensures
        run_spec(m, CommandView::Move { task, place }, now, today, dates) matches Ok((m2, Some(e))) && run_spec(
            m2,
            e.1,
            now,
            today,
            dates,
        ) matches Ok((m3, _)) && m3.tasks == m.tasks && m3.placements == m.placements && m3.schedules
            == m.schedules && m3.notes == m.notes,
{
    let c = CommandView::Move { task, place };
    assert(run_spec(m, c, now, today, dates) == move_spec(m, task, place, now, today, dates));
    let cur = m.tasks[task];
    let from = cur.place();
    super::model::lemma_is_the_order(m.tasks, place, u);
    let n = u.len();
    let t1 = lemma_sent_away(m.tasks, task, place, s, u);
    let row = TaskView { waiting: false, ..t1[task] };
    lemma_round_trip(m.tasks, task, place, s, u, row);
    let m2 = run_spec(m, c, now, today, dates)->Ok_0.0;
    let e = run_spec(m, c, now, today, dates)->Ok_0.1->Some_0;
    assert(m2.tasks =~= t1.insert(task, row));
    let drop = e.1->MoveBack_drop_placement;
    assert(e.1 == CommandView::MoveBack { task, place: from, position: cur.position, waiting: cur.waiting, drop_placement: drop });
    assert(run_spec(m2, e.1, now, today, dates) == move_back_spec(m2, task, from, cur.position, cur.waiting, drop));
    let back = super::command::put_in_place_spec(t1.insert(task, row), task, from, cur.position);
    let fin = update(back, task, |x: TaskView| TaskView { waiting: cur.waiting && super::model::day_of(from) is None, closed_at: None, ..x });
    let m3 = run_spec(m2, e.1, now, today, dates)->Ok_0.0;
    assert(m3.tasks == fin);
    assert(fin =~= m.tasks) by {
        assert(fin[task] =~= cur);
    }
    match place {
        Place::Day(d) => {
            if m.placements.contains_key(super::model::key_of(task, d)) {
                assert(drop is None);
            } else {
                assert(drop == Some(d));
                assert(m3.placements =~= m.placements);
            }
        },
        Place::Backlog => {},
    }
}


/// Undoing a change of whether a task waits gives back every task as it
/// was, where the task's place and the backlog are numbered `0..n` in
/// their orders and a task waits only in the backlog: a task sent to the
/// backlog to wait goes back to its day and position.
#[verifier::spinoff_prover]
pub proof fn lemma_set_waiting_undone(
    m: ModelView,
    task: Id,
    waiting: bool,
    s: Seq<Id>,
    u: Seq<Id>,
    now: int,
    today: Date,
    dates: DateOrder,
)
    requires
        m.tasks.contains_key(task),
        m.tasks[task].id == task,
        m.tasks[task].live(),
        m.tasks[task].open(),
        m.tasks[task].waiting ==> m.tasks[task].place() == Place::Backlog,
        super::model::is_order(m.tasks, m.tasks[task].place(), s),
        forall|i: int| 0 <= i < s.len() ==> m.tasks[#[trigger] s[i]].position == i,
        super::model::is_order(m.tasks, Place::Backlog, u),
        forall|i: int| 0 <= i < u.len() ==> m.tasks[#[trigger] u[i]].position == i,
        u.len() < usize::MAX,
        s.len() <= usize::MAX,
    ensures
        run_spec(m, CommandView::SetWaiting { task, waiting }, now, today, dates) matches Ok((m2, Some(e))) && run_spec(
            m2,
            e.1,
            now,
            today,
            dates,
        ) matches Ok((m3, _)) && m3.tasks == m.tasks && m3.placements == m.placements && m3.schedules
            == m.schedules && m3.notes == m.notes,
{
    let c = CommandView::SetWaiting { task, waiting };
    assert(run_spec(m, c, now, today, dates) == set_waiting_spec(m, task, waiting));
    let cur = m.tasks[task];
    let from = cur.place();
    let m2 = run_spec(m, c, now, today, dates)->Ok_0.0;
    let e = run_spec(m, c, now, today, dates)->Ok_0.1->Some_0;
    if waiting && from != Place::Backlog {
        super::model::lemma_is_the_order(m.tasks, Place::Backlog, u);
        let t1 = lemma_sent_away(m.tasks, task, Place::Backlog, s, u);
        let row = TaskView { waiting: true, ..t1[task] };
        lemma_round_trip(m.tasks, task, Place::Backlog, s, u, row);
        assert(m2.tasks =~= t1.insert(task, row));
        assert(e.1 == CommandView::MoveBack { task, place: from, position: cur.position, waiting: false, drop_placement: None });
        assert(run_spec(m2, e.1, now, today, dates) == move_back_spec(m2, task, from, cur.position, false, None));
        let back = super::command::put_in_place_spec(t1.insert(task, row), task, from, cur.position);
        let fin = update(back, task, |x: TaskView| TaskView { waiting: false && super::model::day_of(from) is None, closed_at: None, ..x });
        let m3 = run_spec(m2, e.1, now, today, dates)->Ok_0.0;
        assert(m3.tasks == fin);
        assert(fin =~= m.tasks) by {
            assert(fin[task] =~= cur);
        }
    } else {
        let row = TaskView { waiting, ..cur };
        assert(m2.tasks =~= m.tasks.insert(task, row));
        assert(e.1 == CommandView::SetWaiting { task, waiting: cur.waiting });
        assert(run_spec(m2, e.1, now, today, dates) == set_waiting_spec(m2, task, cur.waiting));
        let m3 = run_spec(m2, e.1, now, today, dates)->Ok_0.0;
        assert(m3.tasks =~= m.tasks) by {
            assert(m3.tasks[task] =~= cur);
        }
    }
}


/// Undoing the close of a task in the backlog gives back every task and
/// every placement as they were, where the backlog and today are numbered
/// `0..n` in their orders: the close took the task to today, and the
/// inverse takes it back to its position, waiting as it was, and drops
/// the placement the close wrote, if it wrote one.
#[verifier::spinoff_prover]
pub proof fn lemma_backlog_close_undone(
    m: ModelView,
    task: Id,
    s: Seq<Id>,
    u: Seq<Id>,
    now: int,
    today: Date,
    dates: DateOrder,
)
    requires
        m.tasks.contains_key(task),
        m.tasks[task].id == task,
        m.tasks[task].live(),
        m.tasks[task].open(),
        m.tasks[task].place() == Place::Backlog,
        super::model::is_order(m.tasks, Place::Backlog, s),
        forall|i: int| 0 <= i < s.len() ==> m.tasks[#[trigger] s[i]].position == i,
        super::model::is_order(m.tasks, Place::Day(today), u),
        forall|i: int| 0 <= i < u.len() ==> m.tasks[#[trigger] u[i]].position == i,
        u.len() < usize::MAX,
        s.len() <= usize::MAX,
    ensures
        run_spec(m, CommandView::Close { task }, now, today, dates) matches Ok((m2, Some(e))) && run_spec(
            m2,
            e.1,
            now,
            today,
            dates,
        ) matches Ok((m3, _)) && m3.tasks == m.tasks && m3.placements == m.placements && m3.schedules
            == m.schedules && m3.notes == m.notes,
{
    let c = CommandView::Close { task };
    assert(run_spec(m, c, now, today, dates) == close_spec(m, task, now, today));
    let cur = m.tasks[task];
    let to = Place::Day(today);
    super::model::lemma_is_the_order(m.tasks, to, u);
    let t1 = lemma_sent_away(m.tasks, task, to, s, u);
    let row = TaskView { waiting: false, closed_at: Some(now), ..t1[task] };
    lemma_round_trip(m.tasks, task, to, s, u, row);
    let m2 = run_spec(m, c, now, today, dates)->Ok_0.0;
    let e = run_spec(m, c, now, today, dates)->Ok_0.1->Some_0;
    assert(m2.tasks =~= t1.insert(task, row));
    let drop = e.1->MoveBack_drop_placement;
    assert(e.1 == CommandView::MoveBack {
        task,
        place: Place::Backlog,
        position: cur.position,
        waiting: cur.waiting,
        drop_placement: drop,
    });
    assert(run_spec(m2, e.1, now, today, dates) == move_back_spec(m2, task, Place::Backlog, cur.position, cur.waiting, drop));
    let back = super::command::put_in_place_spec(t1.insert(task, row), task, Place::Backlog, cur.position);
    let fin = update(back, task, |x: TaskView| TaskView { waiting: cur.waiting && super::model::day_of(Place::Backlog) is None, closed_at: None, ..x });
    let m3 = run_spec(m2, e.1, now, today, dates)->Ok_0.0;
    assert(m3.tasks == fin);
    assert(fin =~= m.tasks) by {
        assert(fin[task] =~= cur);
    }
    if m.placements.contains_key(super::model::key_of(task, today)) {
        assert(drop is None);
    } else {
        assert(drop == Some(today));
        assert(m3.placements =~= m.placements);
    }
}


/// Undoing setting a task to repeat gives back every task and every
/// schedule as they were, where each task's schedule is one the model
/// holds and a task that does not repeat has no scheduled date: the new
/// schedule, which nothing else refers to, goes.
pub proof fn lemma_create_schedule_undone(
    m: ModelView,
    task: Id,
    rule: super::rule::RuleView,
    now: int,
    today: Date,
    dates: DateOrder,
)
    requires
        m.schedules.dom().finite(),
        super::command::ids_fit(m.schedules.dom()),
        forall|k: Id| #[trigger] m.tasks.contains_key(k) ==> match m.tasks[k].schedule_id {
            Some(s) => m.schedules.contains_key(s),
            None => m.tasks[k].scheduled_on is None,
        },
        m.tasks.contains_key(task),
        m.tasks[task].id == task,
        run_spec(m, CommandView::CreateSchedule { task, rule }, now, today, dates) is Ok,
    ensures
        run_spec(m, CommandView::CreateSchedule { task, rule }, now, today, dates) matches Ok((m2, Some(e))) && run_spec(
            m2,
            e.1,
            now,
            today,
            dates,
        ) matches Ok((m3, _)) && m3.tasks == m.tasks && m3.placements == m.placements && m3.schedules
            == m.schedules && m3.notes == m.notes,
{
    lemma_next_id_fresh(m.schedules.dom());
    let c = CommandView::CreateSchedule { task, rule };
    assert(run_spec(m, c, now, today, dates) == create_schedule_spec(m, task, rule, now, today));
    let cur = m.tasks[task];
    let sid = super::command::next_id_of(m.schedules.dom()) as Id;
    let m2 = run_spec(m, c, now, today, dates)->Ok_0.0;
    let e = run_spec(m, c, now, today, dates)->Ok_0.1->Some_0;
    assert(e.1 == CommandView::UncreateSchedule { task, schedule: sid });
    assert(run_spec(m2, e.1, now, today, dates) == super::command::uncreate_schedule_spec(m2, task, sid));
    let t1 = update(m2.tasks, task, |x: TaskView| TaskView { schedule_id: None, scheduled_on: None, ..x });
    assert(t1 =~= m.tasks) by {
        assert(t1[task] =~= cur);
    }
    assert(super::command::orphan(t1, sid)) by {
        assert forall|k: Id| #[trigger] t1.contains_key(k) implies t1[k].schedule_id != Some(sid) by {
            assert(m.tasks.contains_key(k));
        }
    }
    let m3 = run_spec(m2, e.1, now, today, dates)->Ok_0.0;
    assert(m3.schedules =~= m.schedules);
}


// ---- every command a user may ask for --------------------------------

/// A place holds its live tasks numbered `0..n` in their order.
pub open spec fn place_dense(tasks: Map<Id, TaskView>, place: Place) -> bool {
    &&& super::model::is_order(tasks, place, super::model::order_of(tasks, place))
    &&& forall|i: int|
        0 <= i < super::model::order_of(tasks, place).len() ==> tasks[#[trigger] super::model::order_of(tasks, place)[i]].position
            == i
}

/// Every place holds its live tasks numbered `0..n` in their order.
pub open spec fn places_dense(tasks: Map<Id, TaskView>) -> bool {
    forall|place: Place| #![trigger super::model::order_of(tasks, place)] place_dense(tasks, place)
}

/// Every place of a model holds its live tasks numbered `0..n` in their
/// order, with room for one more.
pub open spec fn places_numbered(m: ModelView) -> bool {
    &&& places_dense(m.tasks)
    &&& forall|place: Place| #[trigger] super::model::order_of(m.tasks, place).len() < usize::MAX
}

/// What the commands keep of a model: rows filed under their own ids,
/// tables with room for a new id, places numbered in their orders, a
/// task waiting only in the backlog, titles as a title is kept, a
/// schedule for every task that repeats and none of a date for one that
/// does not, and rules that come round.
pub open spec fn well_kept(m: ModelView) -> bool {
    &&& keyed(m)
    &&& m.tasks.dom().finite()
    &&& m.schedules.dom().finite()
    &&& m.notes.dom().finite()
    &&& super::command::ids_fit(m.tasks.dom())
    &&& super::command::ids_fit(m.schedules.dom())
    &&& super::command::ids_fit(m.notes.dom())
    &&& places_numbered(m)
    &&& forall|k: Id| #[trigger] m.tasks.contains_key(k) ==> {
        &&& (m.tasks[k].waiting ==> m.tasks[k].place() == Place::Backlog)
        &&& title_of(m.tasks[k].title) == Ok::<Seq<char>, Seq<char>>(m.tasks[k].title)
        &&& match m.tasks[k].schedule_id {
            Some(s) => m.schedules.contains_key(s),
            None => m.tasks[k].scheduled_on is None,
        }
    }
    &&& forall|k: Id| #[trigger] m.schedules.contains_key(k) ==> title_of(m.schedules[k].title) == Ok::<Seq<char>, Seq<char>>(
        m.schedules[k].title,
    ) && usable(m.schedules[k].rule)
}

/// Two models show the same: the same live tasks, the same placements of
/// live tasks, the same schedules and the same live notes.
pub open spec fn shows_same(a: ModelView, b: ModelView) -> bool {
    &&& live_rows(a.tasks) == live_rows(b.tasks)
    &&& live_placements(a.placements, a.tasks) == live_placements(b.placements, b.tasks)
    &&& a.schedules == b.schedules
    &&& live_notes(a.notes) == live_notes(b.notes)
}

/// Every command a user may ask for, where it earns an undo entry, is
/// taken back by that entry: the entry's inverse, run on what the command
/// left, gives back everything a well kept model shows, its live tasks,
/// the placements of live tasks, its schedules and its live notes.
#[verifier::spinoff_prover]
pub proof fn lemma_every_command_undone(m: ModelView, c: CommandView, now: int, today: Date, dates: DateOrder)
    requires
        well_kept(m),
        !super::command::inverse_kind(c),
        run_spec(m, c, now, today, dates) matches Ok((_, Some(_))),
    ensures
        run_spec(m, c, now, today, dates) matches Ok((m2, Some(e))) && run_spec(m2, e.1, now, today, dates) matches Ok((
            m3,
            _,
        )) && shows_same(m3, m),
{
    match c {
        CommandView::AddTask { title, place } => {
            let s = super::model::order_of(m.tasks, place);
            lemma_add_undone(m, title, place, s, now, today, dates);
        },
        CommandView::CreateNote => {
            lemma_new_note_undone(m, now, today, dates);
        },
        CommandView::Close { task } => {
            assert(run_spec(m, c, now, today, dates) == close_spec(m, task, now, today));
            let from = m.tasks[task].place();
            let s = super::model::order_of(m.tasks, from);
            if from == Place::Backlog {
                let u = super::model::order_of(m.tasks, Place::Day(today));
                lemma_backlog_close_undone(m, task, s, u, now, today, dates);
            } else {
                lemma_close_undone(m, task, s, now, today, dates);
            }
        },
        CommandView::Reopen { task } => {
            assert(run_spec(m, c, now, today, dates) == reopen_spec(m, task));
            let s = super::model::order_of(m.tasks, m.tasks[task].place());
            lemma_reopen_undone(m, task, s, now, today, dates);
        },
        CommandView::Move { task, place } => {
            assert(run_spec(m, c, now, today, dates) == move_spec(m, task, place, now, today, dates));
            let s = super::model::order_of(m.tasks, m.tasks[task].place());
            let u = super::model::order_of(m.tasks, place);
            lemma_move_undone(m, task, place, s, u, now, today, dates);
        },
        CommandView::Reorder { task, position } => {
            assert(run_spec(m, c, now, today, dates) == reorder_spec(m, task, position));
            let s = super::model::order_of(m.tasks, m.tasks[task].place());
            lemma_reorder_undone(m, task, position, s, now, today, dates);
        },
        CommandView::SetWaiting { task, waiting } => {
            assert(run_spec(m, c, now, today, dates) == set_waiting_spec(m, task, waiting));
            let s = super::model::order_of(m.tasks, m.tasks[task].place());
            let u = super::model::order_of(m.tasks, Place::Backlog);
            lemma_set_waiting_undone(m, task, waiting, s, u, now, today, dates);
        },
        CommandView::DeleteTask { task } => {
            assert(run_spec(m, c, now, today, dates) == delete_task_spec(m, task, now));
            let s = super::model::order_of(m.tasks, m.tasks[task].place());
            lemma_delete_undone(m, task, s, now, today, dates);
        },
        CommandView::CreateSchedule { task, rule } => {
            assert(run_spec(m, c, now, today, dates) == create_schedule_spec(m, task, rule, now, today));
            lemma_create_schedule_undone(m, task, rule, now, today, dates);
        },
        CommandView::EditNote { note, body } => {
            assert(run_spec(m, c, now, today, dates) == edit_note_spec(m, note, body, now));
        },
        CommandView::EditTitle { task, .. } | CommandView::EditTitleAndFuture { task, .. } | CommandView::SetFocus {
            task,
            ..
        } | CommandView::SetDue { task, .. } | CommandView::SetRemind { task, .. } => {
            lemma_field_edit_undone(m, c, now, today, dates);
        },
        _ => {
            lemma_field_edit_undone(m, c, now, today, dates);
        },
    }
}


// ---- every place stays numbered ----------------------------------------

/// A sequence that is a place's order and numbers it `0..n` makes the
/// place numbered.
proof fn lemma_dense_place(t: Map<Id, TaskView>, place: Place, s: Seq<Id>)
    requires
        super::model::is_order(t, place, s),
        forall|i: int| 0 <= i < s.len() ==> t[#[trigger] s[i]].position == i,
    ensures
        place_dense(t, place),
        super::model::order_of(t, place) == s,
{
    super::model::lemma_is_the_order(t, place, s);
}

/// A table whose rows of a place, before or after, are the same rows
/// keeps the place's order and its numbers.
proof fn lemma_untouched_place(t: Map<Id, TaskView>, t2: Map<Id, TaskView>, place: Place)
    requires
        place_dense(t, place),
        t2.dom() == t.dom(),
        forall|k: Id|
            #[trigger] t.contains_key(k) && (super::model::in_place(t[k], place) || super::model::in_place(t2[k], place))
                ==> t2[k] == t[k],
    ensures
        place_dense(t2, place),
{
    let s = super::model::order_of(t, place);
    assert forall|k: Id| #[trigger] s.contains(k) <==> (t2.contains_key(k) && super::model::in_place(t2[k], place)) by {
        assert(s.contains(k) <==> (t.contains_key(k) && super::model::in_place(t[k], place)));
    }
    assert forall|i: int| 0 <= i < s.len() implies t2[#[trigger] s[i]].position == i by {
        assert(s.contains(s[i]));
        assert(t[s[i]].position == i);
    }
    assert forall|i: int, j: int| 0 <= i < j < s.len() implies super::model::earlier(t2, #[trigger] s[i], #[trigger] s[j]) by {
        assert(s.contains(s[i]) && s.contains(s[j]));
        assert(super::model::earlier(t, s[i], s[j]));
    }
    lemma_dense_place(t2, place, s);
}

/// A row changed only in fields the order does not read keeps every
/// place numbered.
proof fn lemma_row_kept_dense(t: Map<Id, TaskView>, id: Id, row: TaskView)
    requires
        places_dense(t),
        t.contains_key(id),
        row.position == t[id].position,
        row.id == t[id].id,
        row.live() == t[id].live(),
        row.place() == t[id].place(),
    ensures
        places_dense(t.insert(id, row)),
{
    let t2 = t.insert(id, row);
    assert forall|place: Place| #[trigger] place_dense(t2, place) by {
        let s = super::model::order_of(t, place);
        assert(place_dense(t, place));
        lemma_order_kept(t, id, row, place, s);
        assert forall|i: int| 0 <= i < s.len() implies t2[#[trigger] s[i]].position == i by {
            assert(t[s[i]].position == i);
        }
        lemma_dense_place(t2, place, s);
    }
}

/// A task sent to the end of another place keeps every place numbered.
proof fn lemma_sent_away_dense(tasks: Map<Id, TaskView>, id: Id, to: Place)
    requires
        places_dense(tasks),
        tasks.contains_key(id),
        tasks[id].live(),
        tasks[id].place() != to,
        super::model::order_of(tasks, to).len() < usize::MAX,
    ensures
        places_dense(super::command::put_in_place_spec(tasks, id, to, super::model::order_of(tasks, to).len() as usize)),
{
    let from = tasks[id].place();
    let s = super::model::order_of(tasks, from);
    let u = super::model::order_of(tasks, to);
    assert(place_dense(tasks, from));
    assert(place_dense(tasks, to));
    let p = lemma_index_is_position(tasks, from, s, id);
    let t = lemma_sent_away(tasks, id, to, s, u);
    assert(s.remove(p).len() == s.len() - 1);
    assert forall|place: Place| #[trigger] place_dense(t, place) by {
        if place == from {
            lemma_dense_place(t, from, s.remove(tasks[id].position as int));
        } else if place == to {
            lemma_dense_place(t, to, u.insert(u.len() as int, id));
        } else {
            assert(place_dense(tasks, place));
            assert forall|k: Id|
                #[trigger] tasks.contains_key(k) && (super::model::in_place(tasks[k], place) || super::model::in_place(t[k], place))
                    implies t[k] == tasks[k] by {
                if k != id {
                    assert(t.contains_key(k));
                }
            }
            lemma_untouched_place(tasks, t, place);
        }
    }
}


/// A task put at a position within its own place keeps every place
/// numbered.
proof fn lemma_set_position_dense(t: Map<Id, TaskView>, id: Id, position: usize)
    requires
        places_dense(t),
        t.contains_key(id),
        t[id].live(),
    ensures
        places_dense(set_position_spec(t, id, position)),
{
    let place = t[id].place();
    let order = super::model::order_of(t, place);
    assert(place_dense(t, place));
    let p = lemma_index_is_position(t, place, order, id);
    let rest = order.remove(p);
    lemma_remove_keeps(order, p);
    let at = if (position as int) < rest.len() { position as int } else { rest.len() as int };
    let q = rest.insert(at, id);
    lemma_insert_keeps(rest, at, id);
    let r = renumbered(t, q);
    assert(set_position_spec(t, id, position) == r);
    lemma_numbered_rows(t, q, q.len());
    assert(q.subrange(0, q.len() as int) =~= q);
    assert forall|k: Id| #[trigger] q.contains(k) <==> (r.contains_key(k) && super::model::in_place(r[k], place)) by {
        assert(order.contains(k) <==> (t.contains_key(k) && super::model::in_place(t[k], place)));
        if q.contains(k) {
            let j = choose|j: int| 0 <= j < q.len() && q[j] == k;
            assert(r[q[j]] == super::command::with_position(t[q[j]], j as usize));
        } else if t.contains_key(k) {
            assert(r[k] == t[k]);
        }
    }
    assert forall|j: int| 0 <= j < q.len() implies r[#[trigger] q[j]].position == j by {
        assert(q.contains(q[j]));
        assert(r[q[j]] == super::command::with_position(t[q[j]], j as usize));
    }
    assert forall|other: Place| #[trigger] place_dense(r, other) by {
        if other == place {
            lemma_dense_is_order(r, place, q);
            lemma_dense_place(r, place, q);
        } else {
            assert(place_dense(t, other));
            assert forall|k: Id|
                #[trigger] t.contains_key(k) && (super::model::in_place(t[k], other) || super::model::in_place(r[k], other))
                    implies r[k] == t[k] by {
                if q.contains(k) {
                    let j = choose|j: int| 0 <= j < q.len() && q[j] == k;
                    assert(r[q[j]] == super::command::with_position(t[q[j]], j as usize));
                    assert(order.contains(k));
                }
            }
            lemma_untouched_place(t, r, other);
        }
    }
}

/// A task deleted, its place closing up behind it, keeps every place
/// numbered.
proof fn lemma_delete_dense(t: Map<Id, TaskView>, id: Id, gone: TaskView)
    requires
        places_dense(t),
        t.contains_key(id),
        t[id].live(),
        !gone.live(),
    ensures
        places_dense(renumbered(t.insert(id, gone), super::model::order_of(t.insert(id, gone), t[id].place()))),
{
    let place = t[id].place();
    let s = super::model::order_of(t, place);
    assert(place_dense(t, place));
    let p = lemma_index_is_position(t, place, s, id);
    let t1 = t.insert(id, gone);
    lemma_order_without(t, place, s, id, gone, p);
    let rest = s.remove(p);
    lemma_remove_keeps(s, p);
    super::model::lemma_is_the_order(t1, place, rest);
    let r = renumbered(t1, rest);
    lemma_numbered_rows(t1, rest, rest.len());
    assert(rest.subrange(0, rest.len() as int) =~= rest);
    assert(r.dom() =~= t.dom());
    assert forall|k: Id| #[trigger] rest.contains(k) <==> (r.contains_key(k) && super::model::in_place(r[k], place)) by {
        assert(rest.contains(k) <==> (t1.contains_key(k) && super::model::in_place(t1[k], place)));
        if rest.contains(k) {
            let j = choose|j: int| 0 <= j < rest.len() && rest[j] == k;
            assert(r[rest[j]] == super::command::with_position(t1[rest[j]], j as usize));
        } else if t1.contains_key(k) {
            assert(r[k] == t1[k]);
        }
    }
    assert forall|j: int| 0 <= j < rest.len() implies r[#[trigger] rest[j]].position == j by {
        assert(rest.contains(rest[j]));
        assert(r[rest[j]] == super::command::with_position(t1[rest[j]], j as usize));
    }
    assert forall|other: Place| #[trigger] place_dense(r, other) by {
        if other == place {
            lemma_dense_is_order(r, place, rest);
            lemma_dense_place(r, place, rest);
        } else {
            assert(place_dense(t, other));
            assert forall|k: Id|
                #[trigger] t.contains_key(k) && (super::model::in_place(t[k], other) || super::model::in_place(r[k], other))
                    implies r[k] == t[k] by {
                if rest.contains(k) {
                    let j = choose|j: int| 0 <= j < rest.len() && rest[j] == k;
                    assert(r[rest[j]] == super::command::with_position(t1[rest[j]], j as usize));
                    assert(s.contains(k));
                } else if k != id {
                    assert(r[k] == t1[k]);
                }
            }
            lemma_untouched_place(t, r, other);
        }
    }
}

/// A new live row at the end of its place, under an id the table does
/// not have, keeps every place numbered.
proof fn lemma_add_dense(t: Map<Id, TaskView>, id: Id, row: TaskView)
    requires
        places_dense(t),
        !t.contains_key(id),
        row.id == id,
        row.live(),
        row.position == super::model::order_of(t, row.place()).len(),
    ensures
        places_dense(t.insert(id, row)),
{
    let t2 = t.insert(id, row);
    let place = row.place();
    let u = super::model::order_of(t, place);
    assert(place_dense(t, place));
    assert(!u.contains(id));
    let w = u.insert(u.len() as int, id);
    lemma_insert_keeps(u, u.len() as int, id);
    assert forall|k: Id| #[trigger] w.contains(k) <==> (t2.contains_key(k) && super::model::in_place(t2[k], place)) by {
        assert(u.contains(k) <==> (t.contains_key(k) && super::model::in_place(t[k], place)));
    }
    assert forall|j: int| 0 <= j < w.len() implies t2[#[trigger] w[j]].position == j by {
        if j < u.len() {
            assert(u.contains(u[j]));
            assert(t[u[j]].position == j);
        }
    }
    assert forall|other: Place| #[trigger] place_dense(t2, other) by {
        if other == place {
            lemma_dense_is_order(t2, place, w);
            lemma_dense_place(t2, place, w);
        } else {
            assert(place_dense(t, other));
            assert(t2.dom() =~= t.dom().insert(id));
            let s = super::model::order_of(t, other);
            assert forall|k: Id| #[trigger] s.contains(k) <==> (t2.contains_key(k) && super::model::in_place(t2[k], other)) by {
                assert(s.contains(k) <==> (t.contains_key(k) && super::model::in_place(t[k], other)));
            }
            assert forall|i: int| 0 <= i < s.len() implies t2[#[trigger] s[i]].position == i by {
                assert(s.contains(s[i]));
                assert(t[s[i]].position == i);
            }
            lemma_dense_is_order(t2, other, s);
            lemma_dense_place(t2, other, s);
        }
    }
}


/// A task sent to the end of another place and then changed in fields
/// the order does not read keeps every place numbered.
proof fn lemma_sent_away_then_kept(tasks: Map<Id, TaskView>, id: Id, to: Place, row: TaskView)
    requires
        places_dense(tasks),
        tasks.contains_key(id),
        tasks[id].live(),
        tasks[id].place() != to,
        super::model::order_of(tasks, to).len() < usize::MAX,
        row.id == tasks[id].id,
        row.live(),
        row.day == super::model::day_of(to),
        row.position == super::model::order_of(tasks, to).len(),
    ensures
        places_dense(super::command::put_in_place_spec(tasks, id, to, super::model::order_of(tasks, to).len() as usize).insert(id, row)),
{
    let from = tasks[id].place();
    let s = super::model::order_of(tasks, from);
    let u = super::model::order_of(tasks, to);
    assert(place_dense(tasks, from));
    assert(place_dense(tasks, to));
    let t = lemma_sent_away(tasks, id, to, s, u);
    lemma_sent_away_dense(tasks, id, to);
    lemma_row_kept_dense(t, id, row);
}

/// Every command a user may ask for keeps every place of a well kept
/// model numbered `0..n` in its order: positions stay one dense sequence
/// per place.
#[verifier::spinoff_prover]
#[verifier::rlimit(80)]
pub proof fn lemma_every_command_keeps_places_numbered(m: ModelView, c: CommandView, now: int, today: Date, dates: DateOrder)
    requires
        well_kept(m),
        !super::command::inverse_kind(c),
        run_spec(m, c, now, today, dates) is Ok,
    ensures
        run_spec(m, c, now, today, dates) matches Ok((m2, _)) && places_dense(m2.tasks),
{
    let m2 = run_spec(m, c, now, today, dates)->Ok_0.0;
    match c {
        CommandView::AddTask { title, place } => {
            assert(run_spec(m, c, now, today, dates) == add_task_spec(m, title, place, now));
            lemma_next_id_fresh(m.tasks.dom());
            let id = super::command::next_id_of(m.tasks.dom()) as Id;
            assert(super::model::place_of(super::model::day_of(place)) == place) by {
                match place {
                    Place::Backlog => {},
                    Place::Day(d) => {},
                }
            }
            assert(m2.tasks == m.tasks.insert(id, m2.tasks[id]));
            lemma_add_dense(m.tasks, id, m2.tasks[id]);
        },
        CommandView::Close { task } => {
            assert(run_spec(m, c, now, today, dates) == close_spec(m, task, now, today));
            let cur = m.tasks[task];
            if cur.place() == Place::Backlog {
                let to = Place::Day(today);
                let t1 = super::command::put_in_place_spec(m.tasks, task, to, super::model::order_of(m.tasks, to).len() as usize);
                let s = super::model::order_of(m.tasks, Place::Backlog);
                let u = super::model::order_of(m.tasks, to);
                assert(place_dense(m.tasks, Place::Backlog));
                assert(place_dense(m.tasks, to));
                lemma_sent_away(m.tasks, task, to, s, u);
                let row = TaskView { waiting: false, closed_at: Some(now), ..t1[task] };
                assert(m2.tasks =~= t1.insert(task, row));
                lemma_sent_away_then_kept(m.tasks, task, to, row);
            } else {
                lemma_row_kept_dense(m.tasks, task, m2.tasks[task]);
                assert(m2.tasks =~= m.tasks.insert(task, m2.tasks[task]));
            }
        },
        CommandView::Reopen { task } => {
            assert(run_spec(m, c, now, today, dates) == reopen_spec(m, task));
            let row = TaskView { closed_at: None, ..m.tasks[task] };
            lemma_row_kept_dense(m.tasks, task, row);
            lemma_set_position_dense(m.tasks.insert(task, row), task, usize::MAX);
            assert(update(m.tasks, task, |x: TaskView| TaskView { closed_at: None, ..x }) =~= m.tasks.insert(task, row));
        },
        CommandView::Move { task, place } => {
            assert(run_spec(m, c, now, today, dates) == move_spec(m, task, place, now, today, dates));
            let t1 = super::command::put_in_place_spec(m.tasks, task, place, super::model::order_of(m.tasks, place).len() as usize);
            let s = super::model::order_of(m.tasks, m.tasks[task].place());
            let u = super::model::order_of(m.tasks, place);
            assert(place_dense(m.tasks, m.tasks[task].place()));
            assert(place_dense(m.tasks, place));
            lemma_sent_away(m.tasks, task, place, s, u);
            let row = TaskView { waiting: false, ..t1[task] };
            assert(m2.tasks =~= t1.insert(task, row));
            lemma_sent_away_then_kept(m.tasks, task, place, row);
        },
        CommandView::Reorder { task, position } => {
            assert(run_spec(m, c, now, today, dates) == reorder_spec(m, task, position));
            lemma_set_position_dense(m.tasks, task, position);
        },
        CommandView::SetWaiting { task, waiting } => {
            assert(run_spec(m, c, now, today, dates) == set_waiting_spec(m, task, waiting));
            let cur = m.tasks[task];
            if waiting && cur.place() != Place::Backlog {
                let to = Place::Backlog;
                let t1 = super::command::put_in_place_spec(m.tasks, task, to, super::model::order_of(m.tasks, to).len() as usize);
                let s = super::model::order_of(m.tasks, cur.place());
                let u = super::model::order_of(m.tasks, to);
                assert(place_dense(m.tasks, cur.place()));
                assert(place_dense(m.tasks, to));
                lemma_sent_away(m.tasks, task, to, s, u);
                let row = TaskView { waiting: true, ..t1[task] };
                assert(m2.tasks =~= t1.insert(task, row));
                lemma_sent_away_then_kept(m.tasks, task, to, row);
            } else {
                lemma_row_kept_dense(m.tasks, task, m2.tasks[task]);
                assert(m2.tasks =~= m.tasks.insert(task, m2.tasks[task]));
            }
        },
        CommandView::DeleteTask { task } => {
            assert(run_spec(m, c, now, today, dates) == delete_task_spec(m, task, now));
            let gone = TaskView { deleted_at: Some(now), ..m.tasks[task] };
            assert(update(m.tasks, task, |x: TaskView| TaskView { deleted_at: Some(now), ..x }) =~= m.tasks.insert(task, gone));
            lemma_delete_dense(m.tasks, task, gone);
        },
        CommandView::EditTitle { task, title } => {
            assert(run_spec(m, c, now, today, dates) == edit_title_spec(m, task, title));
            lemma_row_kept_dense(m.tasks, task, m2.tasks[task]);
            assert(m2.tasks =~= m.tasks.insert(task, m2.tasks[task]));
        },
        CommandView::EditTitleAndFuture { task, title, schedule_title } => {
            assert(run_spec(m, c, now, today, dates) == edit_title_and_future_spec(m, task, title, schedule_title));
            lemma_row_kept_dense(m.tasks, task, m2.tasks[task]);
            assert(m2.tasks =~= m.tasks.insert(task, m2.tasks[task]));
        },
        CommandView::SetFocus { task, focus } => {
            assert(run_spec(m, c, now, today, dates) == set_focus_spec(m, task, focus));
            lemma_row_kept_dense(m.tasks, task, m2.tasks[task]);
            assert(m2.tasks =~= m.tasks.insert(task, m2.tasks[task]));
        },
        CommandView::SetDue { task, date } => {
            assert(run_spec(m, c, now, today, dates) == set_due_spec(m, task, date));
            lemma_row_kept_dense(m.tasks, task, m2.tasks[task]);
            assert(m2.tasks =~= m.tasks.insert(task, m2.tasks[task]));
        },
        CommandView::SetRemind { task, date } => {
            assert(run_spec(m, c, now, today, dates) == set_remind_spec(m, task, date));
            lemma_row_kept_dense(m.tasks, task, m2.tasks[task]);
            assert(m2.tasks =~= m.tasks.insert(task, m2.tasks[task]));
        },
        CommandView::CreateSchedule { task, rule } => {
            assert(run_spec(m, c, now, today, dates) == create_schedule_spec(m, task, rule, now, today));
            lemma_row_kept_dense(m.tasks, task, m2.tasks[task]);
            assert(m2.tasks =~= m.tasks.insert(task, m2.tasks[task]));
        },
        _ => {
            assert(m2.tasks == m.tasks);
        },
    }
}


// ---- undoing a whole operation -----------------------------------------

/// What no command writes: the undo stack, meta, settings and dictionary.
pub open spec fn same_rest(a: ModelView, b: ModelView) -> bool {
    &&& a.undo == b.undo
    &&& a.meta == b.meta
    &&& a.settings == b.settings
    &&& a.dictionary == b.dictionary
}

/// A command other than a run of several leaves the rest of the model as
/// it was; a user command's undo entry is never such a run.
proof fn lemma_command_keeps_rest(m: ModelView, c: CommandView, now: int, today: Date, dates: DateOrder)
    requires
        !(c is Sequence),
    ensures
        run_spec(m, c, now, today, dates) matches Ok((m2, _)) ==> same_rest(m, m2),
        !super::command::inverse_kind(c) ==> (run_spec(m, c, now, today, dates) matches Ok((_, Some(e))) ==> !(e.1 is Sequence)),
{
    match c {
        CommandView::AddTask { title, place } => {
            assert(run_spec(m, c, now, today, dates) == add_task_spec(m, title, place, now));
        },
        CommandView::EditTitle { task, title } => {},
        CommandView::EditTitleAndFuture { task, title, schedule_title } => {},
        CommandView::Close { task } => {},
        CommandView::Reopen { task } => {},
        CommandView::SetFocus { task, focus } => {},
        CommandView::Move { task, place } => {
            assert(run_spec(m, c, now, today, dates) == move_spec(m, task, place, now, today, dates));
        },
        CommandView::Reorder { task, position } => {},
        CommandView::SetWaiting { task, waiting } => {},
        CommandView::SetDue { task, date } => {},
        CommandView::SetRemind { task, date } => {},
        CommandView::DeleteTask { task } => {},
        CommandView::CreateSchedule { task, rule } => {},
        CommandView::SetRule { schedule, rule } => {},
        CommandView::StopSchedule { schedule } => {},
        CommandView::EditScheduleTitle { schedule, title } => {},
        CommandView::CreateNote => {},
        CommandView::EditNote { note, body } => {},
        CommandView::ReplaceNote { note, body } => {},
        CommandView::DeleteNote { note } => {},
        CommandView::MoveBack { task, place, position, waiting, drop_placement } => {},
        CommandView::CloseAt { task, closed_at, position } => {},
        CommandView::RestoreTask { task, position } => {},
        CommandView::UncreateSchedule { task, schedule } => {},
        CommandView::ResumeSchedule { schedule } => {},
        CommandView::RestoreNote { note } => {},
        CommandView::RestoreNoteBody { note, body, updated_at } => {},
        CommandView::Sequence(cs) => {},
    }
}

/// A user command that earns an entry and makes no new row is taken back
/// whole by the entry: the inverse, run on what the command left, gives
/// back the very model it started from.
pub proof fn lemma_command_undone_exactly(m: ModelView, c: CommandView, now: int, today: Date, dates: DateOrder)
    requires
        well_kept(m),
        !super::command::inverse_kind(c),
        !(c is AddTask),
        !(c is CreateNote),
        run_spec(m, c, now, today, dates) matches Ok((_, Some(_))),
    ensures
        run_spec(m, c, now, today, dates) matches Ok((m2, Some(e))) && run_spec(m2, e.1, now, today, dates) matches Ok((
            m3,
            _,
        )) && m3 == m,
{
    lemma_every_command_undone(m, c, now, today, dates);
    lemma_command_keeps_rest(m, c, now, today, dates);
    let m2 = run_spec(m, c, now, today, dates)->Ok_0.0;
    let e = run_spec(m, c, now, today, dates)->Ok_0.1->Some_0;
    lemma_command_keeps_rest(m2, e.1, now, today, dates);
    let m3 = run_spec(m2, e.1, now, today, dates)->Ok_0.0;
    assert(m3.tasks == m.tasks && m3.placements == m.placements && m3.schedules == m.schedules && m3.notes == m.notes) by {
        match c {
            CommandView::Close { task } => {
                assert(run_spec(m, c, now, today, dates) == close_spec(m, task, now, today));
                let from = m.tasks[task].place();
                let s = super::model::order_of(m.tasks, from);
                if from == Place::Backlog {
                    lemma_backlog_close_undone(m, task, s, super::model::order_of(m.tasks, Place::Day(today)), now, today, dates);
                } else {
                    lemma_close_undone(m, task, s, now, today, dates);
                }
            },
            CommandView::Reopen { task } => {
                assert(run_spec(m, c, now, today, dates) == reopen_spec(m, task));
                lemma_reopen_undone(m, task, super::model::order_of(m.tasks, m.tasks[task].place()), now, today, dates);
            },
            CommandView::Move { task, place } => {
                assert(run_spec(m, c, now, today, dates) == move_spec(m, task, place, now, today, dates));
                lemma_move_undone(
                    m,
                    task,
                    place,
                    super::model::order_of(m.tasks, m.tasks[task].place()),
                    super::model::order_of(m.tasks, place),
                    now,
                    today,
                    dates,
                );
            },
            CommandView::Reorder { task, position } => {
                assert(run_spec(m, c, now, today, dates) == reorder_spec(m, task, position));
                lemma_reorder_undone(m, task, position, super::model::order_of(m.tasks, m.tasks[task].place()), now, today, dates);
            },
            CommandView::SetWaiting { task, waiting } => {
                assert(run_spec(m, c, now, today, dates) == set_waiting_spec(m, task, waiting));
                lemma_set_waiting_undone(
                    m,
                    task,
                    waiting,
                    super::model::order_of(m.tasks, m.tasks[task].place()),
                    super::model::order_of(m.tasks, Place::Backlog),
                    now,
                    today,
                    dates,
                );
            },
            CommandView::DeleteTask { task } => {
                assert(run_spec(m, c, now, today, dates) == delete_task_spec(m, task, now));
                lemma_delete_undone(m, task, super::model::order_of(m.tasks, m.tasks[task].place()), now, today, dates);
            },
            CommandView::CreateSchedule { task, rule } => {
                assert(run_spec(m, c, now, today, dates) == create_schedule_spec(m, task, rule, now, today));
                lemma_create_schedule_undone(m, task, rule, now, today, dates);
            },
            CommandView::EditNote { note, body } => {
                assert(run_spec(m, c, now, today, dates) == edit_note_spec(m, note, body, now));
            },
            _ => {
                lemma_field_edit_undone(m, c, now, today, dates);
            },
        }
    }
    assert(m3 == m);
}

/// Running the commands of two runs, one after the other, is running the
/// first and then the second on what it left.
proof fn lemma_run_all_concat(m: ModelView, a: Seq<CommandView>, b: Seq<CommandView>, now: int, today: Date, dates: DateOrder)
    ensures
        run_all(m, a + b, now, today, dates) == match run_all(m, a, now, today, dates) {
            Ok(m1) => run_all(m1, b, now, today, dates),
            Err(e) => Err(e),
        },
    decreases a.len(),
{
    if a.len() == 0 {
        assert(a + b =~= b);
    } else {
        assert((a + b)[0] == a[0]);
        assert((a + b).subrange(1, (a + b).len() as int) =~= a.subrange(1, a.len() as int) + b);
        match run_spec(m, a[0], now, today, dates) {
            Ok((m1, _)) => {
                lemma_run_all_concat(m1, a.subrange(1, a.len() as int), b, now, today, dates);
            },
            Err(_) => {},
        }
    }
}

/// The models an operation passes through are each well kept, and each
/// of its commands earns an entry without making a new row.
pub open spec fn undoable_run(m: ModelView, cs: Seq<CommandView>, now: int, today: Date, dates: DateOrder) -> bool
    decreases cs.len(),
{
    cs.len() == 0 || (well_kept(m) && !(cs[0] is AddTask) && !(cs[0] is CreateNote) && match run_outcome(m, cs[0], now, today, dates) {
        Ok((m1, e)) => e is Some && undoable_run(m1, cs.subrange(1, cs.len() as int), now, today, dates),
        Err(_) => true,
    })
}

/// What a command does, by the name the operations reason with.
proof fn lemma_outcome_is_run(m: ModelView, c: CommandView, now: int, today: Date, dates: DateOrder)
    ensures
        run_outcome(m, c, now, today, dates) == run_spec(m, c, now, today, dates),
{
    reveal(run_outcome);
}

/// A run of one command is that command.
proof fn lemma_run_one(m: ModelView, c: CommandView, now: int, today: Date, dates: DateOrder)
    ensures
        run_all(m, seq![c], now, today, dates) == match run_spec(m, c, now, today, dates) {
            Ok((m1, _)) => Ok::<ModelView, Seq<char>>(m1),
            Err(e) => Err(e),
        },
{
    let one = seq![c];
    assert(one[0] == c);
    assert(one.subrange(1, 1) =~= Seq::<CommandView>::empty());
    match run_spec(m, c, now, today, dates) {
        Ok((m1, _)) => {
            assert(run_all(m1, Seq::<CommandView>::empty(), now, today, dates) == Ok::<ModelView, Seq<char>>(m1));
        },
        Err(_) => {},
    }
}

/// The first step of an operation that holds: what its first command
/// did, and the rest of the operation from there.
proof fn lemma_many_run_step(m: ModelView, cs: Seq<CommandView>, now: int, today: Date, dates: DateOrder)
    requires
        cs.len() > 0,
        undoable_run(m, cs, now, today, dates),
        many_run(m, cs, now, today, dates) is Ok,
    ensures
        run_outcome(m, cs[0], now, today, dates) is Ok,
        run_outcome(m, cs[0], now, today, dates)->Ok_0.1 is Some,
        undoable_run(run_outcome(m, cs[0], now, today, dates)->Ok_0.0, cs.subrange(1, cs.len() as int), now, today, dates),
        many_run(run_outcome(m, cs[0], now, today, dates)->Ok_0.0, cs.subrange(1, cs.len() as int), now, today, dates) is Ok,
        many_run(m, cs, now, today, dates) == Ok::<(ModelView, Seq<(Seq<char>, CommandView)>), Seq<char>>((
            many_run(run_outcome(m, cs[0], now, today, dates)->Ok_0.0, cs.subrange(1, cs.len() as int), now, today, dates)->Ok_0.0,
            seq![run_outcome(m, cs[0], now, today, dates)->Ok_0.1->Some_0] + many_run(
                run_outcome(m, cs[0], now, today, dates)->Ok_0.0,
                cs.subrange(1, cs.len() as int),
                now,
                today,
                dates,
            )->Ok_0.1,
        )),
        well_kept(m),
        !super::command::inverse_kind(cs[0]),
        !(cs[0] is AddTask),
        !(cs[0] is CreateNote),
{
}

/// The inverses an operation earned, run in the order they undo on what
/// it left, give back the model it started from.
#[verifier::spinoff_prover]
proof fn lemma_inverses_undo(m: ModelView, cs: Seq<CommandView>, now: int, today: Date, dates: DateOrder)
    requires
        undoable_run(m, cs, now, today, dates),
        many_run(m, cs, now, today, dates) is Ok,
    ensures
        many_run(m, cs, now, today, dates) matches Ok((mk, es)) && (run_all(
            mk,
            super::command::reversed_inverses(es),
            now,
            today,
            dates,
        ) == Ok::<ModelView, Seq<char>>(m)),
    decreases cs.len(),
{
    if cs.len() == 0 {
        assert(super::command::reversed_inverses(Seq::<(Seq<char>, CommandView)>::empty()) =~= Seq::<CommandView>::empty());
    } else {
        let c = cs[0];
        let rest = cs.subrange(1, cs.len() as int);
        lemma_many_run_step(m, cs, now, today, dates);
        let m1 = run_outcome(m, c, now, today, dates)->Ok_0.0;
        let x = run_outcome(m, c, now, today, dates)->Ok_0.1->Some_0;
        lemma_inverses_undo(m1, rest, now, today, dates);
        let mk = many_run(m1, rest, now, today, dates)->Ok_0.0;
        let es2 = many_run(m1, rest, now, today, dates)->Ok_0.1;
        let es = seq![x] + es2;
        assert(super::command::reversed_inverses(es) =~= super::command::reversed_inverses(es2) + seq![x.1]);
        lemma_run_all_concat(mk, super::command::reversed_inverses(es2), seq![x.1], now, today, dates);
        assert(run_spec(m1, x.1, now, today, dates) matches Ok((m3, _)) && (m3 == m)) by {
            lemma_outcome_is_run(m, c, now, today, dates);
            lemma_command_undone_exactly(m, c, now, today, dates);
        }
        lemma_run_one(m1, x.1, now, today, dates);
    }
}

/// Undoing a whole operation gives back the model it started from: the
/// one entry the operation earns, its inverses run in the order that
/// takes it back, leaves the model as it was, where the models the
/// operation passes through are well kept and each of its commands earns
/// an entry without making a new row.
#[verifier::spinoff_prover]
pub proof fn lemma_operation_undone(m: ModelView, cs: Seq<CommandView>, now: int, today: Date, dates: DateOrder)
    requires
        undoable_run(m, cs, now, today, dates),
        cs.len() > 0,
        many_run(m, cs, now, today, dates) is Ok,
    ensures
        many_run(m, cs, now, today, dates) matches Ok((mk, es)) && super::command::one_entry_of(es) matches Some(e)
            && run_spec(mk, e.1, now, today, dates) matches Ok((m3, _)) && (m3 == m),
{
    lemma_inverses_undo(m, cs, now, today, dates);
    lemma_many_run_step(m, cs, now, today, dates);
    let mk = many_run(m, cs, now, today, dates)->Ok_0.0;
    let es = many_run(m, cs, now, today, dates)->Ok_0.1;
    assert(es.len() > 0);
    let rev = super::command::reversed_inverses(es);
    if es.len() == 1 {
        assert(rev =~= seq![es[0].1]);
        lemma_run_one(mk, es[0].1, now, today, dates);
    } else {
        assert(super::command::one_entry_of(es)->Some_0.1 == CommandView::Sequence(rev));
    }
}

} // verus!
