//! Every change to the model is one command.
//!
//! A command is checked against the model, applied to a copy of it, and
//! the difference is the change storage commits. The commands at the end
//! of the enum are only ever produced as the inverse of another one; they
//! push nothing on the undo stack, because undo pushes nothing.

use vstd::prelude::*;

use std::collections::BTreeMap;
use vstd::std_specs::iter::IteratorSpec;

use super::model::{
    apply_writes, diff, diff_effect, rows_ok, writes_view, Change, UndoEntry, Write, WriteView,
    copy_string, day_of, key_of, notes_view, order_in, order_of, placement_key, placements_view,
    schedules_view, tasks_view, EntryView, FromPlace, Id, Model, ModelView, Note, NoteView, Place,
    Placement, PlacementView, Schedule, ScheduleView, Task, TaskView,
};
use super::rule::{usable, Rule, RuleView};
use super::settings::{working_day_of, DateOrder};
use super::time::{day_label, day_label_of, Date, Stamp};
use super::Rejected;
use crate::text::{append_all, append_str, chars_of, find_char, string_of, trim, trimmed, white, is_white};

verus! {

/// One change to the model, carrying ids and never cursor positions.
#[derive(Debug)]
pub enum Command {
    AddTask { title: String, place: Place },
    EditTitle { task: Id, title: String },
    /// "This and future copies": the task and its schedule. A user gives
    /// the same title twice; only the inverse has two of its own.
    EditTitleAndFuture { task: Id, title: String, schedule_title: String },
    Close { task: Id },
    Reopen { task: Id },
    SetFocus { task: Id, focus: bool },
    Move { task: Id, place: Place },
    Reorder { task: Id, position: usize },
    SetWaiting { task: Id, waiting: bool },
    SetDue { task: Id, date: Option<Date> },
    SetRemind { task: Id, date: Option<Date> },
    DeleteTask { task: Id },
    CreateSchedule { task: Id, rule: Rule },
    SetRule { schedule: Id, rule: Rule },
    StopSchedule { schedule: Id },
    /// The title future copies are made with, changed on the schedule
    /// alone, so a repeat whose copies have all been deleted can still be
    /// renamed.
    EditScheduleTitle { schedule: Id, title: String },
    CreateNote,
    /// A note body as it is typed. Not undoable, because a body between
    /// keystrokes is not a decision anybody made.
    EditNote { note: Id, body: String },
    /// A note body given whole, in one act, which can be taken back.
    ReplaceNote { note: Id, body: String },
    DeleteNote { note: Id },
    // The inverses, which say more than a user ever does.
    /// The inverse of Move, of Close, and of the move inside SetWaiting:
    /// the task goes back to the place and position it had, open again,
    /// with its old waiting flag, and the placement row the command wrote
    /// is dropped.
    MoveBack {
        task: Id,
        place: Place,
        position: usize,
        waiting: bool,
        drop_placement: Option<Date>,
    },
    /// The inverse of Reopen.
    CloseAt { task: Id, closed_at: Stamp, position: usize },
    /// The inverse of DeleteTask.
    RestoreTask { task: Id, position: usize },
    /// The inverse of CreateSchedule.
    UncreateSchedule { task: Id, schedule: Id },
    /// The inverse of StopSchedule.
    ResumeSchedule { schedule: Id },
    /// The inverse of DeleteNote.
    RestoreNote { note: Id },
    /// The inverse of ReplaceNote: the body the note had, and the instant
    /// it was last changed before the replacement.
    RestoreNoteBody { note: Id, body: String, updated_at: Stamp },
    /// The inverse of one operation made of several commands: the
    /// inverses of those commands in the order they undo.
    Sequence(Vec<Command>),
}

/// A command as the contracts speak of it.
pub enum CommandView {
    AddTask { title: Seq<char>, place: Place },
    EditTitle { task: Id, title: Seq<char> },
    EditTitleAndFuture { task: Id, title: Seq<char>, schedule_title: Seq<char> },
    Close { task: Id },
    Reopen { task: Id },
    SetFocus { task: Id, focus: bool },
    Move { task: Id, place: Place },
    Reorder { task: Id, position: usize },
    SetWaiting { task: Id, waiting: bool },
    SetDue { task: Id, date: Option<Date> },
    SetRemind { task: Id, date: Option<Date> },
    DeleteTask { task: Id },
    CreateSchedule { task: Id, rule: RuleView },
    SetRule { schedule: Id, rule: RuleView },
    StopSchedule { schedule: Id },
    EditScheduleTitle { schedule: Id, title: Seq<char> },
    CreateNote,
    EditNote { note: Id, body: Seq<char> },
    ReplaceNote { note: Id, body: Seq<char> },
    DeleteNote { note: Id },
    MoveBack {
        task: Id,
        place: Place,
        position: usize,
        waiting: bool,
        drop_placement: Option<Date>,
    },
    CloseAt { task: Id, closed_at: int, position: usize },
    RestoreTask { task: Id, position: usize },
    UncreateSchedule { task: Id, schedule: Id },
    ResumeSchedule { schedule: Id },
    RestoreNote { note: Id },
    RestoreNoteBody { note: Id, body: Seq<char>, updated_at: int },
    Sequence(Seq<CommandView>),
}

impl Command {
    pub open spec fn view_of(self) -> CommandView
        decreases self,
    {
        match self {
            Command::AddTask { title, place } => CommandView::AddTask { title: title@, place },
            Command::EditTitle { task, title } => CommandView::EditTitle { task, title: title@ },
            Command::EditTitleAndFuture { task, title, schedule_title } =>
                CommandView::EditTitleAndFuture { task, title: title@, schedule_title: schedule_title@ },
            Command::Close { task } => CommandView::Close { task },
            Command::Reopen { task } => CommandView::Reopen { task },
            Command::SetFocus { task, focus } => CommandView::SetFocus { task, focus },
            Command::Move { task, place } => CommandView::Move { task, place },
            Command::Reorder { task, position } => CommandView::Reorder { task, position },
            Command::SetWaiting { task, waiting } => CommandView::SetWaiting { task, waiting },
            Command::SetDue { task, date } => CommandView::SetDue { task, date },
            Command::SetRemind { task, date } => CommandView::SetRemind { task, date },
            Command::DeleteTask { task } => CommandView::DeleteTask { task },
            Command::CreateSchedule { task, rule } => CommandView::CreateSchedule { task, rule: rule@ },
            Command::SetRule { schedule, rule } => CommandView::SetRule { schedule, rule: rule@ },
            Command::StopSchedule { schedule } => CommandView::StopSchedule { schedule },
            Command::EditScheduleTitle { schedule, title } =>
                CommandView::EditScheduleTitle { schedule, title: title@ },
            Command::CreateNote => CommandView::CreateNote,
            Command::EditNote { note, body } => CommandView::EditNote { note, body: body@ },
            Command::ReplaceNote { note, body } => CommandView::ReplaceNote { note, body: body@ },
            Command::DeleteNote { note } => CommandView::DeleteNote { note },
            Command::MoveBack { task, place, position, waiting, drop_placement } =>
                CommandView::MoveBack { task, place, position, waiting, drop_placement },
            Command::CloseAt { task, closed_at, position } =>
                CommandView::CloseAt { task, closed_at: closed_at@, position },
            Command::RestoreTask { task, position } => CommandView::RestoreTask { task, position },
            Command::UncreateSchedule { task, schedule } =>
                CommandView::UncreateSchedule { task, schedule },
            Command::ResumeSchedule { schedule } => CommandView::ResumeSchedule { schedule },
            Command::RestoreNote { note } => CommandView::RestoreNote { note },
            Command::RestoreNoteBody { note, body, updated_at } =>
                CommandView::RestoreNoteBody { note, body: body@, updated_at: updated_at@ },
            Command::Sequence(commands) => {
                proof {
                    assert(decreases_to!(self => commands));
                    assert(decreases_to!(commands => commands@));
                }
                CommandView::Sequence(commands_view(commands@))
            },
        }
    }
}

/// Several commands, each as the contracts speak of it.
pub open spec fn commands_view(commands: Seq<Command>) -> Seq<CommandView>
    decreases commands,
{
    if commands.len() == 0 {
        Seq::empty()
    } else {
        proof {
            assert(decreases_to!(commands => commands[0]));
            assert(decreases_to!(commands => commands.subrange(1, commands.len() as int)));
        }
        seq![commands[0].view_of()] + commands_view(commands.subrange(1, commands.len() as int))
    }
}

impl View for Command {
    type V = CommandView;

    open spec fn view(&self) -> CommandView {
        self.view_of()
    }
}

/// The commands of a list are as many as the list has, each the view of
/// the command it stands for.
pub proof fn lemma_commands_view(commands: Seq<Command>)
    ensures
        commands_view(commands).len() == commands.len(),
        forall|i: int| 0 <= i < commands.len() ==> #[trigger] commands_view(commands)[i] == commands[i].view_of(),
    decreases commands.len(),
{
    if commands.len() > 0 {
        let rest = commands.subrange(1, commands.len() as int);
        lemma_commands_view(rest);
        assert forall|i: int| 0 <= i < commands.len() implies #[trigger] commands_view(commands)[i] == commands[i].view_of() by {
            if i > 0 {
                assert(commands_view(commands)[i] == commands_view(rest)[i - 1]);
                assert(rest[i - 1] == commands[i]);
            }
        }
    }
}

/// Two lists of commands with the same views, item by item, have the
/// same view.
pub proof fn lemma_commands_view_same(a: Seq<Command>, b: Seq<Command>)
    requires
        a.len() == b.len(),
        forall|i: int| 0 <= i < a.len() ==> #[trigger] a[i].view_of() == b[i].view_of(),
    ensures
        commands_view(a) == commands_view(b),
{
    lemma_commands_view(a);
    lemma_commands_view(b);
    assert(commands_view(a) =~= commands_view(b));
}

/// Whether a command is one of the inverses the domain makes for itself.
pub open spec fn inverse_kind(c: CommandView) -> bool {
    c is MoveBack || c is CloseAt || c is RestoreTask || c is UncreateSchedule
        || c is ResumeSchedule || c is RestoreNote || c is RestoreNoteBody || c is Sequence
}

impl Command {
    /// Whether this is one of the inverses the domain makes for itself.
    ///
    /// Nothing outside the program may ask for one: an inverse carries
    /// the state a command is being taken back to, which only the command
    /// that was applied can know.
    pub fn is_inverse(&self) -> (r: bool)
        ensures
            r == inverse_kind(self@),
    {
        matches!(
            self,
            Command::MoveBack { .. } | Command::CloseAt { .. } | Command::RestoreTask { .. }
                | Command::UncreateSchedule { .. } | Command::ResumeSchedule { .. }
                | Command::RestoreNote { .. } | Command::RestoreNoteBody { .. }
                | Command::Sequence(_)
        )
    }

    /// The same command, as a value of its own.
    pub fn copy(&self) -> (r: Command)
        ensures
            r@ == self@,
        decreases self,
    {
        match self {
            Command::AddTask { title, place } => Command::AddTask { title: copy_string(title), place: *place },
            Command::EditTitle { task, title } => Command::EditTitle { task: *task, title: copy_string(title) },
            Command::EditTitleAndFuture { task, title, schedule_title } => Command::EditTitleAndFuture {
                task: *task,
                title: copy_string(title),
                schedule_title: copy_string(schedule_title),
            },
            Command::Close { task } => Command::Close { task: *task },
            Command::Reopen { task } => Command::Reopen { task: *task },
            Command::SetFocus { task, focus } => Command::SetFocus { task: *task, focus: *focus },
            Command::Move { task, place } => Command::Move { task: *task, place: *place },
            Command::Reorder { task, position } => Command::Reorder { task: *task, position: *position },
            Command::SetWaiting { task, waiting } => Command::SetWaiting { task: *task, waiting: *waiting },
            Command::SetDue { task, date } => Command::SetDue { task: *task, date: *date },
            Command::SetRemind { task, date } => Command::SetRemind { task: *task, date: *date },
            Command::DeleteTask { task } => Command::DeleteTask { task: *task },
            Command::CreateSchedule { task, rule } => Command::CreateSchedule { task: *task, rule: rule.copy() },
            Command::SetRule { schedule, rule } => Command::SetRule { schedule: *schedule, rule: rule.copy() },
            Command::StopSchedule { schedule } => Command::StopSchedule { schedule: *schedule },
            Command::EditScheduleTitle { schedule, title } => Command::EditScheduleTitle {
                schedule: *schedule,
                title: copy_string(title),
            },
            Command::CreateNote => Command::CreateNote,
            Command::EditNote { note, body } => Command::EditNote { note: *note, body: copy_string(body) },
            Command::ReplaceNote { note, body } => Command::ReplaceNote { note: *note, body: copy_string(body) },
            Command::DeleteNote { note } => Command::DeleteNote { note: *note },
            Command::MoveBack { task, place, position, waiting, drop_placement } => Command::MoveBack {
                task: *task,
                place: *place,
                position: *position,
                waiting: *waiting,
                drop_placement: *drop_placement,
            },
            Command::CloseAt { task, closed_at, position } => Command::CloseAt {
                task: *task,
                closed_at: closed_at.copy(),
                position: *position,
            },
            Command::RestoreTask { task, position } => Command::RestoreTask { task: *task, position: *position },
            Command::UncreateSchedule { task, schedule } => Command::UncreateSchedule {
                task: *task,
                schedule: *schedule,
            },
            Command::ResumeSchedule { schedule } => Command::ResumeSchedule { schedule: *schedule },
            Command::RestoreNote { note } => Command::RestoreNote { note: *note },
            Command::RestoreNoteBody { note, body, updated_at } => Command::RestoreNoteBody {
                note: *note,
                body: copy_string(body),
                updated_at: updated_at.copy(),
            },
            Command::Sequence(commands) => {
                let mut copies: Vec<Command> = Vec::new();
                let mut i: usize = 0;
                proof {
                    assert forall|j: int| 0 <= j < commands@.len() implies decreases_to!(*self => #[trigger] commands@[j]) by {
                        assert(decreases_to!(*self => *commands));
                        assert(decreases_to!(*commands => commands@));
                        assert(decreases_to!(commands@ => commands@[j]));
                    }
                }
                while i < commands.len()
                    invariant
                        i <= commands@.len(),
                        copies@.len() == i,
                        forall|j: int| 0 <= j < i ==> #[trigger] copies@[j].view_of() == commands@[j].view_of(),
                        forall|j: int| 0 <= j < commands@.len() ==> decreases_to!(*self => #[trigger] commands@[j]),
                    decreases commands@.len() - i,
                {
                    let c = commands[i].copy();
                    copies.push(c);
                    i = i + 1;
                }
                proof {
                    lemma_commands_view_same(copies@, commands@);
                }
                Command::Sequence(copies)
            },
        }
    }
}

/// The task a command is about, where it is about one. A command that
/// names a schedule or a note names no task, and `AddTask` makes the id
/// it is about rather than carrying it.
pub open spec fn task_about(c: CommandView) -> Option<Id>
    decreases c,
{
    match c {
        CommandView::EditTitle { task, .. } => Some(task),
        CommandView::EditTitleAndFuture { task, .. } => Some(task),
        CommandView::Close { task } => Some(task),
        CommandView::Reopen { task } => Some(task),
        CommandView::SetFocus { task, .. } => Some(task),
        CommandView::Move { task, .. } => Some(task),
        CommandView::Reorder { task, .. } => Some(task),
        CommandView::SetWaiting { task, .. } => Some(task),
        CommandView::SetDue { task, .. } => Some(task),
        CommandView::SetRemind { task, .. } => Some(task),
        CommandView::DeleteTask { task } => Some(task),
        CommandView::CreateSchedule { task, .. } => Some(task),
        CommandView::MoveBack { task, .. } => Some(task),
        CommandView::CloseAt { task, .. } => Some(task),
        CommandView::RestoreTask { task, .. } => Some(task),
        CommandView::UncreateSchedule { task, .. } => Some(task),
        CommandView::Sequence(commands) => first_task_about(commands),
        _ => None,
    }
}

/// The task the first command of a list that is about one is about.
pub open spec fn first_task_about(commands: Seq<CommandView>) -> Option<Id>
    decreases commands,
{
    if commands.len() == 0 {
        None
    } else {
        proof {
            assert(decreases_to!(commands => commands[0]));
            assert(decreases_to!(commands => commands.subrange(1, commands.len() as int)));
        }
        match task_about(commands[0]) {
            Some(t) => Some(t),
            None => first_task_about(commands.subrange(1, commands.len() as int)),
        }
    }
}

/// The task a command is about, where it is about one.
pub fn task_of(command: &Command) -> (r: Option<Id>)
    ensures
        r == task_about(command@),
    decreases command,
{
    match command {
        Command::EditTitle { task, .. } | Command::EditTitleAndFuture { task, .. }
        | Command::Close { task } | Command::Reopen { task } | Command::SetFocus { task, .. }
        | Command::Move { task, .. } | Command::Reorder { task, .. }
        | Command::SetWaiting { task, .. } | Command::SetDue { task, .. }
        | Command::SetRemind { task, .. } | Command::DeleteTask { task }
        | Command::CreateSchedule { task, .. } | Command::MoveBack { task, .. }
        | Command::CloseAt { task, .. } | Command::RestoreTask { task, .. }
        | Command::UncreateSchedule { task, .. } => Some(*task),
        Command::Sequence(commands) => {
            let ghost views = commands_view(commands@);
            proof {
                lemma_commands_view(commands@);
                assert(views.subrange(0, views.len() as int) =~= views);
                assert forall|j: int| 0 <= j < commands@.len() implies decreases_to!(*command => #[trigger] commands@[j]) by {
                    assert(decreases_to!(*command => *commands));
                    assert(decreases_to!(*commands => commands@));
                    assert(decreases_to!(commands@ => commands@[j]));
                }
            }
            assert(command@ == CommandView::Sequence(views));
            let mut i: usize = 0;
            while i < commands.len()
                invariant
                    i <= commands@.len(),
                    command@ == CommandView::Sequence(views),
                    forall|j: int| 0 <= j < commands@.len() ==> decreases_to!(*command => #[trigger] commands@[j]),
                    views == commands_view(commands@),
                    views.len() == commands@.len(),
                    first_task_about(views) == first_task_about(views.subrange(i as int, views.len() as int)),
                    forall|j: int| 0 <= j < commands@.len() ==> #[trigger] views[j] == commands@[j].view_of(),
                decreases commands@.len() - i,
            {
                let found = task_of(&commands[i]);
                let ghost rest = views.subrange(i as int, views.len() as int);
                assert(rest[0] == views[i as int]);
                assert(rest.subrange(1, rest.len() as int) =~= views.subrange(i + 1, views.len() as int));
                if found.is_some() {
                    assert(task_about(rest[0]) == found);
                    assert(first_task_about(rest) == found);
                    return found;
                }
                i = i + 1;
            }
            assert(views.subrange(i as int, views.len() as int) =~= Seq::<CommandView>::empty());
            None
        },
        _ => None,
    }
}

// ---- places and order ------------------------------------------------

pub open spec fn with_position(t: TaskView, position: usize) -> TaskView {
    TaskView { position, ..t }
}

/// The table with the first `n` tasks of `s` numbered `0..n` in that
/// order.
pub open spec fn numbered(tasks: Map<Id, TaskView>, s: Seq<Id>, n: nat) -> Map<Id, TaskView>
    decreases n,
{
    if n == 0 || n > s.len() {
        tasks
    } else {
        let m = numbered(tasks, s, (n - 1) as nat);
        let k = s[n - 1];
        if m.contains_key(k) {
            m.insert(k, with_position(m[k], (n - 1) as usize))
        } else {
            m
        }
    }
}

/// The table with the tasks of `s` numbered `0..n` in that order.
pub open spec fn renumbered(tasks: Map<Id, TaskView>, s: Seq<Id>) -> Map<Id, TaskView> {
    numbered(tasks, s, s.len())
}

/// Where an id stands in a sequence that holds it.
pub open spec fn index_in(s: Seq<Id>, x: Id) -> int {
    choose|i: int| 0 <= i < s.len() && s[i] == x
}

/// A task moved within its place, the place renumbered around it. A
/// position past the end is the end.
pub open spec fn set_position_spec(tasks: Map<Id, TaskView>, id: Id, position: usize) -> Map<Id, TaskView> {
    if !tasks.contains_key(id) {
        tasks
    } else {
        let order = order_of(tasks, tasks[id].place());
        if !order.contains(id) {
            tasks
        } else {
            let rest = order.remove(index_in(order, id));
            let at = if (position as int) < rest.len() {
                position as int
            } else {
                rest.len() as int
            };
            renumbered(tasks, rest.insert(at, id))
        }
    }
}

/// A task given a new place, last in it until it is put somewhere.
pub open spec fn moved_to(t: TaskView, place: Place) -> TaskView {
    TaskView { day: day_of(place), position: usize::MAX, ..t }
}

/// A task put in a place at a position, the place it came from left
/// dense.
pub open spec fn put_in_place_spec(tasks: Map<Id, TaskView>, id: Id, place: Place, position: usize) -> Map<Id, TaskView> {
    if !tasks.contains_key(id) {
        tasks
    } else {
        let was = tasks[id].place();
        let first = if was != place {
            let moved = tasks.insert(id, moved_to(tasks[id], place));
            renumbered(moved, order_of(moved, was))
        } else {
            tasks
        };
        set_position_spec(first, id, position)
    }
}

pub proof fn lemma_view_dom(m: Map<Id, Task>)
    ensures
        tasks_view(m).dom() == m.dom(),
{
    assert(tasks_view(m).dom() =~= m.dom());
}

pub proof fn lemma_view_insert(m: Map<Id, Task>, k: Id, v: Task)
    ensures
        tasks_view(m.insert(k, v)) == tasks_view(m).insert(k, v@),
{
    assert(tasks_view(m.insert(k, v)) =~= tasks_view(m).insert(k, v@));
}

/// A copy of the task filed under `id`, if there is one.
pub fn task_copy(table: &BTreeMap<Id, Task>, id: Id) -> (r: Option<Task>)
    ensures
        match r {
            Some(t) => table@.contains_key(id) && t@ == table@[id]@,
            None => !table@.contains_key(id),
        },
{
    match table.get(&id) {
        Some(t) => Some(t.copy()),
        None => None,
    }
}

/// Numbers the tasks of `s` `0..n` in that order.
fn renumber_with(table: &mut BTreeMap<Id, Task>, s: &Vec<Id>)
    ensures
        tasks_view(final(table)@) == renumbered(tasks_view(old(table)@), s@),
{
    let ghost t0 = tasks_view(table@);
    let mut i: usize = 0;
    while i < s.len()
        invariant
            i <= s@.len(),
            tasks_view(table@) == numbered(t0, s@, i as nat),
        decreases s@.len() - i,
    {
        let k = s[i];
        match task_copy(table, k) {
            Some(t) => {
                let mut c = t;
                c.position = i;
                proof {
                    lemma_view_insert(table@, k, c);
                    assert(c@ == with_position(tasks_view(table@)[k], i));
                }
                table.insert(k, c);
            },
            None => {},
        }
        i = i + 1;
    }
}

/// The last position of a place, which is where anything arriving lands.
pub fn end_of(table: &BTreeMap<Id, Task>, place: Place) -> (end: usize)
    ensures
        end == order_of(tasks_view(table@), place).len(),
{
    order_in(table, place).len()
}

/// Renumbers a place to the dense integers `0..n` in its current order.
pub fn renumber(table: &mut BTreeMap<Id, Task>, place: Place)
    ensures
        tasks_view(final(table)@) == renumbered(tasks_view(old(table)@), order_of(tasks_view(old(table)@), place)),
{
    let order = order_in(table, place);
    renumber_with(table, &order);
}

/// Moves a task within its place, renumbering the place around it. A
/// position past the end is clamped to it, which is what undo needs when
/// another window has taken a row away.
pub fn set_position(table: &mut BTreeMap<Id, Task>, id: Id, position: usize)
    ensures
        tasks_view(final(table)@) == set_position_spec(tasks_view(old(table)@), id, position),
{
    let place = match table.get(&id) {
        Some(t) => t.place(),
        None => return ,
    };
    let mut order = order_in(table, place);
    let ghost whole = order@;
    let mut from: usize = 0;
    while from < order.len() && order[from] != id
        invariant
            from <= order@.len(),
            order@ == whole,
            forall|j: int| 0 <= j < from ==> order@[j] != id,
        decreases order@.len() - from,
    {
        from = from + 1;
    }
    if from == order.len() {
        proof {
            assert(!whole.contains(id));
        }
        return ;
    }
    proof {
        assert(whole.contains(id));
        let c = index_in(whole, id);
        assert(whole[c] == id && whole[from as int] == id);
        assert(c == from as int);
    }
    order.remove(from);
    let at = if position < order.len() {
        position
    } else {
        order.len()
    };
    order.insert(at, id);
    renumber_with(table, &order);
}

/// Puts a task in a place at a position, leaving the place it came from
/// dense.
pub fn put_in_place(table: &mut BTreeMap<Id, Task>, id: Id, place: Place, position: usize)
    ensures
        tasks_view(final(table)@) == put_in_place_spec(tasks_view(old(table)@), id, place, position),
{
    let was = match table.get(&id) {
        Some(t) => t.place(),
        None => return ,
    };
    if was != place {
        let mut c = table.get(&id).unwrap().copy();
        c.day = place.day();
        c.position = usize::MAX;
        proof {
            lemma_view_insert(table@, id, c);
        }
        table.insert(id, c);
        renumber(table, was);
    }
    set_position(table, id, position);
}

/// The model with a placement written for a day, unless the task has been
/// there before, in which case the first arrival's row stands; and
/// whether it wrote.
pub open spec fn placed(m: ModelView, task: Id, day: Date, now: int, from: FromPlace) -> (ModelView, bool) {
    if m.placements.contains_key(key_of(task, day)) {
        (m, false)
    } else {
        (
            ModelView {
                placements: m.placements.insert(
                    key_of(task, day),
                    PlacementView { task_id: task, day, placed_at: now, from_place: from },
                ),
                ..m
            },
            true,
        )
    }
}

/// Writes the placement for a day unless the task has been there before.
/// Says whether it wrote.
pub fn place_on_day(model: &mut Model, task: Id, day: Date, now: &Stamp, from: FromPlace) -> (wrote: bool)
    ensures
        (final(model)@, wrote) == placed(old(model)@, task, day, now@, from),
{
    let key = placement_key(task, day);
    if model.placements.contains_key(&key) {
        return false;
    }
    let p = Placement { task_id: task, day, placed_at: now.copy(), from_place: from };
    proof {
        assert(super::model::placements_view(model.placements@.insert(key, p)) =~= super::model::placements_view(model.placements@).insert(key, p@));
    }
    model.placements.insert(key, p);
    true
}

// ---- ids -------------------------------------------------------------

/// The largest id in a table plus one; 1 in an empty one.
pub open spec fn next_id_of(ids: Set<Id>) -> int {
    if ids =~= Set::<Id>::empty() {
        1
    } else {
        (choose|m: Id| ids.contains(m) && forall|k: Id| ids.contains(k) ==> k <= m) + 1
    }
}

/// Every id of a table leaves room for one more.
pub open spec fn ids_fit(ids: Set<Id>) -> bool {
    forall|k: Id| ids.contains(k) ==> k < i64::MAX
}

/// The largest key in a table plus one.
pub fn next_key<V>(table: &BTreeMap<Id, V>) -> (next: Id)
    requires
        ids_fit(table@.dom()),
    ensures
        next == next_id_of(table@.dom()),
{
    let ghost items = table.iter().remaining();
    let mut most: Option<Id> = None;
    for kv in it: table.iter()
        invariant
            it.seq() == items,
            ids_fit(table@.dom()),
            forall|i: int| 0 <= i < items.len() ==> table@.contains_key(*items[i].0),
            forall|k: Id| #[trigger] table@.contains_key(k) ==> items.contains((&k, &table@[k])),
            match most {
                Some(m) => table@.contains_key(m) && forall|i: int| 0 <= i < it.index() ==> *#[trigger] items[i].0 <= m,
                None => it.index() == 0,
            },
    {
        let (k, _) = kv;
        proof {
            assert(items[it.index()].0 == k);
        }
        most = match most {
            Some(m) => if *k > m {
                Some(*k)
            } else {
                Some(m)
            },
            None => Some(*k),
        };
    }
    proof {
        assert forall|k: Id| table@.dom().contains(k) implies (most is Some && k <= most->0) by {
            assert(items.contains((&k, &table@[k])));
            let i = choose|i: int| 0 <= i < items.len() && items[i] == (&k, &table@[k]);
            assert(*items[i].0 == k);
        }
    }
    match most {
        Some(m) => {
            proof {
                assert(table@.dom().contains(m));
                assert(!(table@.dom() =~= Set::<Id>::empty()));
                let c = choose|c: Id| table@.dom().contains(c) && forall|k: Id| table@.dom().contains(k) ==> k <= c;
                assert(c <= m && m <= c);
            }
            m + 1
        },
        None => {
            proof {
                assert(table@.dom() =~= Set::<Id>::empty());
            }
            1
        },
    }
}

/// The ids of the undo stack.
pub open spec fn undo_ids(entries: Seq<EntryView>) -> Set<Id> {
    Set::new(|k: Id| exists|i: int| 0 <= i < entries.len() && entries[i].id == k)
}

/// The largest id on the undo stack plus one.
pub fn next_undo_id(model: &Model) -> (next: Id)
    requires
        ids_fit(undo_ids(model@.undo)),
    ensures
        next == next_id_of(undo_ids(model@.undo)),
{
    let ghost ids = undo_ids(model@.undo);
    let mut most: Option<Id> = None;
    let mut i: usize = 0;
    while i < model.undo.len()
        invariant
            i <= model.undo@.len(),
            ids == undo_ids(model@.undo),
            ids_fit(ids),
            match most {
                Some(m) => ids.contains(m) && forall|j: int| 0 <= j < i ==> #[trigger] model@.undo[j].id <= m,
                None => i == 0,
            },
        decreases model.undo@.len() - i,
    {
        let k = model.undo[i].id;
        proof {
            assert(model@.undo[i as int].id == k);
            assert(ids.contains(k));
        }
        most = match most {
            Some(m) => if k > m {
                Some(k)
            } else {
                Some(m)
            },
            None => Some(k),
        };
        i = i + 1;
    }
    match most {
        Some(m) => {
            proof {
                assert(forall|k: Id| ids.contains(k) ==> k <= m);
                assert(!(ids =~= Set::<Id>::empty()));
                let c = choose|c: Id| ids.contains(c) && forall|k: Id| ids.contains(k) ==> k <= c;
                assert(c <= m && m <= c);
            }
            m + 1
        },
        None => {
            proof {
                assert(ids =~= Set::<Id>::empty());
            }
            1
        },
    }
}

// ---- labels ----------------------------------------------------------

/// The most characters of a title a label quotes.
pub const NAMED_MOST: usize = 40;

/// The characters with the whitespace at the end taken off.
pub open spec fn trimmed_end(s: Seq<char>) -> Seq<char>
    decreases s.len(),
{
    if s.len() > 0 && white(s.last()) {
        trimmed_end(s.drop_last())
    } else {
        s
    }
}

/// A title in quotes, cut to the few words a hint bar has room for beside
/// what happened to it.
pub open spec fn named_of(title: Seq<char>) -> Seq<char> {
    if title.len() > NAMED_MOST {
        "\""@ + trimmed_end(title.take(NAMED_MOST as int)) + "\u{2026}\""@
    } else {
        "\""@ + title + "\""@
    }
}

fn named(title: &[char]) -> (r: Vec<char>)
    ensures
        r@ == named_of(title@),
{
    let mut r: Vec<char> = Vec::new();
    append_str(&mut r, "\"");
    if title.len() > NAMED_MOST {
        let mut end: usize = NAMED_MOST;
        while end > 0 && is_white(title[end - 1])
            invariant
                end <= NAMED_MOST,
                title@.len() > NAMED_MOST,
                trimmed_end(title@.take(NAMED_MOST as int)) == trimmed_end(title@.take(end as int)),
            decreases end,
        {
            assert(title@.take(end as int).drop_last() =~= title@.take(end - 1));
            end = end - 1;
        }
        assert(trimmed_end(title@.take(end as int)) == title@.take(end as int));
        let mut i: usize = 0;
        let ghost start = r@;
        while i < end
            invariant
                i <= end,
                end <= NAMED_MOST,
                title@.len() > NAMED_MOST,
                r@ == start + title@.take(i as int),
            decreases end - i,
        {
            r.push(title[i]);
            assert(title@.take(i + 1) =~= title@.take(i as int).push(title@[i as int]));
            i = i + 1;
        }
        append_str(&mut r, "\u{2026}\"");
    } else {
        append_all(&mut r, title);
        append_str(&mut r, "\"");
    }
    proof {
        reveal_strlit("\"");
        reveal_strlit("\u{2026}\"");
    }
    assert(r@ =~= named_of(title@));
    r
}

/// Where a task went, as a label says it.
pub open spec fn place_name_of(place: Place, today: Date, dates: DateOrder) -> Seq<char> {
    match place {
        Place::Backlog => "the backlog"@,
        Place::Day(day) => if day == today {
            "today"@
        } else {
            day_label_of(day, dates)
        },
    }
}

fn place_name(place: Place, today: Date, dates: DateOrder) -> (r: Vec<char>)
    ensures
        r@ == place_name_of(place, today, dates),
{
    match place {
        Place::Backlog => chars_of("the backlog"),
        Place::Day(day) => if day == today {
            chars_of("today")
        } else {
            day_label(day, dates)
        },
    }
}

/// A label: some words, then a title in quotes.
pub open spec fn label_of(words: Seq<char>, title: Seq<char>) -> Seq<char> {
    words + " "@ + named_of(title)
}

fn label(words: &str, title: &[char]) -> (r: String)
    ensures
        r@ == label_of(words@, title@),
{
    let mut r: Vec<char> = chars_of(words);
    append_str(&mut r, " ");
    let n = named(title);
    append_all(&mut r, n.as_slice());
    proof {
        reveal_strlit(" ");
    }
    assert(r@ =~= label_of(words@, title@));
    string_of(r.as_slice())
}

// ---- titles ----------------------------------------------------------

/// A title is the whole task: non-empty after trimming, one line.
pub open spec fn title_of(text: Seq<char>) -> Result<Seq<char>, Seq<char>> {
    let t = trimmed(text);
    if t.len() == 0 {
        Err("A task needs a title."@)
    } else if t.contains('\n') {
        Err("A title is one line."@)
    } else {
        Ok(t)
    }
}

/// A refusal, with the sentence that says why.
pub fn rejected(why: &str) -> (r: Rejected)
    ensures
        r.0@ == why@,
{
    Rejected(string_of(chars_of(why).as_slice()))
}

fn valid_title(text: &String) -> (r: Result<String, Rejected>)
    ensures
        match r {
            Ok(t) => title_of(text@) == Ok::<Seq<char>, Seq<char>>(t@),
            Err(e) => title_of(text@) == Err::<Seq<char>, Seq<char>>(e.0@),
        },
{
    let cs = chars_of(text.as_str());
    let t = trim(cs.as_slice());
    if t.len() == 0 {
        return Err(rejected("A task needs a title."));
    }
    match find_char(t.as_slice(), '\n') {
        Some(i) => {
            proof {
                assert(t@[i as int] == '\n');
            }
            Err(rejected("A title is one line."))
        },
        None => {
            proof {
                if t@.contains('\n') {
                    let j = choose|j: int| 0 <= j < t@.len() && t@[j] == '\n';
                }
            }
            Ok(string_of(t.as_slice()))
        },
    }
}

// ---- what a command does ---------------------------------------------

/// What a command earns on the undo stack: a label and the inverse.
#[derive(Debug)]
pub struct Entry {
    pub label: String,
    pub inverse: Command,
}

impl View for Entry {
    type V = (Seq<char>, CommandView);

    open spec fn view(&self) -> (Seq<char>, CommandView) {
        (self.label@, self.inverse@)
    }
}

/// A command's outcome: the model it leaves and the entry it earns, or
/// why it is refused.
pub type Outcome = Result<(ModelView, Option<(Seq<char>, CommandView)>), Seq<char>>;

pub open spec fn entry_view(e: Option<Entry>) -> Option<(Seq<char>, CommandView)> {
    match e {
        Some(x) => Some(x@),
        None => None,
    }
}

/// What a run returned, with the model it left.
pub open spec fn outcome(r: Result<Option<Entry>, Rejected>, model: ModelView) -> Outcome {
    match r {
        Ok(e) => Ok((model, entry_view(e))),
        Err(x) => Err(x.0@),
    }
}

pub open spec fn with_tasks(m: ModelView, tasks: Map<Id, TaskView>) -> ModelView {
    ModelView { tasks, ..m }
}

/// A row edited where it is filed, and nothing where nothing is.
pub open spec fn update(tasks: Map<Id, TaskView>, id: Id, f: spec_fn(TaskView) -> TaskView) -> Map<Id, TaskView> {
    if tasks.contains_key(id) {
        tasks.insert(id, f(tasks[id]))
    } else {
        tasks
    }
}

pub open spec fn live(m: ModelView, task: Id) -> bool {
    m.tasks.contains_key(task) && m.tasks[task].live()
}

pub open spec fn gone() -> Seq<char> {
    "That task is gone."@
}

pub open spec fn add_task_spec(m: ModelView, title: Seq<char>, place: Place, now: int) -> Outcome {
    match title_of(title) {
        Err(e) => Err(e),
        Ok(t) => {
            let id = next_id_of(m.tasks.dom()) as Id;
            let row = TaskView {
                id,
                title: t,
                day: day_of(place),
                position: order_of(m.tasks, place).len() as usize,
                focus: false,
                waiting: false,
                closed_at: None,
                due_on: None,
                remind_on: None,
                schedule_id: None,
                scheduled_on: None,
                created_at: now,
                deleted_at: None,
            };
            let m1 = with_tasks(m, m.tasks.insert(id, row));
            let m2 = match place {
                Place::Day(d) => placed(m1, id, d, now, FromPlace::New).0,
                Place::Backlog => m1,
            };
            Ok((m2, Some((label_of("Added"@, t), CommandView::DeleteTask { task: id }))))
        },
    }
}

pub open spec fn edit_title_spec(m: ModelView, task: Id, title: Seq<char>) -> Outcome {
    match title_of(title) {
        Err(e) => Err(e),
        Ok(t) => if !live(m, task) {
            Err(gone())
        } else {
            let was = m.tasks[task].title;
            Ok((
                with_tasks(m, update(m.tasks, task, |x: TaskView| TaskView { title: t, ..x })),
                Some((label_of("Renamed"@, t), CommandView::EditTitle { task, title: was })),
            ))
        },
    }
}

pub open spec fn edit_title_and_future_spec(m: ModelView, task: Id, title: Seq<char>, schedule_title: Seq<char>) -> Outcome {
    match title_of(title) {
        Err(e) => Err(e),
        Ok(t) => match title_of(schedule_title) {
            Err(e) => Err(e),
            Ok(st) => if !live(m, task) {
                Err(gone())
            } else {
                let cur = m.tasks[task];
                match cur.schedule_id {
                    None => Err("That task is not a recurring copy."@),
                    Some(sid) => if !m.schedules.contains_key(sid) {
                        Err("That repeat schedule is gone."@)
                    } else {
                        let was = m.schedules[sid];
                        let m1 = ModelView {
                            schedules: m.schedules.insert(sid, super::model::ScheduleView { title: st, ..was }),
                            ..m
                        };
                        Ok((
                            with_tasks(m1, update(m1.tasks, task, |x: TaskView| TaskView { title: t, ..x })),
                            Some((
                                label_of("Renamed"@, t) + " and its future copies"@,
                                CommandView::EditTitleAndFuture { task, title: cur.title, schedule_title: was.title },
                            )),
                        ))
                    },
                }
            },
        },
    }
}

pub open spec fn close_spec(m: ModelView, task: Id, now: int, today: Date) -> Outcome {
    if !live(m, task) {
        Err(gone())
    } else {
        let cur = m.tasks[task];
        if !cur.open() {
            Err("That task is already closed."@)
        } else {
            let id = cur.id;
            let from = cur.place();
            let (m1, drop) = if from == Place::Backlog {
                let end = order_of(m.tasks, Place::Day(today)).len() as usize;
                let (ma, wrote) = placed(m, id, today, now, super::model::from_place_of(from));
                let mb = with_tasks(ma, put_in_place_spec(ma.tasks, id, Place::Day(today), end));
                let mc = with_tasks(mb, update(mb.tasks, id, |x: TaskView| TaskView { waiting: false, ..x }));
                (mc, if wrote { Some(today) } else { None })
            } else {
                (m, None)
            };
            let m2 = with_tasks(m1, update(m1.tasks, id, |x: TaskView| TaskView { closed_at: Some(now), ..x }));
            Ok((
                m2,
                Some((
                    label_of("Closed"@, cur.title),
                    CommandView::MoveBack {
                        task: id,
                        place: from,
                        position: cur.position,
                        waiting: cur.waiting,
                        drop_placement: drop,
                    },
                )),
            ))
        }
    }
}

pub open spec fn reopen_spec(m: ModelView, task: Id) -> Outcome {
    if !live(m, task) {
        Err(gone())
    } else {
        let cur = m.tasks[task];
        match cur.closed_at {
            None => Err("That task is not closed."@),
            Some(c) => {
                let id = cur.id;
                let m1 = with_tasks(m, update(m.tasks, id, |x: TaskView| TaskView { closed_at: None, ..x }));
                let m2 = with_tasks(m1, set_position_spec(m1.tasks, id, usize::MAX));
                Ok((
                    m2,
                    Some((
                        label_of("Reopened"@, cur.title),
                        CommandView::CloseAt { task: id, closed_at: c, position: cur.position },
                    )),
                ))
            },
        }
    }
}

pub open spec fn set_focus_spec(m: ModelView, task: Id, focus: bool) -> Outcome {
    if !live(m, task) {
        Err(gone())
    } else {
        let cur = m.tasks[task];
        if cur.day is None {
            Err("Focus is for tasks on a day."@)
        } else {
            Ok((
                with_tasks(m, update(m.tasks, task, |x: TaskView| TaskView { focus, ..x })),
                Some((
                    label_of(if focus { "Focused"@ } else { "Unfocused"@ }, cur.title),
                    CommandView::SetFocus { task, focus: cur.focus },
                )),
            ))
        }
    }
}

pub open spec fn move_spec(m: ModelView, task: Id, place: Place, now: int, today: Date, dates: DateOrder) -> Outcome {
    if !live(m, task) {
        Err(gone())
    } else {
        let cur = m.tasks[task];
        if !cur.open() {
            Err("A closed task stays where it was done."@)
        } else if cur.place() == place {
            Err("The task is already there."@)
        } else {
            let id = cur.id;
            let from = cur.place();
            let end = order_of(m.tasks, place).len() as usize;
            let (m1, drop) = match place {
                Place::Day(d) => {
                    let (ma, wrote) = placed(m, id, d, now, super::model::from_place_of(from));
                    (ma, if wrote { Some(d) } else { None })
                },
                Place::Backlog => (m, None),
            };
            let m2 = with_tasks(m1, put_in_place_spec(m1.tasks, id, place, end));
            let m3 = with_tasks(m2, update(m2.tasks, id, |x: TaskView| TaskView { waiting: false, ..x }));
            Ok((
                m3,
                Some((
                    label_of("Moved"@, cur.title) + " to "@ + place_name_of(place, today, dates),
                    CommandView::MoveBack {
                        task: id,
                        place: from,
                        position: cur.position,
                        waiting: cur.waiting,
                        drop_placement: drop,
                    },
                )),
            ))
        }
    }
}

pub open spec fn reorder_spec(m: ModelView, task: Id, position: usize) -> Outcome {
    if !live(m, task) {
        Err(gone())
    } else {
        let cur = m.tasks[task];
        Ok((
            with_tasks(m, set_position_spec(m.tasks, cur.id, position)),
            Some((
                label_of("Moved"@, cur.title) + " in the list"@,
                CommandView::Reorder { task: cur.id, position: cur.position },
            )),
        ))
    }
}

pub open spec fn set_waiting_spec(m: ModelView, task: Id, waiting: bool) -> Outcome {
    if !live(m, task) {
        Err(gone())
    } else {
        let cur = m.tasks[task];
        if !cur.open() {
            Err("A closed task is not waiting on anyone."@)
        } else {
            let id = cur.id;
            let from = cur.place();
            if waiting && from != Place::Backlog {
                let end = order_of(m.tasks, Place::Backlog).len() as usize;
                let m1 = with_tasks(m, put_in_place_spec(m.tasks, id, Place::Backlog, end));
                let m2 = with_tasks(m1, update(m1.tasks, id, |x: TaskView| TaskView { waiting: true, ..x }));
                Ok((
                    m2,
                    Some((
                        label_of("Waiting on"@, cur.title),
                        CommandView::MoveBack {
                            task: id,
                            place: from,
                            position: cur.position,
                            waiting: false,
                            drop_placement: None,
                        },
                    )),
                ))
            } else {
                Ok((
                    with_tasks(m, update(m.tasks, id, |x: TaskView| TaskView { waiting, ..x })),
                    Some((
                        label_of(if waiting { "Waiting on"@ } else { "No longer waiting on"@ }, cur.title),
                        CommandView::SetWaiting { task: id, waiting: cur.waiting },
                    )),
                ))
            }
        }
    }
}

pub open spec fn set_due_spec(m: ModelView, task: Id, date: Option<Date>) -> Outcome {
    if !live(m, task) {
        Err(gone())
    } else {
        let cur = m.tasks[task];
        Ok((
            with_tasks(m, update(m.tasks, task, |x: TaskView| TaskView { due_on: date, ..x })),
            Some((
                label_of(if date is Some { "Due date on"@ } else { "Cleared the due date on"@ }, cur.title),
                CommandView::SetDue { task, date: cur.due_on },
            )),
        ))
    }
}

pub open spec fn set_remind_spec(m: ModelView, task: Id, date: Option<Date>) -> Outcome {
    if !live(m, task) {
        Err(gone())
    } else {
        let cur = m.tasks[task];
        Ok((
            with_tasks(m, update(m.tasks, task, |x: TaskView| TaskView { remind_on: date, ..x })),
            Some((
                label_of(if date is Some { "Reminder on"@ } else { "Cleared the reminder on"@ }, cur.title),
                CommandView::SetRemind { task, date: cur.remind_on },
            )),
        ))
    }
}

pub open spec fn delete_task_spec(m: ModelView, task: Id, now: int) -> Outcome {
    if !live(m, task) {
        Err(gone())
    } else {
        let cur = m.tasks[task];
        let id = cur.id;
        let m1 = with_tasks(m, update(m.tasks, id, |x: TaskView| TaskView { deleted_at: Some(now), ..x }));
        let m2 = with_tasks(m1, renumbered(m1.tasks, order_of(m1.tasks, cur.place())));
        Ok((
            m2,
            Some((label_of("Deleted"@, cur.title), CommandView::RestoreTask { task: id, position: cur.position })),
        ))
    }
}

/// Files a task row under an id.
pub(crate) fn put_task(model: &mut Model, id: Id, t: Task)
    ensures
        final(model)@ == with_tasks(old(model)@, old(model)@.tasks.insert(id, t@)),
{
    proof {
        lemma_view_insert(model.tasks@, id, t);
    }
    model.tasks.insert(id, t);
}

fn title_chars(t: &Task) -> (r: Vec<char>)
    ensures
        r@ == t@.title,
{
    chars_of(t.title.as_str())
}

#[verifier::rlimit(30)]
fn run_add(model: &mut Model, title: &String, place: Place, now: &Stamp) -> (r: Result<Option<Entry>, Rejected>)
    requires
        ids_fit(old(model)@.tasks.dom()),
    ensures
        add_task_spec(old(model)@, title@, place, now@) == outcome(r, final(model)@),
        r is Err ==> final(model)@ == old(model)@,
{
    let ghost m0 = model@;
    let title = match valid_title(title) {
        Ok(t) => t,
        Err(e) => return Err(e),
    };
    proof {
        lemma_view_dom(model.tasks@);
    }
    let id = next_key(&model.tasks);
    let position = end_of(&model.tasks, place);
    let row = Task {
        id,
        title: copy_string(&title),
        day: place.day(),
        position,
        focus: false,
        waiting: false,
        closed_at: None,
        due_on: None,
        remind_on: None,
        schedule_id: None,
        scheduled_on: None,
        created_at: now.copy(),
        deleted_at: None,
    };
    let ghost row_view = row@;
    put_task(model, id, row);
    let ghost m1 = model@;
    assert(m1 == with_tasks(m0, m0.tasks.insert(id, row_view)));
    match place {
        Place::Day(day) => {
            place_on_day(model, id, day, now, FromPlace::New);
        },
        Place::Backlog => {},
    }
    let chars = chars_of(title.as_str());
    let entry = Entry { label: label("Added", chars.as_slice()), inverse: Command::DeleteTask { task: id } };
    assert(entry@ == (label_of("Added"@, title@), CommandView::DeleteTask { task: id }));
    Ok(Some(entry))
}

fn run_edit_title(model: &mut Model, task: Id, title: &String) -> (r: Result<Option<Entry>, Rejected>)
    ensures
        edit_title_spec(old(model)@, task, title@) == outcome(r, final(model)@),
        r is Err ==> final(model)@ == old(model)@,
{
    let title = match valid_title(title) {
        Ok(t) => t,
        Err(e) => return Err(e),
    };
    let mut cur = match model.live_task(task) {
        Some(t) => t.copy(),
        None => return Err(rejected("That task is gone.")),
    };
    let was = copy_string(&cur.title);
    cur.title = copy_string(&title);
    put_task(model, task, cur);
    let chars = chars_of(title.as_str());
    Ok(Some(Entry { label: label("Renamed", chars.as_slice()), inverse: Command::EditTitle { task, title: was } }))
}

fn run_edit_title_and_future(model: &mut Model, task: Id, title: &String, schedule_title: &String) -> (r: Result<Option<Entry>, Rejected>)
    ensures
        edit_title_and_future_spec(old(model)@, task, title@, schedule_title@) == outcome(r, final(model)@),
        r is Err ==> final(model)@ == old(model)@,
{
    let title = match valid_title(title) {
        Ok(t) => t,
        Err(e) => return Err(e),
    };
    let schedule_title = match valid_title(schedule_title) {
        Ok(t) => t,
        Err(e) => return Err(e),
    };
    let mut cur = match model.live_task(task) {
        Some(t) => t.copy(),
        None => return Err(rejected("That task is gone.")),
    };
    let schedule_id = match cur.schedule_id {
        Some(s) => s,
        None => return Err(rejected("That task is not a recurring copy.")),
    };
    let mut schedule = match model.schedules.get(&schedule_id) {
        Some(s) => s.copy(),
        None => return Err(rejected("That repeat schedule is gone.")),
    };
    let was_schedule = copy_string(&schedule.title);
    schedule.title = schedule_title;
    proof {
        assert(super::model::schedules_view(model.schedules@.insert(schedule_id, schedule)) =~= super::model::schedules_view(model.schedules@).insert(schedule_id, schedule@));
    }
    model.schedules.insert(schedule_id, schedule);
    let was = copy_string(&cur.title);
    cur.title = copy_string(&title);
    put_task(model, task, cur);
    let l = label("Renamed", chars_of(title.as_str()).as_slice());
    let mut words = chars_of(l.as_str());
    append_str(&mut words, " and its future copies");
    Ok(Some(Entry {
        label: string_of(words.as_slice()),
        inverse: Command::EditTitleAndFuture { task, title: was, schedule_title: was_schedule },
    }))
}

/// The task filed under an id with a new waiting flag, where there is one.
fn set_waiting_flag(model: &mut Model, id: Id, waiting: bool)
    ensures
        final(model)@ == with_tasks(old(model)@, update(old(model)@.tasks, id, |x: TaskView| TaskView { waiting, ..x })),
{
    if let Some(t) = task_copy(&model.tasks, id) {
        let mut t = t;
        t.waiting = waiting;
        put_task(model, id, t);
    }
}

/// The task filed under an id closed at an instant, or opened again.
fn set_closed(model: &mut Model, id: Id, closed_at: Option<Stamp>)
    ensures
        final(model)@ == with_tasks(
            old(model)@,
            update(old(model)@.tasks, id, |x: TaskView| TaskView { closed_at: super::time::opt_instant(closed_at), ..x }),
        ),
{
    if let Some(t) = task_copy(&model.tasks, id) {
        let mut t = t;
        t.closed_at = closed_at;
        put_task(model, id, t);
    }
}

fn put_in_place_of(model: &mut Model, id: Id, place: Place, position: usize)
    ensures
        final(model)@ == with_tasks(old(model)@, put_in_place_spec(old(model)@.tasks, id, place, position)),
{
    put_in_place(&mut model.tasks, id, place, position);
}

fn set_position_of(model: &mut Model, id: Id, position: usize)
    ensures
        final(model)@ == with_tasks(old(model)@, set_position_spec(old(model)@.tasks, id, position)),
{
    set_position(&mut model.tasks, id, position);
}

fn end_of_place(model: &Model, place: Place) -> (end: usize)
    ensures
        end == order_of(model@.tasks, place).len(),
{
    end_of(&model.tasks, place)
}

#[verifier::rlimit(40)]
fn run_close(model: &mut Model, task: Id, now: &Stamp, today: Date) -> (r: Result<Option<Entry>, Rejected>)
    ensures
        close_spec(old(model)@, task, now@, today) == outcome(r, final(model)@),
        r is Err ==> final(model)@ == old(model)@,
{
    let cur = match model.live_task(task) {
        Some(t) => t.copy(),
        None => return Err(rejected("That task is gone.")),
    };
    if !cur.is_open() {
        return Err(rejected("That task is already closed."));
    }
    let id = cur.id;
    let from = cur.place();
    let mut drop_placement: Option<Date> = None;
    if from == Place::Backlog {
        let end = end_of_place(model, Place::Day(today));
        let wrote = place_on_day(model, id, today, now, FromPlace::of(from));
        if wrote {
            drop_placement = Some(today);
        }
        put_in_place_of(model, id, Place::Day(today), end);
        set_waiting_flag(model, id, false);
    }
    set_closed(model, id, Some(now.copy()));
    let entry = Entry {
        label: label("Closed", title_chars(&cur).as_slice()),
        inverse: Command::MoveBack {
            task: id,
            place: from,
            position: cur.position,
            waiting: cur.waiting,
            drop_placement,
        },
    };
    Ok(Some(entry))
}

fn run_reopen(model: &mut Model, task: Id) -> (r: Result<Option<Entry>, Rejected>)
    ensures
        reopen_spec(old(model)@, task) == outcome(r, final(model)@),
        r is Err ==> final(model)@ == old(model)@,
{
    let cur = match model.live_task(task) {
        Some(t) => t.copy(),
        None => return Err(rejected("That task is gone.")),
    };
    let closed_at = match &cur.closed_at {
        Some(c) => c.copy(),
        None => return Err(rejected("That task is not closed.")),
    };
    let id = cur.id;
    set_closed(model, id, None);
    set_position_of(model, id, usize::MAX);
    Ok(Some(Entry {
        label: label("Reopened", title_chars(&cur).as_slice()),
        inverse: Command::CloseAt { task: id, closed_at, position: cur.position },
    }))
}

fn run_set_focus(model: &mut Model, task: Id, focus: bool) -> (r: Result<Option<Entry>, Rejected>)
    ensures
        set_focus_spec(old(model)@, task, focus) == outcome(r, final(model)@),
        r is Err ==> final(model)@ == old(model)@,
{
    let cur = match model.live_task(task) {
        Some(t) => t.copy(),
        None => return Err(rejected("That task is gone.")),
    };
    if cur.day.is_none() {
        return Err(rejected("Focus is for tasks on a day."));
    }
    let was = cur.focus;
    let title = title_chars(&cur);
    let mut t = cur;
    t.focus = focus;
    put_task(model, task, t);
    let words = if focus {
        "Focused"
    } else {
        "Unfocused"
    };
    Ok(Some(Entry {
        label: label(words, title.as_slice()),
        inverse: Command::SetFocus { task, focus: was },
    }))
}

#[verifier::rlimit(40)]
fn run_move(model: &mut Model, task: Id, place: Place, now: &Stamp, today: Date, dates: DateOrder) -> (r: Result<Option<Entry>, Rejected>)
    ensures
        move_spec(old(model)@, task, place, now@, today, dates) == outcome(r, final(model)@),
        r is Err ==> final(model)@ == old(model)@,
{
    let cur = match model.live_task(task) {
        Some(t) => t.copy(),
        None => return Err(rejected("That task is gone.")),
    };
    if !cur.is_open() {
        return Err(rejected("A closed task stays where it was done."));
    }
    if cur.place() == place {
        return Err(rejected("The task is already there."));
    }
    let id = cur.id;
    let from = cur.place();
    let end = end_of_place(model, place);
    let mut drop_placement: Option<Date> = None;
    match place {
        Place::Day(day) => {
            if place_on_day(model, id, day, now, FromPlace::of(from)) {
                drop_placement = Some(day);
            }
        },
        Place::Backlog => {},
    }
    put_in_place_of(model, id, place, end);
    set_waiting_flag(model, id, false);
    let l = label("Moved", title_chars(&cur).as_slice());
    let mut words = chars_of(l.as_str());
    append_str(&mut words, " to ");
    let name = place_name(place, today, dates);
    append_all(&mut words, name.as_slice());
    Ok(Some(Entry {
        label: string_of(words.as_slice()),
        inverse: Command::MoveBack {
            task: id,
            place: from,
            position: cur.position,
            waiting: cur.waiting,
            drop_placement,
        },
    }))
}

fn run_reorder(model: &mut Model, task: Id, position: usize) -> (r: Result<Option<Entry>, Rejected>)
    ensures
        reorder_spec(old(model)@, task, position) == outcome(r, final(model)@),
        r is Err ==> final(model)@ == old(model)@,
{
    let cur = match model.live_task(task) {
        Some(t) => t.copy(),
        None => return Err(rejected("That task is gone.")),
    };
    set_position_of(model, cur.id, position);
    let l = label("Moved", title_chars(&cur).as_slice());
    let mut words = chars_of(l.as_str());
    append_str(&mut words, " in the list");
    Ok(Some(Entry {
        label: string_of(words.as_slice()),
        inverse: Command::Reorder { task: cur.id, position: cur.position },
    }))
}

#[verifier::rlimit(40)]
fn run_set_waiting(model: &mut Model, task: Id, waiting: bool) -> (r: Result<Option<Entry>, Rejected>)
    ensures
        set_waiting_spec(old(model)@, task, waiting) == outcome(r, final(model)@),
        r is Err ==> final(model)@ == old(model)@,
{
    let cur = match model.live_task(task) {
        Some(t) => t.copy(),
        None => return Err(rejected("That task is gone.")),
    };
    if !cur.is_open() {
        return Err(rejected("A closed task is not waiting on anyone."));
    }
    let id = cur.id;
    let from = cur.place();
    if waiting && from != Place::Backlog {
        let end = end_of_place(model, Place::Backlog);
        put_in_place_of(model, id, Place::Backlog, end);
        set_waiting_flag(model, id, true);
        return Ok(Some(Entry {
            label: label("Waiting on", title_chars(&cur).as_slice()),
            inverse: Command::MoveBack { task: id, place: from, position: cur.position, waiting: false, drop_placement: None },
        }));
    }
    set_waiting_flag(model, id, waiting);
    let words = if waiting {
        "Waiting on"
    } else {
        "No longer waiting on"
    };
    Ok(Some(Entry {
        label: label(words, title_chars(&cur).as_slice()),
        inverse: Command::SetWaiting { task: id, waiting: cur.waiting },
    }))
}

fn run_set_due(model: &mut Model, task: Id, date: Option<Date>) -> (r: Result<Option<Entry>, Rejected>)
    ensures
        set_due_spec(old(model)@, task, date) == outcome(r, final(model)@),
        r is Err ==> final(model)@ == old(model)@,
{
    let cur = match model.live_task(task) {
        Some(t) => t.copy(),
        None => return Err(rejected("That task is gone.")),
    };
    let was = cur.due_on;
    let title = title_chars(&cur);
    let mut t = cur;
    t.due_on = date;
    put_task(model, task, t);
    let words = match date {
        Some(_) => "Due date on",
        None => "Cleared the due date on",
    };
    Ok(Some(Entry { label: label(words, title.as_slice()), inverse: Command::SetDue { task, date: was } }))
}

fn run_set_remind(model: &mut Model, task: Id, date: Option<Date>) -> (r: Result<Option<Entry>, Rejected>)
    ensures
        set_remind_spec(old(model)@, task, date) == outcome(r, final(model)@),
        r is Err ==> final(model)@ == old(model)@,
{
    let cur = match model.live_task(task) {
        Some(t) => t.copy(),
        None => return Err(rejected("That task is gone.")),
    };
    let was = cur.remind_on;
    let title = title_chars(&cur);
    let mut t = cur;
    t.remind_on = date;
    put_task(model, task, t);
    let words = match date {
        Some(_) => "Reminder on",
        None => "Cleared the reminder on",
    };
    Ok(Some(Entry { label: label(words, title.as_slice()), inverse: Command::SetRemind { task, date: was } }))
}

fn run_delete_task(model: &mut Model, task: Id, now: &Stamp) -> (r: Result<Option<Entry>, Rejected>)
    ensures
        delete_task_spec(old(model)@, task, now@) == outcome(r, final(model)@),
        r is Err ==> final(model)@ == old(model)@,
{
    let cur = match model.live_task(task) {
        Some(t) => t.copy(),
        None => return Err(rejected("That task is gone.")),
    };
    let id = cur.id;
    if let Some(t) = task_copy(&model.tasks, id) {
        let mut t = t;
        t.deleted_at = Some(now.copy());
        put_task(model, id, t);
    }
    renumber(&mut model.tasks, cur.place());
    Ok(Some(Entry {
        label: label("Deleted", title_chars(&cur).as_slice()),
        inverse: Command::RestoreTask { task: id, position: cur.position },
    }))
}

// ---- schedules and notes ---------------------------------------------

pub open spec fn schedule_gone() -> Seq<char> {
    "That repeat schedule is gone."@
}

pub open spec fn note_gone() -> Seq<char> {
    "That note is gone."@
}

pub open spec fn never_comes_round() -> Seq<char> {
    "That repeat never comes round."@
}

/// Why a schedule cannot be changed, if it cannot.
pub open spec fn unstopped(m: ModelView, schedule: Id) -> Option<Seq<char>> {
    if !m.schedules.contains_key(schedule) {
        Some(schedule_gone())
    } else if m.schedules[schedule].stopped_on is Some {
        Some("That repeat has stopped."@)
    } else {
        None
    }
}

pub open spec fn live_note(m: ModelView, note: Id) -> bool {
    m.notes.contains_key(note) && m.notes[note].deleted_at is None
}

pub open spec fn with_schedules(m: ModelView, schedules: Map<Id, ScheduleView>) -> ModelView {
    ModelView { schedules, ..m }
}

pub open spec fn with_notes(m: ModelView, notes: Map<Id, NoteView>) -> ModelView {
    ModelView { notes, ..m }
}

pub open spec fn create_schedule_spec(m: ModelView, task: Id, rule: RuleView, now: int, today: Date) -> Outcome {
    if !live(m, task) {
        Err(gone())
    } else {
        let cur = m.tasks[task];
        if cur.schedule_id is Some {
            Err("That task already repeats."@)
        } else if !usable(rule) {
            Err(never_comes_round())
        } else {
            let id = cur.id;
            let scheduled_on = match cur.day {
                Some(d) => d,
                None => today,
            };
            let sid = next_id_of(m.schedules.dom()) as Id;
            let m1 = with_schedules(
                m,
                m.schedules.insert(
                    sid,
                    ScheduleView {
                        id: sid,
                        title: cur.title,
                        rule,
                        generated_through: scheduled_on,
                        stopped_on: None,
                        created_at: now,
                    },
                ),
            );
            let m2 = with_tasks(
                m1,
                update(m1.tasks, id, |x: TaskView| TaskView { schedule_id: Some(sid), scheduled_on: Some(scheduled_on), ..x }),
            );
            Ok((
                m2,
                Some((label_of("Set"@, cur.title) + " to repeat"@, CommandView::UncreateSchedule { task: id, schedule: sid })),
            ))
        }
    }
}

pub open spec fn set_rule_spec(m: ModelView, schedule: Id, rule: RuleView) -> Outcome {
    match unstopped(m, schedule) {
        Some(why) => Err(why),
        None => if !usable(rule) {
            Err(never_comes_round())
        } else {
            let cur = m.schedules[schedule];
            Ok((
                with_schedules(m, m.schedules.insert(schedule, ScheduleView { rule, ..cur })),
                Some((label_of("Changed the repeat of"@, cur.title), CommandView::SetRule { schedule, rule: cur.rule })),
            ))
        },
    }
}

pub open spec fn stop_schedule_spec(m: ModelView, schedule: Id, today: Date) -> Outcome {
    match unstopped(m, schedule) {
        Some(why) => Err(why),
        None => {
            let cur = m.schedules[schedule];
            Ok((
                with_schedules(m, m.schedules.insert(schedule, ScheduleView { stopped_on: Some(today), ..cur })),
                Some((label_of("Stopped repeating"@, cur.title), CommandView::ResumeSchedule { schedule })),
            ))
        },
    }
}

pub open spec fn edit_schedule_title_spec(m: ModelView, schedule: Id, title: Seq<char>) -> Outcome {
    match title_of(title) {
        Err(e) => Err(e),
        Ok(t) => if !m.schedules.contains_key(schedule) {
            Err(schedule_gone())
        } else {
            let cur = m.schedules[schedule];
            Ok((
                with_schedules(m, m.schedules.insert(schedule, ScheduleView { title: t, ..cur })),
                Some((label_of("Renamed the repeat"@, t), CommandView::EditScheduleTitle { schedule, title: cur.title })),
            ))
        },
    }
}

pub open spec fn create_note_spec(m: ModelView, now: int) -> Outcome {
    let id = next_id_of(m.notes.dom()) as Id;
    Ok((
        with_notes(
            m,
            m.notes.insert(id, NoteView { id, body: Seq::empty(), created_at: now, updated_at: now, deleted_at: None }),
        ),
        Some(("Added a note"@, CommandView::DeleteNote { note: id })),
    ))
}

pub open spec fn edit_note_spec(m: ModelView, note: Id, body: Seq<char>, now: int) -> Outcome {
    if !live_note(m, note) {
        Err(note_gone())
    } else {
        Ok((with_notes(m, m.notes.insert(note, NoteView { body, updated_at: now, ..m.notes[note] })), None))
    }
}

pub open spec fn replace_note_spec(m: ModelView, note: Id, body: Seq<char>, now: int) -> Outcome {
    if !live_note(m, note) {
        Err(note_gone())
    } else {
        let cur = m.notes[note];
        Ok((
            with_notes(m, m.notes.insert(note, NoteView { body, updated_at: now, ..cur })),
            Some(("Replaced a note"@, CommandView::RestoreNoteBody { note, body: cur.body, updated_at: cur.updated_at })),
        ))
    }
}

pub open spec fn delete_note_spec(m: ModelView, note: Id, now: int) -> Outcome {
    if !live_note(m, note) {
        Err(note_gone())
    } else {
        Ok((
            with_notes(m, m.notes.insert(note, NoteView { deleted_at: Some(now), ..m.notes[note] })),
            Some(("Deleted a note"@, CommandView::RestoreNote { note })),
        ))
    }
}

// ---- the inverses ----------------------------------------------------

pub open spec fn move_back_spec(m: ModelView, task: Id, place: Place, position: usize, waiting: bool, drop: Option<Date>) -> Outcome {
    if !live(m, task) {
        Err(gone())
    } else {
        let id = m.tasks[task].id;
        let m1 = with_tasks(m, put_in_place_spec(m.tasks, id, place, position));
        let m2 = with_tasks(
            m1,
            update(m1.tasks, id, |x: TaskView| TaskView { waiting: waiting && day_of(place) is None, closed_at: None, ..x }),
        );
        let m3 = match drop {
            Some(d) => ModelView { placements: m2.placements.remove(key_of(id, d)), ..m2 },
            None => m2,
        };
        Ok((m3, None))
    }
}

pub open spec fn close_at_spec(m: ModelView, task: Id, closed_at: int, position: usize) -> Outcome {
    if !live(m, task) {
        Err(gone())
    } else if !m.tasks[task].open() {
        Err("That task is already closed."@)
    } else {
        let id = m.tasks[task].id;
        let m1 = with_tasks(m, update(m.tasks, id, |x: TaskView| TaskView { closed_at: Some(closed_at), ..x }));
        Ok((with_tasks(m1, set_position_spec(m1.tasks, id, position)), None))
    }
}

pub open spec fn restore_task_spec(m: ModelView, task: Id, position: usize) -> Outcome {
    if !m.tasks.contains_key(task) {
        Err(gone())
    } else if m.tasks[task].live() {
        Err("That task is already back."@)
    } else {
        let id = m.tasks[task].id;
        let m1 = with_tasks(m, update(m.tasks, id, |x: TaskView| TaskView { deleted_at: None, ..x }));
        Ok((with_tasks(m1, set_position_spec(m1.tasks, id, position)), None))
    }
}

/// No task points at a schedule.
pub open spec fn orphan(tasks: Map<Id, TaskView>, schedule: Id) -> bool {
    forall|k: Id| #[trigger] tasks.contains_key(k) ==> tasks[k].schedule_id != Some(schedule)
}

pub open spec fn uncreate_schedule_spec(m: ModelView, task: Id, schedule: Id) -> Outcome {
    if !live(m, task) {
        Err(gone())
    } else if m.tasks[task].schedule_id != Some(schedule) {
        Err("That task no longer repeats."@)
    } else {
        let id = m.tasks[task].id;
        let m1 = with_tasks(m, update(m.tasks, id, |x: TaskView| TaskView { schedule_id: None, scheduled_on: None, ..x }));
        let m2 = if orphan(m1.tasks, schedule) {
            with_schedules(m1, m1.schedules.remove(schedule))
        } else {
            m1
        };
        Ok((m2, None))
    }
}

pub open spec fn resume_schedule_spec(m: ModelView, schedule: Id) -> Outcome {
    if !m.schedules.contains_key(schedule) {
        Err(schedule_gone())
    } else {
        Ok((with_schedules(m, m.schedules.insert(schedule, ScheduleView { stopped_on: None, ..m.schedules[schedule] })), None))
    }
}

pub open spec fn restore_note_spec(m: ModelView, note: Id) -> Outcome {
    if !m.notes.contains_key(note) {
        Err(note_gone())
    } else if m.notes[note].deleted_at is None {
        Err("That note is already back."@)
    } else {
        Ok((with_notes(m, m.notes.insert(note, NoteView { deleted_at: None, ..m.notes[note] })), None))
    }
}

pub open spec fn restore_note_body_spec(m: ModelView, note: Id, body: Seq<char>, updated_at: int) -> Outcome {
    if !live_note(m, note) {
        Err(note_gone())
    } else {
        Ok((with_notes(m, m.notes.insert(note, NoteView { body, updated_at, ..m.notes[note] })), None))
    }
}

pub(crate) fn put_schedule(model: &mut Model, id: Id, s: Schedule)
    ensures
        final(model)@ == with_schedules(old(model)@, old(model)@.schedules.insert(id, s@)),
{
    proof {
        assert(schedules_view(model.schedules@.insert(id, s)) =~= schedules_view(model.schedules@).insert(id, s@));
    }
    model.schedules.insert(id, s);
}

fn put_note(model: &mut Model, id: Id, n: Note)
    ensures
        final(model)@ == with_notes(old(model)@, old(model)@.notes.insert(id, n@)),
{
    proof {
        assert(notes_view(model.notes@.insert(id, n)) =~= notes_view(model.notes@).insert(id, n@));
    }
    model.notes.insert(id, n);
}

/// A copy of the schedule that can still be changed, or why it cannot.
fn unstopped_copy(model: &Model, schedule: Id) -> (r: Result<Schedule, Rejected>)
    ensures
        match r {
            Ok(s) => unstopped(model@, schedule) is None && s@ == model@.schedules[schedule],
            Err(e) => unstopped(model@, schedule) == Some(e.0@),
        },
{
    match model.schedule(schedule) {
        None => Err(rejected("That repeat schedule is gone.")),
        Some(s) => if s.is_stopped() {
            Err(rejected("That repeat has stopped."))
        } else {
            Ok(s.copy())
        },
    }
}

/// A copy of the live note, or why there is none.
fn live_note_copy(model: &Model, note: Id) -> (r: Result<Note, Rejected>)
    ensures
        match r {
            Ok(n) => live_note(model@, note) && n@ == model@.notes[note],
            Err(e) => !live_note(model@, note) && e.0@ == note_gone(),
        },
{
    match model.note(note) {
        Some(n) => if n.is_live() {
            Ok(n.copy())
        } else {
            Err(rejected("That note is gone."))
        },
        None => Err(rejected("That note is gone.")),
    }
}

#[verifier::rlimit(30)]
fn run_create_schedule(model: &mut Model, task: Id, rule: &Rule, now: &Stamp, today: Date) -> (r: Result<Option<Entry>, Rejected>)
    requires
        ids_fit(old(model)@.schedules.dom()),
    ensures
        create_schedule_spec(old(model)@, task, rule@, now@, today) == outcome(r, final(model)@),
        r is Err ==> final(model)@ == old(model)@,
{
    let cur = match model.live_task(task) {
        Some(t) => t.copy(),
        None => return Err(rejected("That task is gone.")),
    };
    if cur.schedule_id.is_some() {
        return Err(rejected("That task already repeats."));
    }
    if !rule.is_usable() {
        return Err(rejected("That repeat never comes round."));
    }
    let id = cur.id;
    let scheduled_on = match cur.day {
        Some(d) => d,
        None => today,
    };
    proof {
        assert(schedules_view(model.schedules@).dom() =~= model.schedules@.dom());
    }
    let schedule = next_key(&model.schedules);
    let row = Schedule {
        id: schedule,
        title: copy_string(&cur.title),
        rule: rule.copy(),
        generated_through: scheduled_on,
        stopped_on: None,
        created_at: now.copy(),
    };
    put_schedule(model, schedule, row);
    if let Some(t) = task_copy(&model.tasks, id) {
        let mut t = t;
        t.schedule_id = Some(schedule);
        t.scheduled_on = Some(scheduled_on);
        put_task(model, id, t);
    }
    let l = label("Set", title_chars(&cur).as_slice());
    let mut words = chars_of(l.as_str());
    append_str(&mut words, " to repeat");
    Ok(Some(Entry {
        label: string_of(words.as_slice()),
        inverse: Command::UncreateSchedule { task: id, schedule },
    }))
}

fn run_set_rule(model: &mut Model, schedule: Id, rule: &Rule) -> (r: Result<Option<Entry>, Rejected>)
    ensures
        set_rule_spec(old(model)@, schedule, rule@) == outcome(r, final(model)@),
        r is Err ==> final(model)@ == old(model)@,
{
    let cur = match unstopped_copy(model, schedule) {
        Ok(s) => s,
        Err(e) => return Err(e),
    };
    if !rule.is_usable() {
        return Err(rejected("That repeat never comes round."));
    }
    let was = cur.rule.copy();
    let title = chars_of(cur.title.as_str());
    let mut s = cur;
    s.rule = rule.copy();
    put_schedule(model, schedule, s);
    Ok(Some(Entry {
        label: label("Changed the repeat of", title.as_slice()),
        inverse: Command::SetRule { schedule, rule: was },
    }))
}

fn run_stop_schedule(model: &mut Model, schedule: Id, today: Date) -> (r: Result<Option<Entry>, Rejected>)
    ensures
        stop_schedule_spec(old(model)@, schedule, today) == outcome(r, final(model)@),
        r is Err ==> final(model)@ == old(model)@,
{
    let cur = match unstopped_copy(model, schedule) {
        Ok(s) => s,
        Err(e) => return Err(e),
    };
    let title = chars_of(cur.title.as_str());
    let mut s = cur;
    s.stopped_on = Some(today);
    put_schedule(model, schedule, s);
    Ok(Some(Entry { label: label("Stopped repeating", title.as_slice()), inverse: Command::ResumeSchedule { schedule } }))
}

fn run_edit_schedule_title(model: &mut Model, schedule: Id, title: &String) -> (r: Result<Option<Entry>, Rejected>)
    ensures
        edit_schedule_title_spec(old(model)@, schedule, title@) == outcome(r, final(model)@),
        r is Err ==> final(model)@ == old(model)@,
{
    let title = match valid_title(title) {
        Ok(t) => t,
        Err(e) => return Err(e),
    };
    let cur = match model.schedule(schedule) {
        Some(s) => s.copy(),
        None => return Err(rejected("That repeat schedule is gone.")),
    };
    let was = copy_string(&cur.title);
    let mut s = cur;
    s.title = copy_string(&title);
    put_schedule(model, schedule, s);
    Ok(Some(Entry {
        label: label("Renamed the repeat", chars_of(title.as_str()).as_slice()),
        inverse: Command::EditScheduleTitle { schedule, title: was },
    }))
}

fn run_create_note(model: &mut Model, now: &Stamp) -> (r: Result<Option<Entry>, Rejected>)
    requires
        ids_fit(old(model)@.notes.dom()),
    ensures
        create_note_spec(old(model)@, now@) == outcome(r, final(model)@),
        r is Err ==> final(model)@ == old(model)@,
{
    proof {
        assert(notes_view(model.notes@).dom() =~= model.notes@.dom());
    }
    let id = next_key(&model.notes);
    let row = Note { id, body: String::new(), created_at: now.copy(), updated_at: now.copy(), deleted_at: None };
    assert(row@.body =~= Seq::<char>::empty());
    put_note(model, id, row);
    let label = string_of(chars_of("Added a note").as_slice());
    Ok(Some(Entry { label, inverse: Command::DeleteNote { note: id } }))
}

fn run_edit_note(model: &mut Model, note: Id, body: &String, now: &Stamp) -> (r: Result<Option<Entry>, Rejected>)
    ensures
        edit_note_spec(old(model)@, note, body@, now@) == outcome(r, final(model)@),
        r is Err ==> final(model)@ == old(model)@,
{
    let cur = match live_note_copy(model, note) {
        Ok(n) => n,
        Err(e) => return Err(e),
    };
    let mut n = cur;
    n.body = copy_string(body);
    n.updated_at = now.copy();
    put_note(model, note, n);
    Ok(None)
}

fn run_replace_note(model: &mut Model, note: Id, body: &String, now: &Stamp) -> (r: Result<Option<Entry>, Rejected>)
    ensures
        replace_note_spec(old(model)@, note, body@, now@) == outcome(r, final(model)@),
        r is Err ==> final(model)@ == old(model)@,
{
    let cur = match live_note_copy(model, note) {
        Ok(n) => n,
        Err(e) => return Err(e),
    };
    let was = copy_string(&cur.body);
    let was_at = cur.updated_at.copy();
    let mut n = cur;
    n.body = copy_string(body);
    n.updated_at = now.copy();
    put_note(model, note, n);
    Ok(Some(Entry {
        label: string_of(chars_of("Replaced a note").as_slice()),
        inverse: Command::RestoreNoteBody { note, body: was, updated_at: was_at },
    }))
}

fn run_delete_note(model: &mut Model, note: Id, now: &Stamp) -> (r: Result<Option<Entry>, Rejected>)
    ensures
        delete_note_spec(old(model)@, note, now@) == outcome(r, final(model)@),
        r is Err ==> final(model)@ == old(model)@,
{
    let cur = match live_note_copy(model, note) {
        Ok(n) => n,
        Err(e) => return Err(e),
    };
    let mut n = cur;
    n.deleted_at = Some(now.copy());
    put_note(model, note, n);
    Ok(Some(Entry { label: string_of(chars_of("Deleted a note").as_slice()), inverse: Command::RestoreNote { note } }))
}

#[verifier::rlimit(30)]
fn run_move_back(model: &mut Model, task: Id, place: Place, position: usize, waiting: bool, drop: Option<Date>) -> (r: Result<Option<Entry>, Rejected>)
    ensures
        move_back_spec(old(model)@, task, place, position, waiting, drop) == outcome(r, final(model)@),
        r is Err ==> final(model)@ == old(model)@,
{
    let id = match model.live_task(task) {
        Some(t) => t.id,
        None => return Err(rejected("That task is gone.")),
    };
    put_in_place_of(model, id, place, position);
    if let Some(t) = task_copy(&model.tasks, id) {
        let mut t = t;
        t.waiting = waiting && place.day().is_none();
        t.closed_at = None;
        put_task(model, id, t);
    }
    if let Some(day) = drop {
        let key = placement_key(id, day);
        proof {
            assert(placements_view(model.placements@.remove(key)) =~= placements_view(model.placements@).remove(key));
        }
        model.placements.remove(&key);
    }
    Ok(None)
}

fn run_close_at(model: &mut Model, task: Id, closed_at: &Stamp, position: usize) -> (r: Result<Option<Entry>, Rejected>)
    ensures
        close_at_spec(old(model)@, task, closed_at@, position) == outcome(r, final(model)@),
        r is Err ==> final(model)@ == old(model)@,
{
    let cur = match model.live_task(task) {
        Some(t) => t.copy(),
        None => return Err(rejected("That task is gone.")),
    };
    if !cur.is_open() {
        return Err(rejected("That task is already closed."));
    }
    let id = cur.id;
    set_closed(model, id, Some(closed_at.copy()));
    set_position_of(model, id, position);
    Ok(None)
}

fn run_restore_task(model: &mut Model, task: Id, position: usize) -> (r: Result<Option<Entry>, Rejected>)
    ensures
        restore_task_spec(old(model)@, task, position) == outcome(r, final(model)@),
        r is Err ==> final(model)@ == old(model)@,
{
    let cur = match model.task(task) {
        Some(t) => t.copy(),
        None => return Err(rejected("That task is gone.")),
    };
    if cur.is_live() {
        return Err(rejected("That task is already back."));
    }
    let id = cur.id;
    if let Some(t) = task_copy(&model.tasks, id) {
        let mut t = t;
        t.deleted_at = None;
        put_task(model, id, t);
    }
    set_position_of(model, id, position);
    Ok(None)
}

/// Whether no task points at a schedule.
fn no_task_points_at(table: &BTreeMap<Id, Task>, schedule: Id) -> (r: bool)
    ensures
        r == orphan(tasks_view(table@), schedule),
{
    let ghost items = table.iter().remaining();
    for kv in it: table.iter()
        invariant
            it.seq() == items,
            forall|i: int| 0 <= i < items.len() ==> table@.contains_key(*items[i].0) && table@[*items[i].0] == *items[i].1,
            forall|k: Id| #[trigger] table@.contains_key(k) ==> items.contains((&k, &table@[k])),
            forall|i: int| 0 <= i < it.index() ==> (*#[trigger] items[i].1).schedule_id != Some(schedule),
    {
        let (k, t) = kv;
        proof {
            assert(items[it.index()] == (k, t));
        }
        if t.schedule_id == Some(schedule) {
            proof {
                assert(tasks_view(table@).contains_key(*k));
                assert(tasks_view(table@)[*k].schedule_id == Some(schedule));
            }
            return false;
        }
    }
    proof {
        assert forall|k: Id| #[trigger] tasks_view(table@).contains_key(k) implies tasks_view(table@)[k].schedule_id != Some(schedule) by {
            assert(items.contains((&k, &table@[k])));
            let i = choose|i: int| 0 <= i < items.len() && items[i] == (&k, &table@[k]);
            assert(*items[i].1 == table@[k]);
        }
    }
    true
}

fn run_uncreate_schedule(model: &mut Model, task: Id, schedule: Id) -> (r: Result<Option<Entry>, Rejected>)
    ensures
        uncreate_schedule_spec(old(model)@, task, schedule) == outcome(r, final(model)@),
        r is Err ==> final(model)@ == old(model)@,
{
    let cur = match model.live_task(task) {
        Some(t) => t.copy(),
        None => return Err(rejected("That task is gone.")),
    };
    if cur.schedule_id != Some(schedule) {
        return Err(rejected("That task no longer repeats."));
    }
    let id = cur.id;
    if let Some(t) = task_copy(&model.tasks, id) {
        let mut t = t;
        t.schedule_id = None;
        t.scheduled_on = None;
        put_task(model, id, t);
    }
    if no_task_points_at(&model.tasks, schedule) {
        proof {
            assert(schedules_view(model.schedules@.remove(schedule)) =~= schedules_view(model.schedules@).remove(schedule));
        }
        model.schedules.remove(&schedule);
    }
    Ok(None)
}

fn run_resume_schedule(model: &mut Model, schedule: Id) -> (r: Result<Option<Entry>, Rejected>)
    ensures
        resume_schedule_spec(old(model)@, schedule) == outcome(r, final(model)@),
        r is Err ==> final(model)@ == old(model)@,
{
    let cur = match model.schedule(schedule) {
        Some(s) => s.copy(),
        None => return Err(rejected("That repeat schedule is gone.")),
    };
    let mut s = cur;
    s.stopped_on = None;
    put_schedule(model, schedule, s);
    Ok(None)
}

fn run_restore_note(model: &mut Model, note: Id) -> (r: Result<Option<Entry>, Rejected>)
    ensures
        restore_note_spec(old(model)@, note) == outcome(r, final(model)@),
        r is Err ==> final(model)@ == old(model)@,
{
    let cur = match model.note(note) {
        Some(n) => n.copy(),
        None => return Err(rejected("That note is gone.")),
    };
    if cur.is_live() {
        return Err(rejected("That note is already back."));
    }
    let mut n = cur;
    n.deleted_at = None;
    put_note(model, note, n);
    Ok(None)
}

fn run_restore_note_body(model: &mut Model, note: Id, body: &String, updated_at: &Stamp) -> (r: Result<Option<Entry>, Rejected>)
    ensures
        restore_note_body_spec(old(model)@, note, body@, updated_at@) == outcome(r, final(model)@),
        r is Err ==> final(model)@ == old(model)@,
{
    let cur = match live_note_copy(model, note) {
        Ok(n) => n,
        Err(e) => return Err(e),
    };
    let mut n = cur;
    n.body = copy_string(body);
    n.updated_at = updated_at.copy();
    put_note(model, note, n);
    Ok(None)
}

// ---- one command -----------------------------------------------------

/// What a command does to a model, or why it is refused.
pub open spec fn run_spec(m: ModelView, c: CommandView, now: int, today: Date, dates: DateOrder) -> Outcome
    decreases c,
{
    match c {
        CommandView::AddTask { title, place } => add_task_spec(m, title, place, now),
        CommandView::EditTitle { task, title } => edit_title_spec(m, task, title),
        CommandView::EditTitleAndFuture { task, title, schedule_title } =>
            edit_title_and_future_spec(m, task, title, schedule_title),
        CommandView::Close { task } => close_spec(m, task, now, today),
        CommandView::Reopen { task } => reopen_spec(m, task),
        CommandView::SetFocus { task, focus } => set_focus_spec(m, task, focus),
        CommandView::Move { task, place } => move_spec(m, task, place, now, today, dates),
        CommandView::Reorder { task, position } => reorder_spec(m, task, position),
        CommandView::SetWaiting { task, waiting } => set_waiting_spec(m, task, waiting),
        CommandView::SetDue { task, date } => set_due_spec(m, task, date),
        CommandView::SetRemind { task, date } => set_remind_spec(m, task, date),
        CommandView::DeleteTask { task } => delete_task_spec(m, task, now),
        CommandView::CreateSchedule { task, rule } => create_schedule_spec(m, task, rule, now, today),
        CommandView::SetRule { schedule, rule } => set_rule_spec(m, schedule, rule),
        CommandView::StopSchedule { schedule } => stop_schedule_spec(m, schedule, today),
        CommandView::EditScheduleTitle { schedule, title } => edit_schedule_title_spec(m, schedule, title),
        CommandView::CreateNote => create_note_spec(m, now),
        CommandView::EditNote { note, body } => edit_note_spec(m, note, body, now),
        CommandView::ReplaceNote { note, body } => replace_note_spec(m, note, body, now),
        CommandView::DeleteNote { note } => delete_note_spec(m, note, now),
        CommandView::MoveBack { task, place, position, waiting, drop_placement } =>
            move_back_spec(m, task, place, position, waiting, drop_placement),
        CommandView::CloseAt { task, closed_at, position } => close_at_spec(m, task, closed_at, position),
        CommandView::RestoreTask { task, position } => restore_task_spec(m, task, position),
        CommandView::UncreateSchedule { task, schedule } => uncreate_schedule_spec(m, task, schedule),
        CommandView::ResumeSchedule { schedule } => resume_schedule_spec(m, schedule),
        CommandView::RestoreNote { note } => restore_note_spec(m, note),
        CommandView::RestoreNoteBody { note, body, updated_at } =>
            restore_note_body_spec(m, note, body, updated_at),
        // Every one of them, or none.
        CommandView::Sequence(commands) => match run_all(m, commands, now, today, dates) {
            Ok(m1) => Ok((m1, None)),
            Err(e) => Err(e),
        },
    }
}

/// What a command does to a model, as the name a caller reasons with:
/// `run_spec` unfolded only where it is revealed.
#[verifier::opaque]
pub open spec fn run_outcome(m: ModelView, c: CommandView, now: int, today: Date, dates: DateOrder) -> Outcome {
    run_spec(m, c, now, today, dates)
}

/// Commands applied in order, each to what the one before it left; the
/// first refusal is the whole answer.
pub open spec fn run_all(m: ModelView, cs: Seq<CommandView>, now: int, today: Date, dates: DateOrder) -> Result<ModelView, Seq<char>>
    decreases cs,
{
    if cs.len() == 0 {
        Ok(m)
    } else {
        match run_spec(m, cs[0], now, today, dates) {
            Err(e) => Err(e),
            Ok((m1, _)) => run_all(m1, cs.subrange(1, cs.len() as int), now, today, dates),
        }
    }
}

/// A command that makes a row has an id to give it: no id of that table
/// is already the largest there is. (Past it the next id would not fit.)
pub open spec fn fits(m: ModelView, c: CommandView, now: int, today: Date, dates: DateOrder) -> bool
    decreases c,
{
    match c {
        CommandView::AddTask { .. } => ids_fit(m.tasks.dom()),
        CommandView::CreateSchedule { .. } => ids_fit(m.schedules.dom()),
        CommandView::CreateNote => ids_fit(m.notes.dom()),
        CommandView::Sequence(commands) => all_fit(m, commands, now, today, dates),
        _ => true,
    }
}

/// Every command of a list fits the model the ones before it leave.
pub open spec fn all_fit(m: ModelView, cs: Seq<CommandView>, now: int, today: Date, dates: DateOrder) -> bool
    decreases cs,
{
    if cs.len() == 0 {
        true
    } else {
        fits(m, cs[0], now, today, dates) && match run_spec(m, cs[0], now, today, dates) {
            Err(_) => true,
            Ok((m1, _)) => all_fit(m1, cs.subrange(1, cs.len() as int), now, today, dates),
        }
    }
}

/// Applies a command to a working copy of the model, or says why it
/// cannot. `None` is a command that pushes nothing on the undo stack.
#[verifier::rlimit(100)]
pub fn run(model: &mut Model, command: &Command, now: &Stamp, today: Date, dates: DateOrder) -> (r: Result<Option<Entry>, Rejected>)
    requires
        fits(old(model)@, command@, now@, today, dates),
    ensures
        run_outcome(old(model)@, command@, now@, today, dates) == outcome(r, final(model)@),
        r is Err ==> final(model)@ == old(model)@,
    decreases command,
{
    proof {
        reveal(run_outcome);
    }
    match command {
        Command::AddTask { title, place } => run_add(model, title, *place, now),
        Command::EditTitle { task, title } => run_edit_title(model, *task, title),
        Command::EditTitleAndFuture { task, title, schedule_title } =>
            run_edit_title_and_future(model, *task, title, schedule_title),
        Command::Close { task } => run_close(model, *task, now, today),
        Command::Reopen { task } => run_reopen(model, *task),
        Command::SetFocus { task, focus } => run_set_focus(model, *task, *focus),
        Command::Move { task, place } => run_move(model, *task, *place, now, today, dates),
        Command::Reorder { task, position } => run_reorder(model, *task, *position),
        Command::SetWaiting { task, waiting } => run_set_waiting(model, *task, *waiting),
        Command::SetDue { task, date } => run_set_due(model, *task, *date),
        Command::SetRemind { task, date } => run_set_remind(model, *task, *date),
        Command::DeleteTask { task } => run_delete_task(model, *task, now),
        Command::CreateSchedule { task, rule } => run_create_schedule(model, *task, rule, now, today),
        Command::SetRule { schedule, rule } => run_set_rule(model, *schedule, rule),
        Command::StopSchedule { schedule } => run_stop_schedule(model, *schedule, today),
        Command::EditScheduleTitle { schedule, title } => run_edit_schedule_title(model, *schedule, title),
        Command::CreateNote => run_create_note(model, now),
        Command::EditNote { note, body } => run_edit_note(model, *note, body, now),
        Command::ReplaceNote { note, body } => run_replace_note(model, *note, body, now),
        Command::DeleteNote { note } => run_delete_note(model, *note, now),
        Command::MoveBack { task, place, position, waiting, drop_placement } =>
            run_move_back(model, *task, *place, *position, *waiting, *drop_placement),
        Command::CloseAt { task, closed_at, position } => run_close_at(model, *task, closed_at, *position),
        Command::RestoreTask { task, position } => run_restore_task(model, *task, *position),
        Command::UncreateSchedule { task, schedule } => run_uncreate_schedule(model, *task, *schedule),
        Command::ResumeSchedule { schedule } => run_resume_schedule(model, *schedule),
        Command::RestoreNote { note } => run_restore_note(model, *note),
        Command::RestoreNoteBody { note, body, updated_at } =>
            run_restore_note_body(model, *note, body, updated_at),
        // Every one of them, or none: the model is only written back once
        // they have all held, so an inverse that has been overtaken half
        // way through takes the whole entry with it.
        Command::Sequence(commands) => {
            proof {
                assert(decreases_to!(*command => *commands));
                assert(decreases_to!(*commands => commands@));
            }
            match run_sequence(model, commands, now, today, dates) {
                Ok(()) => Ok(None),
                Err(e) => Err(e),
            }
        },
    }
}

/// How far a run through a list of commands has got: the commands from
/// `i` on, applied to `w`, come to what the whole list comes to from
/// `m0`, and each of them fits.
#[verifier::opaque]
spec fn progress(m0: ModelView, cs: Seq<CommandView>, w: ModelView, i: int, now: int, today: Date, dates: DateOrder) -> bool {
    &&& 0 <= i <= cs.len()
    &&& run_all(m0, cs, now, today, dates) == run_all(w, cs.subrange(i, cs.len() as int), now, today, dates)
    &&& all_fit(w, cs.subrange(i, cs.len() as int), now, today, dates)
}

proof fn lemma_progress_start(m0: ModelView, cs: Seq<CommandView>, now: int, today: Date, dates: DateOrder)
    requires
        all_fit(m0, cs, now, today, dates),
    ensures
        progress(m0, cs, m0, 0, now, today, dates),
{
    reveal(progress);
    assert(cs.subrange(0, cs.len() as int) =~= cs);
}

proof fn lemma_progress_fits(m0: ModelView, cs: Seq<CommandView>, w: ModelView, i: int, now: int, today: Date, dates: DateOrder)
    requires
        progress(m0, cs, w, i, now, today, dates),
        i < cs.len(),
    ensures
        fits(w, cs[i], now, today, dates),
{
    reveal(progress);
    assert(cs.subrange(i, cs.len() as int)[0] == cs[i]);
}

proof fn lemma_progress_err(m0: ModelView, cs: Seq<CommandView>, w: ModelView, i: int, now: int, today: Date, dates: DateOrder, x: Seq<char>)
    requires
        progress(m0, cs, w, i, now, today, dates),
        i < cs.len(),
        run_outcome(w, cs[i], now, today, dates) == Err::<(ModelView, Option<(Seq<char>, CommandView)>), Seq<char>>(x),
    ensures
        run_all(m0, cs, now, today, dates) == Err::<ModelView, Seq<char>>(x),
{
    reveal(progress);
    reveal(run_outcome);
    assert(cs.subrange(i, cs.len() as int)[0] == cs[i]);
}

proof fn lemma_progress_ok(
    m0: ModelView,
    cs: Seq<CommandView>,
    w: ModelView,
    i: int,
    now: int,
    today: Date,
    dates: DateOrder,
    w1: ModelView,
    e: Option<(Seq<char>, CommandView)>,
)
    requires
        progress(m0, cs, w, i, now, today, dates),
        i < cs.len(),
        run_outcome(w, cs[i], now, today, dates) == Ok::<(ModelView, Option<(Seq<char>, CommandView)>), Seq<char>>((w1, e)),
    ensures
        progress(m0, cs, w1, i + 1, now, today, dates),
{
    reveal(progress);
    reveal(run_outcome);
    let rest = cs.subrange(i, cs.len() as int);
    assert(rest[0] == cs[i]);
    assert(rest.subrange(1, rest.len() as int) =~= cs.subrange(i + 1, cs.len() as int));
}

proof fn lemma_progress_done(m0: ModelView, cs: Seq<CommandView>, w: ModelView, now: int, today: Date, dates: DateOrder)
    requires
        progress(m0, cs, w, cs.len() as int, now, today, dates),
    ensures
        run_all(m0, cs, now, today, dates) == Ok::<ModelView, Seq<char>>(w),
{
    reveal(progress);
    assert(cs.subrange(cs.len() as int, cs.len() as int) =~= Seq::<CommandView>::empty());
}

/// Commands applied in order to a working copy, which is written back
/// only once every one of them has held.
fn run_sequence(model: &mut Model, commands: &Vec<Command>, now: &Stamp, today: Date, dates: DateOrder) -> (r: Result<(), Rejected>)
    requires
        all_fit(old(model)@, commands_view(commands@), now@, today, dates),
    ensures
        r is Ok ==> run_all(old(model)@, commands_view(commands@), now@, today, dates) == Ok::<ModelView, Seq<char>>(final(model)@),
        r matches Err(e) ==> run_all(old(model)@, commands_view(commands@), now@, today, dates) == Err::<ModelView, Seq<char>>(e.0@),
        r is Err ==> final(model)@ == old(model)@,
    decreases commands@,
{
    let ghost views = commands_view(commands@);
    let ghost m0 = model@;
    proof {
        lemma_commands_view(commands@);
        lemma_progress_start(m0, views, now@, today, dates);
    }
    let mut working = model.copy();
    let mut i: usize = 0;
    while i < commands.len()
        invariant
            i <= commands@.len(),
            views == commands_view(commands@),
            views.len() == commands@.len(),
            progress(m0, views, working@, i as int, now@, today, dates),
            m0 == old(model)@,
        decreases commands@.len() - i,
    {
        let ghost before = working@;
        proof {
            lemma_commands_view(commands@);
            assert(views[i as int] == commands@[i as int]@);
            assert(decreases_to!(commands@ => commands@[i as int]));
            lemma_progress_fits(m0, views, before, i as int, now@, today, dates);
        }
        let step = run(&mut working, &commands[i], now, today, dates);
        match step {
            Err(e) => {
                proof {
                    lemma_progress_err(m0, views, before, i as int, now@, today, dates, e.0@);
                }
                return Err(e);
            },
            Ok(e) => {
                proof {
                    lemma_progress_ok(m0, views, before, i as int, now@, today, dates, working@, entry_view(e));
                }
            },
        }
        i = i + 1;
    }
    proof {
        lemma_progress_done(m0, views, working@, now@, today, dates);
    }
    *model = working;
    Ok(())
}

// ---- operations and undo ---------------------------------------------

/// What the domain is told about the world outside it: the instant the
/// action was given, how long the undo stack is held to, and the order
/// dates are written in.
#[derive(Debug)]
pub struct Context {
    pub now: Stamp,
    pub undo_cap: usize,
    pub dates: DateOrder,
}

pub open spec fn not_asked() -> Seq<char> {
    "That is not a change anything may ask for."@
}

/// Commands applied in order, each to what the one before left: the model
/// the last one leaves and the entries they earned, or the first refusal.
/// An inverse is refused where it stands: nothing outside may ask for one.
pub open spec fn many_run(m: ModelView, cs: Seq<CommandView>, now: int, today: Date, dates: DateOrder) -> Result<(ModelView, Seq<(Seq<char>, CommandView)>), Seq<char>>
    decreases cs.len(),
{
    if cs.len() == 0 {
        Ok((m, Seq::empty()))
    } else if inverse_kind(cs[0]) {
        Err(not_asked())
    } else {
        match run_outcome(m, cs[0], now, today, dates) {
            Err(e) => Err(e),
            Ok((m1, e)) => match many_run(m1, cs.subrange(1, cs.len() as int), now, today, dates) {
                Err(x) => Err(x),
                Ok((m2, es)) => Ok((
                    m2,
                    match e {
                        Some(x) => seq![x] + es,
                        None => es,
                    },
                )),
            },
        }
    }
}

/// Every command of an operation fits the model the ones before it leave.
pub open spec fn many_fit(m: ModelView, cs: Seq<CommandView>, now: int, today: Date, dates: DateOrder) -> bool
    decreases cs.len(),
{
    cs.len() == 0 || (!inverse_kind(cs[0]) ==> fits(m, cs[0], now, today, dates) && match run_outcome(m, cs[0], now, today, dates) {
        Err(_) => true,
        Ok((m1, _)) => many_fit(m1, cs.subrange(1, cs.len() as int), now, today, dates),
    })
}

/// The inverses of several entries in the order they undo, which is the
/// reverse of the order they were earned in.
pub open spec fn reversed_inverses(es: Seq<(Seq<char>, CommandView)>) -> Seq<CommandView> {
    Seq::new(es.len(), |i: int| es[es.len() - 1 - i].1)
}

/// The one entry an operation earns from the entries its commands
/// earned: none, the one, or the first one's label said with the number
/// of changes that followed it and the inverses in the order they undo.
pub open spec fn one_entry_of(es: Seq<(Seq<char>, CommandView)>) -> Option<(Seq<char>, CommandView)> {
    if es.len() == 0 {
        None
    } else if es.len() == 1 {
        Some(es[0])
    } else {
        let label = if es.len() == 2 {
            es[0].0 + " and one more change"@
        } else {
            es[0].0 + " and "@ + crate::text::decimal((es.len() - 1) as nat) + " more changes"@
        };
        Some((label, CommandView::Sequence(reversed_inverses(es))))
    }
}

pub open spec fn entries_view(es: Seq<Entry>) -> Seq<(Seq<char>, CommandView)> {
    es.map_values(|e: Entry| e@)
}

fn one_entry(entries: Vec<Entry>) -> (r: Option<Entry>)
    ensures
        entry_view(r) == one_entry_of(entries_view(entries@)),
{
    let ghost es = entries_view(entries@);
    let n = entries.len();
    if n == 0 {
        return None;
    }
    if n == 1 {
        let mut entries = entries;
        let e = entries.pop().unwrap();
        return Some(e);
    }
    let mut words = chars_of(entries[0].label.as_str());
    if n == 2 {
        append_str(&mut words, " and one more change");
    } else {
        append_str(&mut words, " and ");
        let count = crate::text::decimal_of((n - 1) as u64);
        append_all(&mut words, count.as_slice());
        append_str(&mut words, " more changes");
    }
    let label = string_of(words.as_slice());
    let mut inverses: Vec<Command> = Vec::new();
    let mut entries = entries;
    let ghost whole = entries@;
    while entries.len() > 0
        invariant
            entries@.len() <= whole.len(),
            entries@ == whole.subrange(0, entries@.len() as int),
            inverses@.len() == whole.len() - entries@.len(),
            forall|i: int| 0 <= i < inverses@.len() ==> #[trigger] inverses@[i].view_of() == whole[whole.len() - 1 - i].inverse@,
        decreases entries@.len(),
    {
        let e = entries.pop().unwrap();
        inverses.push(e.inverse);
    }
    proof {
        lemma_commands_view(inverses@);
        assert(commands_view(inverses@) =~= reversed_inverses(es));
        assert(label@ == (one_entry_of(es)->0).0);
    }
    Some(Entry { label, inverse: Command::Sequence(inverses) })
}

/// The writes an earned entry adds to a change: the entry pushed, and
/// the stack held to its length.
pub open spec fn undo_tail(m: ModelView, now: int, cap: usize, es: Seq<(Seq<char>, CommandView)>) -> Seq<WriteView> {
    match one_entry_of(es) {
        Some((label, inverse)) => seq![
            WriteView::PushUndo(EntryView { id: next_id_of(undo_ids(m.undo)) as Id, at: now, label, inverse }),
            WriteView::TruncateUndo(cap),
        ],
        None => Seq::empty(),
    }
}

/// What an operation's change is, given what its commands came to: the
/// rows that turn the model into the one they left, then the entry.
pub open spec fn change_of(m: ModelView, after: ModelView, es: Seq<(Seq<char>, CommandView)>, now: int, cap: usize, ws: Seq<WriteView>) -> bool {
    let tail = undo_tail(m, now, cap, es);
    &&& ws.len() >= tail.len()
    &&& ws.subrange(ws.len() - tail.len(), ws.len() as int) == tail
    &&& diff_effect(m, after, apply_writes(m, ws.subrange(0, ws.len() - tail.len())))
    &&& rows_ok(m, after, ws.subrange(0, ws.len() - tail.len()))
}

/// What an operation on a given working day comes to: its change, or why
/// it is refused.
pub open spec fn operation_ok(m: ModelView, cs: Seq<CommandView>, now: int, today: Date, dates: DateOrder, cap: usize, r: Result<Seq<WriteView>, Seq<char>>) -> bool {
    match many_run(m, cs, now, today, dates) {
        Err(e) => r == Err::<Seq<WriteView>, Seq<char>>(e),
        Ok((after, es)) => r matches Ok(ws) && change_of(m, after, es, now, cap, ws),
    }
}

pub open spec fn change_result(r: Result<Change, Rejected>) -> Result<Seq<WriteView>, Seq<char>> {
    match r {
        Ok(c) => Ok(c@),
        Err(e) => Err(e.0@),
    }
}

/// One operation made of several commands, on the working day given:
/// what the whole of it would change, or why it is refused.
///
/// The commands are applied in order, each to what the one before it
/// left, and nothing is written unless every one of them holds. The
/// operation earns at most one undo entry, whatever it is made of.
pub fn apply_many_on(model: &Model, commands: &Vec<Command>, ctx: &Context, today: Date) -> (r: Result<Change, Rejected>)
    requires
        many_fit(model@, commands_view(commands@), ctx.now@, today, ctx.dates),
        super::command::ids_fit(undo_ids(model@.undo)),
    ensures
        operation_ok(model@, commands_view(commands@), ctx.now@, today, ctx.dates, ctx.undo_cap, change_result(r)),
{
    let ghost cs = commands_view(commands@);
    let ghost m0 = model@;
    proof {
        lemma_commands_view(commands@);
    }
    let mut after = model.copy();
    let mut entries: Vec<Entry> = Vec::new();
    proof {
        assert(cs.subrange(0, cs.len() as int) =~= cs);
        assert(entries_view(entries@) =~= Seq::<(Seq<char>, CommandView)>::empty());
        assert forall|es: Seq<(Seq<char>, CommandView)>| entries_view(entries@) + es == es by {
            assert(entries_view(entries@) + es =~= es);
        }
    }
    let mut i: usize = 0;
    while i < commands.len()
        invariant
            i <= commands@.len(),
            cs == commands_view(commands@),
            cs.len() == commands@.len(),
            forall|j: int| 0 <= j < commands@.len() ==> #[trigger] cs[j] == commands@[j].view_of(),
            many_fit(after@, cs.subrange(i as int, cs.len() as int), ctx.now@, today, ctx.dates),
            many_run(m0, cs, ctx.now@, today, ctx.dates) == match many_run(after@, cs.subrange(i as int, cs.len() as int), ctx.now@, today, ctx.dates) {
                Err(e) => Err(e),
                Ok((m2, es)) => Ok((m2, entries_view(entries@) + es)),
            },
            m0 == model@,
        decreases commands@.len() - i,
    {
        let ghost rest = cs.subrange(i as int, cs.len() as int);
        let ghost before = after@;
        proof {
            assert(rest[0] == cs[i as int]);
            assert(rest.subrange(1, rest.len() as int) =~= cs.subrange(i + 1, cs.len() as int));
        }
        if commands[i].is_inverse() {
            return Err(rejected("That is not a change anything may ask for."));
        }
        let step = run(&mut after, &commands[i], &ctx.now, today, ctx.dates);
        match step {
            Err(e) => {
                return Err(e);
            },
            Ok(e) => {
                let ghost was = entries@;
                match e {
                    Some(x) => {
                        entries.push(x);
                        proof {
                            assert(entries_view(entries@) =~= entries_view(was).push(x@));
                            assert forall|tail: Seq<(Seq<char>, CommandView)>| entries_view(was) + (seq![x@] + tail) == entries_view(entries@) + tail by {
                                assert(entries_view(was) + (seq![x@] + tail) =~= entries_view(entries@) + tail);
                            }
                        }
                    },
                    None => {},
                }
            },
        }
        i = i + 1;
    }
    proof {
        assert(cs.subrange(i as int, cs.len() as int) =~= Seq::<CommandView>::empty());
        assert(entries_view(entries@) + Seq::<(Seq<char>, CommandView)>::empty() =~= entries_view(entries@));
    }
    let ghost es = entries_view(entries@);
    let mut writes = diff(model, &after);
    let ghost d = writes_view(writes@);
    let ghost tail = undo_tail(m0, ctx.now@, ctx.undo_cap, es);
    match one_entry(entries) {
        Some(entry) => {
            let ghost ev = entry@;
            let id = next_undo_id(model);
            let Entry { label, inverse } = entry;
            let pushed = UndoEntry { id, at: ctx.now.copy(), label, inverse };
            let ghost pv = pushed@;
            assert(pv == EntryView { id: next_id_of(undo_ids(m0.undo)) as Id, at: ctx.now@, label: ev.0, inverse: ev.1 });
            writes.push(Write::PushUndo(pushed));
            writes.push(Write::TruncateUndo(ctx.undo_cap));
            proof {
                assert(tail == seq![WriteView::PushUndo(pv), WriteView::TruncateUndo(ctx.undo_cap)]);
                assert(writes_view(writes@) =~= d + tail);
                assert(writes_view(writes@).subrange(0, d.len() as int) =~= d);
                assert(writes_view(writes@).subrange(d.len() as int, writes_view(writes@).len() as int) =~= tail);
            }
        },
        None => {
            proof {
                assert(tail =~= Seq::<WriteView>::empty());
                assert(writes_view(writes@).subrange(0, d.len() as int) =~= d);
                assert(writes_view(writes@).subrange(d.len() as int, d.len() as int) =~= tail);
            }
        },
    }
    Ok(Change { writes })
}

/// One operation made of several commands: what the whole of it would
/// change, or why it is refused. The working day is read off the instant
/// the context carries, in the time zone it was given in, by the hour the
/// settings say a day begins.
pub fn apply_many(model: &Model, commands: Vec<Command>, ctx: &Context) -> (r: Result<Change, Rejected>)
    requires
        forall|d: Date| working_day_of(model@.settings@, ctx.now@, d) ==> many_fit(model@, commands_view(commands@), ctx.now@, d, ctx.dates),
        super::command::ids_fit(undo_ids(model@.undo)),
    ensures
        exists|d: Date| working_day_of(model@.settings@, ctx.now@, d) && operation_ok(model@, commands_view(commands@), ctx.now@, d, ctx.dates, ctx.undo_cap, change_result(r)),
{
    let today = model.settings.working_day(&ctx.now);
    assert(working_day_of(model@.settings@, ctx.now@, today));
    let r = apply_many_on(model, &commands, ctx, today);
    assert(operation_ok(model@, commands_view(commands@), ctx.now@, today, ctx.dates, ctx.undo_cap, change_result(r)));
    r
}

/// Every user command: what it would change, or why it is refused.
pub fn apply(model: &Model, command: Command, ctx: &Context) -> (r: Result<Change, Rejected>)
    requires
        forall|d: Date| working_day_of(model@.settings@, ctx.now@, d) ==> many_fit(model@, seq![command@], ctx.now@, d, ctx.dates),
        super::command::ids_fit(undo_ids(model@.undo)),
    ensures
        exists|d: Date| working_day_of(model@.settings@, ctx.now@, d) && operation_ok(model@, seq![command@], ctx.now@, d, ctx.dates, ctx.undo_cap, change_result(r)),
{
    let ghost c = command@;
    let commands = vec![command];
    proof {
        lemma_commands_view(commands@);
        assert(commands_view(commands@) =~= seq![c]);
    }
    let ghost cs = commands_view(commands@);
    let r = apply_many(model, commands, ctx);
    proof {
        let d = choose|d: Date| working_day_of(model@.settings@, ctx.now@, d) && operation_ok(model@, cs, ctx.now@, d, ctx.dates, ctx.undo_cap, change_result(r));
        assert(working_day_of(model@.settings@, ctx.now@, d) && operation_ok(model@, seq![c], ctx.now@, d, ctx.dates, ctx.undo_cap, change_result(r)));
    }
    r
}

/// What `undo` did: the change to commit either way, the label of the
/// entry it popped, the task it was about, and, when the inverse no
/// longer applied, why it was dropped instead.
#[derive(Debug)]
pub struct Undone {
    pub change: Change,
    pub label: String,
    /// The task the inverse brought back or changed, where it was about
    /// one, so that the cursor can go to it.
    pub task: Option<Id>,
    pub dropped: Option<Rejected>,
}

/// Dropped, for the reason given.
pub open spec fn dropped_for(dropped: Option<Rejected>, why: Seq<char>) -> bool {
    match dropped {
        Some(d) => d.0@ == why,
        None => false,
    }
}

/// What undoing comes to on a given working day. With nothing on the
/// stack there is nothing to undo. Otherwise the top entry is popped:
/// with the rows its inverse changes where the inverse still applies, and
/// alone, with the reason, where it does not.
pub open spec fn undo_ok(m: ModelView, now: int, today: Date, dates: DateOrder, r: Result<Undone, Rejected>) -> bool {
    if m.undo.len() == 0 {
        r matches Err(e) && e.0@ == "There is nothing to undo."@
    } else {
        let top = m.undo.last();
        match run_outcome(m, top.inverse, now, today, dates) {
            Ok((after, _)) => r matches Ok(u) && u.label@ == top.label && u.task == task_about(top.inverse)
                && u.dropped is None && u.change@.len() > 0 && u.change@.last() == WriteView::PopUndo(top.id)
                && diff_effect(m, after, apply_writes(m, u.change@.drop_last()))
                && rows_ok(m, after, u.change@.drop_last()),
            Err(why) => r matches Ok(u) && u.label@ == top.label && u.task is None
                && dropped_for(u.dropped, why) && u.change@ == seq![WriteView::PopUndo(top.id)],
        }
    }
}

/// Pops the top entry and returns its inverse's change, with nothing
/// pushed, on the working day given. An inverse whose precondition no
/// longer holds, because another window has moved on, drops the entry
/// instead of applying it.
pub fn undo_on(model: &Model, ctx: &Context, today: Date) -> (r: Result<Undone, Rejected>)
    requires
        model@.undo.len() > 0 ==> fits(model@, model@.undo.last().inverse, ctx.now@, today, ctx.dates),
    ensures
        undo_ok(model@, ctx.now@, today, ctx.dates, r),
{
    let n = model.undo.len();
    if n == 0 {
        return Err(rejected("There is nothing to undo."));
    }
    let entry = &model.undo[n - 1];
    assert(entry@ == model@.undo.last());
    let mut after = model.copy();
    match run(&mut after, &entry.inverse, &ctx.now, today, ctx.dates) {
        Ok(_) => {
            let mut writes = diff(model, &after);
            let ghost d = writes_view(writes@);
            writes.push(Write::PopUndo(entry.id));
            assert(writes_view(writes@) =~= d.push(WriteView::PopUndo(entry.id)));
            assert(writes_view(writes@).drop_last() =~= d);
            Ok(Undone {
                change: Change { writes },
                label: copy_string(&entry.label),
                task: task_of(&entry.inverse),
                dropped: None,
            })
        },
        Err(why) => {
            let writes = vec![Write::PopUndo(entry.id)];
            assert(writes_view(writes@) =~= seq![WriteView::PopUndo(entry.id)]);
            Ok(Undone { change: Change { writes }, label: copy_string(&entry.label), task: None, dropped: Some(why) })
        },
    }
}

/// Pops the top entry and returns its inverse's change, with nothing
/// pushed; the working day is read off the context's instant.
pub fn undo(model: &Model, ctx: &Context) -> (r: Result<Undone, Rejected>)
    requires
        model@.undo.len() > 0 ==> forall|d: Date| working_day_of(model@.settings@, ctx.now@, d) ==> fits(model@, model@.undo.last().inverse, ctx.now@, d, ctx.dates),
    ensures
        exists|d: Date| working_day_of(model@.settings@, ctx.now@, d) && undo_ok(model@, ctx.now@, d, ctx.dates, r),
{
    let today = model.settings.working_day(&ctx.now);
    assert(working_day_of(model@.settings@, ctx.now@, today));
    let r = undo_on(model, ctx, today);
    assert(undo_ok(model@, ctx.now@, today, ctx.dates, r));
    r
}

} // verus!
