//! The rows the model is made of, the model as one value, and the writes
//! a change is a list of.

use vstd::prelude::*;

use std::collections::BTreeMap;
use vstd::std_specs::iter::IteratorSpec;

use super::command::{Command, CommandView};
use super::rule::{Rule, RuleView};
use super::settings::Settings;
use super::system::{lemma_first_with_key, lemma_lookup_set_pair};
use super::time::{copy_stamp, opt_instant, Date, Stamp};
use crate::text::{chars_of, string_of};

verus! {

/// The id of a row. New ids come from the domain: the largest one in the
/// model plus one.
pub type Id = i64;

/// Where a task lives: the backlog, or one day.
#[derive(Clone, Copy, Debug, PartialEq, Eq, Structural)]
pub enum Place {
    Backlog,
    Day(Date),
}

pub open spec fn place_of(day: Option<Date>) -> Place {
    match day {
        Some(d) => Place::Day(d),
        None => Place::Backlog,
    }
}

pub open spec fn day_of(place: Place) -> Option<Date> {
    match place {
        Place::Backlog => None,
        Place::Day(d) => Some(d),
    }
}

impl Place {
    /// The place a task's day describes.
    pub fn of(day: Option<Date>) -> (place: Place)
        ensures
            place == place_of(day),
    {
        match day {
            Some(d) => Place::Day(d),
            None => Place::Backlog,
        }
    }

    /// The date to write into a task's day.
    pub fn day(self) -> (day: Option<Date>)
        ensures
            day == day_of(self),
    {
        match self {
            Place::Backlog => None,
            Place::Day(d) => Some(d),
        }
    }
}

/// A title, whether it is done, and where it lives.
#[derive(Clone, Debug)]
pub struct Task {
    pub id: Id,
    pub title: String,
    pub day: Option<Date>,
    pub position: usize,
    pub focus: bool,
    pub waiting: bool,
    pub closed_at: Option<Stamp>,
    pub due_on: Option<Date>,
    pub remind_on: Option<Date>,
    pub schedule_id: Option<Id>,
    pub scheduled_on: Option<Date>,
    pub created_at: Stamp,
    pub deleted_at: Option<Stamp>,
}

/// A task as the contracts speak of it: instants by the moment they name.
pub struct TaskView {
    pub id: Id,
    pub title: Seq<char>,
    pub day: Option<Date>,
    pub position: usize,
    pub focus: bool,
    pub waiting: bool,
    pub closed_at: Option<int>,
    pub due_on: Option<Date>,
    pub remind_on: Option<Date>,
    pub schedule_id: Option<Id>,
    pub scheduled_on: Option<Date>,
    pub created_at: int,
    pub deleted_at: Option<int>,
}

impl View for Task {
    type V = TaskView;

    open spec fn view(&self) -> TaskView {
        TaskView {
            id: self.id,
            title: self.title@,
            day: self.day,
            position: self.position,
            focus: self.focus,
            waiting: self.waiting,
            closed_at: opt_instant(self.closed_at),
            due_on: self.due_on,
            remind_on: self.remind_on,
            schedule_id: self.schedule_id,
            scheduled_on: self.scheduled_on,
            created_at: self.created_at@,
            deleted_at: opt_instant(self.deleted_at),
        }
    }
}

impl TaskView {
    /// Live means not deleted. Deleted tasks are invisible to every view,
    /// but their rows stay.
    pub open spec fn live(self) -> bool {
        self.deleted_at is None
    }

    pub open spec fn open(self) -> bool {
        self.closed_at is None
    }

    pub open spec fn place(self) -> Place {
        place_of(self.day)
    }
}

/// A string, copied.
pub fn copy_string(s: &String) -> (r: String)
    ensures
        r@ == s@,
{
    s.clone()
}

impl Task {
    pub fn is_live(&self) -> (r: bool)
        ensures
            r == self@.live(),
    {
        self.deleted_at.is_none()
    }

    pub fn is_open(&self) -> (r: bool)
        ensures
            r == self@.open(),
    {
        self.closed_at.is_none()
    }

    pub fn place(&self) -> (r: Place)
        ensures
            r == self@.place(),
    {
        Place::of(self.day)
    }

    /// The same row, as a value of its own.
    pub fn copy(&self) -> (r: Task)
        ensures
            r@ == self@,
    {
        Task {
            id: self.id,
            title: copy_string(&self.title),
            day: self.day,
            position: self.position,
            focus: self.focus,
            waiting: self.waiting,
            closed_at: copy_stamp(&self.closed_at),
            due_on: self.due_on,
            remind_on: self.remind_on,
            schedule_id: self.schedule_id,
            scheduled_on: self.scheduled_on,
            created_at: self.created_at.copy(),
            deleted_at: copy_stamp(&self.deleted_at),
        }
    }
}

/// Where a task came from when it arrived on a day.
#[derive(Clone, Copy, Debug, PartialEq, Eq, Structural)]
pub enum FromPlace {
    New,
    Backlog,
    Day(Date),
}

pub open spec fn from_place_of(place: Place) -> FromPlace {
    match place {
        Place::Backlog => FromPlace::Backlog,
        Place::Day(d) => FromPlace::Day(d),
    }
}

impl FromPlace {
    pub fn of(place: Place) -> (r: FromPlace)
        ensures
            r == from_place_of(place),
    {
        match place {
            Place::Backlog => FromPlace::Backlog,
            Place::Day(d) => FromPlace::Day(d),
        }
    }
}

/// The record that a task was put on a day, kept after the task leaves.
/// One row per task and day, written on arrival and never updated.
#[derive(Clone, Debug)]
pub struct Placement {
    pub task_id: Id,
    pub day: Date,
    pub placed_at: Stamp,
    pub from_place: FromPlace,
}

pub struct PlacementView {
    pub task_id: Id,
    pub day: Date,
    pub placed_at: int,
    pub from_place: FromPlace,
}

impl View for Placement {
    type V = PlacementView;

    open spec fn view(&self) -> PlacementView {
        PlacementView {
            task_id: self.task_id,
            day: self.day,
            placed_at: self.placed_at@,
            from_place: self.from_place,
        }
    }
}

impl Placement {
    pub fn copy(&self) -> (r: Placement)
        ensures
            r@ == self@,
    {
        Placement {
            task_id: self.task_id,
            day: self.day,
            placed_at: self.placed_at.copy(),
            from_place: self.from_place,
        }
    }
}

/// The key a placement is filed under: its task and its day.
pub type PlacementKey = (Id, i16, u8, u8);

pub open spec fn key_of(task: Id, day: Date) -> PlacementKey {
    (task, day.year, day.month, day.day)
}

pub fn placement_key(task: Id, day: Date) -> (key: PlacementKey)
    ensures
        key == key_of(task, day),
{
    (task, day.year, day.month, day.day)
}

/// A repeat rule with a title. It creates copies.
#[derive(Clone, Debug)]
pub struct Schedule {
    pub id: Id,
    pub title: String,
    pub rule: Rule,
    /// Copies exist for every scheduled date up to and including this.
    pub generated_through: Date,
    pub stopped_on: Option<Date>,
    pub created_at: Stamp,
}

pub struct ScheduleView {
    pub id: Id,
    pub title: Seq<char>,
    pub rule: RuleView,
    pub generated_through: Date,
    pub stopped_on: Option<Date>,
    pub created_at: int,
}

impl View for Schedule {
    type V = ScheduleView;

    open spec fn view(&self) -> ScheduleView {
        ScheduleView {
            id: self.id,
            title: self.title@,
            rule: self.rule@,
            generated_through: self.generated_through,
            stopped_on: self.stopped_on,
            created_at: self.created_at@,
        }
    }
}

impl Schedule {
    pub fn is_stopped(&self) -> (r: bool)
        ensures
            r == (self@.stopped_on is Some),
    {
        self.stopped_on.is_some()
    }

    pub fn copy(&self) -> (r: Schedule)
        ensures
            r@ == self@,
    {
        Schedule {
            id: self.id,
            title: copy_string(&self.title),
            rule: self.rule.copy(),
            generated_through: self.generated_through,
            stopped_on: self.stopped_on,
            created_at: self.created_at.copy(),
        }
    }
}

/// A plain-text scratchpad entry.
#[derive(Clone, Debug)]
pub struct Note {
    pub id: Id,
    pub body: String,
    pub created_at: Stamp,
    pub updated_at: Stamp,
    pub deleted_at: Option<Stamp>,
}

pub struct NoteView {
    pub id: Id,
    pub body: Seq<char>,
    pub created_at: int,
    pub updated_at: int,
    pub deleted_at: Option<int>,
}

impl View for Note {
    type V = NoteView;

    open spec fn view(&self) -> NoteView {
        NoteView {
            id: self.id,
            body: self.body@,
            created_at: self.created_at@,
            updated_at: self.updated_at@,
            deleted_at: opt_instant(self.deleted_at),
        }
    }
}

impl Note {
    pub fn is_live(&self) -> (r: bool)
        ensures
            r == (self@.deleted_at is None),
    {
        self.deleted_at.is_none()
    }

    pub fn copy(&self) -> (r: Note)
        ensures
            r@ == self@,
    {
        Note {
            id: self.id,
            body: copy_string(&self.body),
            created_at: self.created_at.copy(),
            updated_at: self.updated_at.copy(),
            deleted_at: copy_stamp(&self.deleted_at),
        }
    }
}

/// One entry of the undo stack: when, what to call it in the hint bar,
/// and the inverse command.
#[derive(Debug)]
pub struct UndoEntry {
    pub id: Id,
    pub at: Stamp,
    pub label: String,
    pub inverse: Command,
}

pub struct EntryView {
    pub id: Id,
    pub at: int,
    pub label: Seq<char>,
    pub inverse: CommandView,
}

impl View for UndoEntry {
    type V = EntryView;

    open spec fn view(&self) -> EntryView {
        EntryView { id: self.id, at: self.at@, label: self.label@, inverse: self.inverse@ }
    }
}

impl UndoEntry {
    pub fn copy(&self) -> (r: UndoEntry)
        ensures
            r@ == self@,
    {
        UndoEntry {
            id: self.id,
            at: self.at.copy(),
            label: copy_string(&self.label),
            inverse: self.inverse.copy(),
        }
    }
}

/// The value a table of text holds under a key, if it holds one.
pub open spec fn lookup(pairs: Seq<(Seq<char>, Seq<char>)>, key: Seq<char>) -> Option<Seq<char>> {
    match first_with_key(pairs, key) {
        Some(i) => Some(pairs[i].1),
        None => None,
    }
}

/// The date a `meta` value under a key reads as, if there is one.
pub open spec fn meta_date_of(meta: Seq<(Seq<char>, Seq<char>)>, key: Seq<char>) -> Option<Date> {
    match lookup(meta, key) {
        Some(text) => super::time::civil_date_of(text),
        None => None,
    }
}

/// The `meta` key the review's last opening is kept under.
pub const REVIEW_ON: &'static str = "review_on";

/// The `meta` key the first day the review looks back to is kept under.
pub const REVIEW_BEFORE: &'static str = "review_before";

/// The whole state as a value. Views are pure functions of a model and a
/// date.
#[derive(Debug)]
pub struct Model {
    /// Every task, deleted ones included: a deleted copy keeps its row so
    /// that generation never makes it again.
    pub tasks: BTreeMap<Id, Task>,
    pub placements: BTreeMap<PlacementKey, Placement>,
    pub schedules: BTreeMap<Id, Schedule>,
    pub notes: BTreeMap<Id, Note>,
    /// The undo stack, oldest first.
    pub undo: Vec<UndoEntry>,
    /// The `meta` table, one pair per key.
    pub meta: Vec<(String, String)>,
    /// The `settings` table, read into one typed value.
    pub settings: Settings,
    /// The personal dictionary: a canonical key to the word as it was
    /// typed, one pair per key.
    pub personal_dictionary: Vec<(String, String)>,
}

/// A table of text keyed by text, as the contracts speak of it.
pub open spec fn pairs_view(pairs: Seq<(String, String)>) -> Seq<(Seq<char>, Seq<char>)> {
    pairs.map_values(|p: (String, String)| (p.0@, p.1@))
}

/// The model as the contracts speak of it.
pub struct ModelView {
    pub tasks: Map<Id, TaskView>,
    pub placements: Map<PlacementKey, PlacementView>,
    pub schedules: Map<Id, ScheduleView>,
    pub notes: Map<Id, NoteView>,
    pub undo: Seq<EntryView>,
    pub meta: Seq<(Seq<char>, Seq<char>)>,
    pub settings: Settings,
    pub dictionary: Seq<(Seq<char>, Seq<char>)>,
}

pub open spec fn tasks_view(m: Map<Id, Task>) -> Map<Id, TaskView> {
    m.map_values(|t: Task| t@)
}

pub open spec fn placements_view(m: Map<PlacementKey, Placement>) -> Map<PlacementKey, PlacementView> {
    m.map_values(|p: Placement| p@)
}

pub open spec fn schedules_view(m: Map<Id, Schedule>) -> Map<Id, ScheduleView> {
    m.map_values(|s: Schedule| s@)
}

pub open spec fn notes_view(m: Map<Id, Note>) -> Map<Id, NoteView> {
    m.map_values(|n: Note| n@)
}

pub open spec fn undo_view(s: Seq<UndoEntry>) -> Seq<EntryView> {
    s.map_values(|e: UndoEntry| e@)
}

impl View for Model {
    type V = ModelView;

    open spec fn view(&self) -> ModelView {
        ModelView {
            tasks: tasks_view(self.tasks@),
            placements: placements_view(self.placements@),
            schedules: schedules_view(self.schedules@),
            notes: notes_view(self.notes@),
            undo: undo_view(self.undo@),
            meta: pairs_view(self.meta@),
            settings: self.settings,
            dictionary: pairs_view(self.personal_dictionary@),
        }
    }
}

/// Copies a list of text pairs.
pub fn copy_pairs(pairs: &Vec<(String, String)>) -> (r: Vec<(String, String)>)
    ensures
        pairs_view(r@) == pairs_view(pairs@),
{
    let mut r: Vec<(String, String)> = Vec::new();
    let mut i: usize = 0;
    while i < pairs.len()
        invariant
            i <= pairs@.len(),
            r@.len() == i,
            pairs_view(r@) == pairs_view(pairs@.subrange(0, i as int)),
        decreases pairs@.len() - i,
    {
        let (k, v) = &pairs[i];
        let ghost before = r@;
        r.push((copy_string(k), copy_string(v)));
        assert(r@ == before.push(r@.last()));
        assert(pairs@.subrange(0, i + 1) == pairs@.subrange(0, i as int).push(pairs@[i as int]));
        assert forall|j: int| 0 <= j < i + 1 implies #[trigger] pairs_view(r@)[j] == pairs_view(pairs@.subrange(0, i + 1))[j] by {
            if j < i {
                assert(r@[j] == before[j]);
                assert(pairs_view(before)[j] == pairs_view(pairs@.subrange(0, i as int))[j]);
            }
        }
        assert(pairs_view(r@) =~= pairs_view(pairs@.subrange(0, i + 1)));
        i = i + 1;
    }
    assert(pairs@.subrange(0, pairs@.len() as int) =~= pairs@);
    r
}

impl Model {
    /// The same model, as a value of its own.
    pub fn copy(&self) -> (m: Model)
        ensures
            m@ == self@,
    {
        let mut undo: Vec<UndoEntry> = Vec::new();
        let mut i: usize = 0;
        while i < self.undo.len()
            invariant
                i <= self.undo@.len(),
                undo@.len() == i,
                forall|j: int| 0 <= j < i ==> #[trigger] undo@[j]@ == self.undo@[j]@,
            decreases self.undo@.len() - i,
        {
            undo.push(self.undo[i].copy());
            i = i + 1;
        }
        let m = Model {
            tasks: self.tasks.clone(),
            placements: self.placements.clone(),
            schedules: self.schedules.clone(),
            notes: self.notes.clone(),
            undo,
            meta: copy_pairs(&self.meta),
            settings: self.settings,
            personal_dictionary: copy_pairs(&self.personal_dictionary),
        };
        assert(m@.undo =~= self@.undo);
        m
    }

    /// A model with nothing in it and every setting at its default.
    pub fn empty() -> (m: Model)
        ensures
            m@.tasks == Map::<Id, TaskView>::empty(),
            m@.placements == Map::<PlacementKey, PlacementView>::empty(),
            m@.schedules == Map::<Id, ScheduleView>::empty(),
            m@.notes == Map::<Id, NoteView>::empty(),
            m@.undo == Seq::<EntryView>::empty(),
            m@.meta == Seq::<(Seq<char>, Seq<char>)>::empty(),
            m@.dictionary == Seq::<(Seq<char>, Seq<char>)>::empty(),
            m@.settings@ == super::settings::default_view(),
    {
        let m = Model {
            tasks: BTreeMap::new(),
            placements: BTreeMap::new(),
            schedules: BTreeMap::new(),
            notes: BTreeMap::new(),
            undo: Vec::new(),
            meta: Vec::new(),
            settings: Settings::defaults(),
            personal_dictionary: Vec::new(),
        };
        assert(m@.tasks =~= Map::<Id, TaskView>::empty());
        assert(m@.placements =~= Map::<PlacementKey, PlacementView>::empty());
        assert(m@.schedules =~= Map::<Id, ScheduleView>::empty());
        assert(m@.notes =~= Map::<Id, NoteView>::empty());
        assert(m@.undo =~= Seq::<EntryView>::empty());
        assert(m@.meta =~= Seq::<(Seq<char>, Seq<char>)>::empty());
        assert(m@.dictionary =~= Seq::<(Seq<char>, Seq<char>)>::empty());
        m
    }

    /// The task with an id, deleted or not.
    pub fn task(&self, id: Id) -> (r: Option<&Task>)
        ensures
            match r {
                Some(t) => self@.tasks.contains_key(id) && self@.tasks[id] == t@,
                None => !self@.tasks.contains_key(id),
            },
    {
        self.tasks.get(&id)
    }

    /// The task with an id, if it is live.
    pub fn live_task(&self, id: Id) -> (r: Option<&Task>)
        ensures
            match r {
                Some(t) => self@.tasks.contains_key(id) && self@.tasks[id] == t@ && t@.live(),
                None => !(self@.tasks.contains_key(id) && self@.tasks[id].live()),
            },
    {
        match self.tasks.get(&id) {
            Some(t) => if t.is_live() {
                Some(t)
            } else {
                None
            },
            None => None,
        }
    }

    pub fn schedule(&self, id: Id) -> (r: Option<&Schedule>)
        ensures
            match r {
                Some(s) => self@.schedules.contains_key(id) && self@.schedules[id] == s@,
                None => !self@.schedules.contains_key(id),
            },
    {
        self.schedules.get(&id)
    }

    pub fn note(&self, id: Id) -> (r: Option<&Note>)
        ensures
            match r {
                Some(n) => self@.notes.contains_key(id) && self@.notes[id] == n@,
                None => !self@.notes.contains_key(id),
            },
    {
        self.notes.get(&id)
    }

    /// The record that a task was put on a day.
    pub fn placement(&self, task: Id, day: Date) -> (r: Option<&Placement>)
        ensures
            match r {
                Some(p) => self@.placements.contains_key(key_of(task, day))
                    && self@.placements[key_of(task, day)] == p@,
                None => !self@.placements.contains_key(key_of(task, day)),
            },
            match r {
                Some(p) => self.placements@.contains_key(key_of(task, day)) && self.placements@[key_of(task, day)] == *p,
                None => !self.placements@.contains_key(key_of(task, day)),
            },
    {
        self.placements.get(&placement_key(task, day))
    }

    /// The value the model holds under a `meta` key.
    pub fn meta_value(&self, key: &str) -> (r: Option<&String>)
        ensures
            match r {
                Some(v) => lookup(self@.meta, key@) == Some(v@),
                None => lookup(self@.meta, key@) is None,
            },
    {
        let owned = key.to_owned();
        match find_key(&self.meta, &owned) {
            Some(i) => Some(&self.meta[i].1),
            None => None,
        }
    }

    /// A date the model holds under a `meta` key.
    pub fn meta_date(&self, key: &str) -> (r: Option<Date>)
        ensures
            r == meta_date_of(self@.meta, key@),
    {
        match self.meta_value(key) {
            Some(text) => super::time::parse_civil_date(text.as_str()),
            None => None,
        }
    }
}

// ---- the order of a place --------------------------------------------

/// A live task of a place.
pub open spec fn in_place(t: TaskView, place: Place) -> bool {
    t.live() && t.place() == place
}

/// Whether the task filed under `a` comes before the one under `b`: by
/// position, then by id, then by the key it is filed under.
pub open spec fn earlier(tasks: Map<Id, TaskView>, a: Id, b: Id) -> bool {
    let (x, y) = (tasks[a], tasks[b]);
    x.position < y.position || (x.position == y.position && (x.id < y.id || (x.id == y.id
        && a < b)))
}

/// `s` is the live tasks of a place, each once, in their order.
pub open spec fn is_order(tasks: Map<Id, TaskView>, place: Place, s: Seq<Id>) -> bool {
    &&& s.no_duplicates()
    &&& forall|k: Id| #[trigger] s.contains(k) <==> (tasks.contains_key(k) && in_place(tasks[k], place))
    &&& forall|i: int, j: int| 0 <= i < j < s.len() ==> earlier(tasks, #[trigger] s[i], #[trigger] s[j])
}

/// The live tasks of a place in their order. The positions of a place
/// are the dense integers `0..n` in one sequence, whatever the groups a
/// screen draws.
pub open spec fn order_of(tasks: Map<Id, TaskView>, place: Place) -> Seq<Id> {
    choose|s: Seq<Id>| is_order(tasks, place, s)
}

/// A place has one order.
pub proof fn lemma_order_unique(tasks: Map<Id, TaskView>, place: Place, a: Seq<Id>, b: Seq<Id>)
    requires
        is_order(tasks, place, a),
        is_order(tasks, place, b),
    ensures
        a == b,
    decreases a.len(),
{
    lemma_sorted_unique(tasks, a, b);
}

pub(crate) proof fn lemma_sorted_unique(tasks: Map<Id, TaskView>, a: Seq<Id>, b: Seq<Id>)
    requires
        a.no_duplicates(),
        b.no_duplicates(),
        forall|k: Id| a.contains(k) <==> b.contains(k),
        forall|i: int, j: int| 0 <= i < j < a.len() ==> earlier(tasks, #[trigger] a[i], #[trigger] a[j]),
        forall|i: int, j: int| 0 <= i < j < b.len() ==> earlier(tasks, #[trigger] b[i], #[trigger] b[j]),
    ensures
        a == b,
    decreases a.len(),
{
    if a.len() == 0 {
        if b.len() > 0 {
            assert(b.contains(b[0]));
        }
        assert(a =~= b);
    } else {
        assert(a.contains(a[0]));
        assert(b.contains(a[0]));
        let j = choose|j: int| 0 <= j < b.len() && b[j] == a[0];
        assert(b.contains(b[0]));
        assert(a.contains(b[0]));
        let i = choose|i: int| 0 <= i < a.len() && a[i] == b[0];
        if i > 0 && j > 0 {
            assert(earlier(tasks, a[0], a[i]));
            assert(earlier(tasks, b[0], b[j]));
            assert(false);
        }
        assert(a[0] == b[0]);
        let ra = a.drop_first();
        let rb = b.drop_first();
        assert forall|k: Id| ra.contains(k) <==> rb.contains(k) by {
            if ra.contains(k) {
                let x = choose|x: int| 0 <= x < ra.len() && ra[x] == k;
                assert(a[x + 1] == k);
                assert(a.contains(k));
                assert(k != a[0]);
                let y = choose|y: int| 0 <= y < b.len() && b[y] == k;
                assert(y != 0);
                assert(rb[y - 1] == k);
            }
            if rb.contains(k) {
                let x = choose|x: int| 0 <= x < rb.len() && rb[x] == k;
                assert(b[x + 1] == k);
                assert(b.contains(k));
                assert(k != b[0]);
                let y = choose|y: int| 0 <= y < a.len() && a[y] == k;
                assert(y != 0);
                assert(ra[y - 1] == k);
            }
        }
        assert forall|x: int, y: int| 0 <= x < y < ra.len() implies earlier(tasks, #[trigger] ra[x], #[trigger] ra[y]) by {
            assert(ra[x] == a[x + 1]);
            assert(ra[y] == a[y + 1]);
        }
        assert forall|x: int, y: int| 0 <= x < y < rb.len() implies earlier(tasks, #[trigger] rb[x], #[trigger] rb[y]) by {
            assert(rb[x] == b[x + 1]);
            assert(rb[y] == b[y + 1]);
        }
        lemma_sorted_unique(tasks, ra, rb);
        assert(a =~= seq![a[0]] + ra);
        assert(b =~= seq![b[0]] + rb);
    }
}

/// The one order of a place, once a sequence has been shown to be one.
pub proof fn lemma_is_the_order(tasks: Map<Id, TaskView>, place: Place, s: Seq<Id>)
    requires
        is_order(tasks, place, s),
    ensures
        order_of(tasks, place) == s,
        is_order(tasks, place, order_of(tasks, place)),
{
    lemma_order_unique(tasks, place, order_of(tasks, place), s);
}

/// Whether the task under `a` comes before the one under `b`.
fn comes_before(tasks: &BTreeMap<Id, Task>, a: Id, b: Id) -> (r: bool)
    requires
        tasks@.contains_key(a),
        tasks@.contains_key(b),
    ensures
        r == earlier(tasks_view(tasks@), a, b),
{
    let x = tasks.get(&a).unwrap();
    let y = tasks.get(&b).unwrap();
    x.position < y.position || (x.position == y.position && (x.id < y.id || (x.id == y.id
        && a < b)))
}

/// The keys of the live tasks of a place, each once, in key order.
fn live_in(tasks: &BTreeMap<Id, Task>, place: Place) -> (found: Vec<Id>)
    ensures
        found@.no_duplicates(),
        forall|k: Id| #[trigger] found@.contains(k) <==> (tasks@.contains_key(k) && in_place(
            tasks_view(tasks@)[k],
            place,
        )),
{
    let ghost items = tasks.iter().remaining();
    let mut found: Vec<Id> = Vec::new();
    let ghost mut from: Seq<int> = Seq::empty();
    for kv in it: tasks.iter()
        invariant
            it.seq() == items,
            items.no_duplicates(),
            forall|i: int| 0 <= i < items.len() ==> tasks@.contains_key(*items[i].0) && tasks@[*items[i].0] == *items[i].1,
            forall|k: Id| #[trigger] tasks@.contains_key(k) ==> items.contains((&k, &tasks@[k])),
            from.len() == found@.len(),
            forall|j: int| 0 <= j < found@.len() ==> 0 <= #[trigger] from[j] < it.index() && *items[from[j]].0 == found@[j],
            forall|a: int, b: int| 0 <= a < b < found@.len() ==> #[trigger] from[a] < #[trigger] from[b],
            forall|j: int| 0 <= j < found@.len() ==> tasks@.contains_key(#[trigger] found@[j]) && in_place(tasks_view(tasks@)[found@[j]], place),
            forall|i: int| 0 <= i < it.index() && in_place(tasks_view(tasks@)[*items[i].0], place) ==> found@.contains(*#[trigger] items[i].0),
    {
        let (k, t) = kv;
        let ghost idx = it.index();
        proof {
            assert(items[idx] == (k, t));
        }
        if t.is_live() && t.place() == place {
            let ghost was = found@;
            found.push(*k);
            proof {
                from = from.push(idx);
                assert forall|i: int| 0 <= i < idx + 1 && in_place(tasks_view(tasks@)[*items[i].0], place) implies found@.contains(*#[trigger] items[i].0) by {
                    if i == idx {
                        assert(found@[found@.len() - 1] == *k);
                    } else {
                        assert(was.contains(*items[i].0));
                        let j = choose|j: int| 0 <= j < was.len() && was[j] == *items[i].0;
                        assert(found@[j] == *items[i].0);
                    }
                }
            }
        }
    }
    proof {
        assert forall|a: int, b: int| 0 <= a < found@.len() && 0 <= b < found@.len() && a != b implies found@[a] != found@[b] by {
            if found@[a] == found@[b] {
                let (x, y) = (from[a], from[b]);
                assert(*items[x].1 == tasks@[found@[a]]);
                assert(*items[y].1 == tasks@[found@[b]]);
                assert(items[x] == items[y]);
                if a < b {
                    assert(from[a] < from[b]);
                } else {
                    assert(from[b] < from[a]);
                }
            }
        }
        assert forall|k: Id| tasks@.contains_key(k) && in_place(tasks_view(tasks@)[k], place) implies #[trigger] found@.contains(k) by {
            assert(items.contains((&k, &tasks@[k])));
            let i = choose|i: int| 0 <= i < items.len() && items[i] == (&k, &tasks@[k]);
            assert(*items[i].0 == k);
        }
    }
    found
}

impl Model {
    /// The live tasks of a place in their order.
    pub fn place(&self, place: Place) -> (order: Vec<Id>)
        ensures
            is_order(self@.tasks, place, order@),
            order@ == order_of(self@.tasks, place),
    {
        order_in(&self.tasks, place)
    }
}

/// The live tasks of a place in a table of tasks, in their order.
pub fn order_in(table: &BTreeMap<Id, Task>, place: Place) -> (order: Vec<Id>)
    ensures
        is_order(tasks_view(table@), place, order@),
        order@ == order_of(tasks_view(table@), place),
{
    let ghost tasks = tasks_view(table@);
    let found = live_in(table, place);
    proof {
        assert forall|j: int| 0 <= j < found@.len() implies table@.contains_key(#[trigger] found@[j]) by {
            assert(found@.contains(found@[j]));
        }
    }
    let mut order: Vec<Id> = Vec::new();
    let mut n: usize = 0;
    while n < found.len()
        invariant
            tasks == tasks_view(table@),
            n <= found@.len(),
            found@.no_duplicates(),
            forall|j: int| 0 <= j < found@.len() ==> table@.contains_key(#[trigger] found@[j]),
            order@.no_duplicates(),
            forall|j: int| 0 <= j < order@.len() ==> table@.contains_key(#[trigger] order@[j]),
            forall|k: Id| #[trigger] order@.contains(k) <==> found@.subrange(0, n as int).contains(k),
            forall|i: int, j: int| 0 <= i < j < order@.len() ==> earlier(tasks, #[trigger] order@[i], #[trigger] order@[j]),
        decreases found@.len() - n,
    {
        let x = found[n];
        let mut at: usize = 0;
        while at < order.len() && !comes_before(&table, x, order[at])
            invariant
                at <= order@.len(),
                table@.contains_key(x),
                forall|j: int| 0 <= j < order@.len() ==> table@.contains_key(#[trigger] order@[j]),
                forall|j: int| 0 <= j < at ==> !earlier(tasks, x, #[trigger] order@[j]),
                tasks == tasks_view(table@),
            decreases order@.len() - at,
        {
            at = at + 1;
        }
        let ghost was = order@;
        proof {
            assert(!was.contains(x)) by {
                if was.contains(x) {
                    assert(found@.subrange(0, n as int).contains(x));
                    let j = choose|j: int| 0 <= j < n && found@.subrange(0, n as int)[j] == x;
                    assert(found@[j] == found@[n as int]);
                }
            }
        }
        order.insert(at, x);
        proof {
            assert(order@ == was.insert(at as int, x));
            assert forall|i: int, j: int| 0 <= i < j < order@.len() implies earlier(tasks, #[trigger] order@[i], #[trigger] order@[j]) by {
                if j < at {
                    assert(order@[i] == was[i] && order@[j] == was[j]);
                } else if j == at {
                    assert(order@[i] == was[i]);
                    assert(!earlier(tasks, x, was[i]));
                    assert(was.contains(was[i]));
                    assert(was[i] != x);
                } else if i == at {
                    assert(order@[j] == was[j - 1]);
                    assert(earlier(tasks, x, was[at as int]));
                    if j - 1 > at {
                        assert(earlier(tasks, was[at as int], was[j - 1]));
                    }
                } else if i < at {
                    assert(order@[i] == was[i] && order@[j] == was[j - 1]);
                } else {
                    assert(order@[i] == was[i - 1] && order@[j] == was[j - 1]);
                }
            }
            assert forall|a: int, b: int| 0 <= a < order@.len() && 0 <= b < order@.len() && a != b implies order@[a] != order@[b] by {
                if a < b {
                    assert(earlier(tasks, order@[a], order@[b]));
                } else {
                    assert(earlier(tasks, order@[b], order@[a]));
                }
            }
            let ghost prev = found@.subrange(0, n as int);
            let ghost next = found@.subrange(0, n + 1);
            assert(next == prev.push(x));
            assert forall|j: int| 0 <= j < order@.len() implies table@.contains_key(#[trigger] order@[j]) by {
                if j < at {
                    assert(order@[j] == was[j]);
                } else if j > at {
                    assert(order@[j] == was[j - 1]);
                }
            }
            assert forall|k: Id| #[trigger] order@.contains(k) <==> next.contains(k) by {
                if order@.contains(k) {
                    let j = choose|j: int| 0 <= j < order@.len() && order@[j] == k;
                    if j == at {
                        assert(next[n as int] == k);
                    } else {
                        if j < at {
                            assert(was[j] == k);
                        } else {
                            assert(was[j - 1] == k);
                        }
                        assert(was.contains(k));
                        assert(prev.contains(k));
                        let i = choose|i: int| 0 <= i < prev.len() && prev[i] == k;
                        assert(next[i] == k);
                    }
                }
                if next.contains(k) {
                    if k == x {
                        assert(order@[at as int] == x);
                    } else {
                        assert(found@.subrange(0, n as int).contains(k)) by {
                            let whole = found@.subrange(0, n + 1);
                            let j = choose|j: int| 0 <= j < whole.len() && #[trigger] whole[j] == k;
                            assert(j < n);
                            assert(found@.subrange(0, n as int)[j] == k);
                        }
                        assert(was.contains(k));
                        let j = choose|j: int| 0 <= j < was.len() && was[j] == k;
                        if j < at {
                            assert(order@[j] == k);
                        } else {
                            assert(order@[j + 1] == k);
                        }
                    }
                }
            }
        }
        n = n + 1;
    }
    proof {
        assert(found@.subrange(0, found@.len() as int) =~= found@);
        assert forall|k: Id| #[trigger] order@.contains(k) <==> (tasks.contains_key(k) && in_place(tasks[k], place)) by {
            assert(found@.contains(k) <==> (table@.contains_key(k) && in_place(tasks_view(table@)[k], place)));
        }
        lemma_is_the_order(tasks, place, order@);
    }
    order
}

// ---- changes ---------------------------------------------------------

/// One row write. Whole rows, never fields: a renumbered place is one
/// `PutTask` per shifted task.
#[derive(Debug)]
pub enum Write {
    PutTask(Task),
    PutPlacement(Placement),
    /// Only ever from the undo of the move that wrote the row.
    DeletePlacement { task: Id, day: Date },
    PutSchedule(Schedule),
    /// Only ever from the undo of the CreateSchedule that wrote the row.
    DeleteSchedule(Id),
    PutNote(Note),
    PushUndo(UndoEntry),
    PopUndo(Id),
    /// Delete the lowest ids beyond the cap.
    TruncateUndo(usize),
    SetMeta { key: String, value: String },
    /// Every settings row at once: the table is one value.
    PutSettings(Settings),
    /// One personal dictionary entry, insert or replace.
    PutDictionaryWord { key: String, word: String },
    DeleteDictionaryWord { key: String },
}

pub enum WriteView {
    PutTask(TaskView),
    PutPlacement(PlacementView),
    DeletePlacement { task: Id, day: Date },
    PutSchedule(ScheduleView),
    DeleteSchedule(Id),
    PutNote(NoteView),
    PushUndo(EntryView),
    PopUndo(Id),
    TruncateUndo(usize),
    SetMeta { key: Seq<char>, value: Seq<char> },
    PutSettings(Settings),
    PutDictionaryWord { key: Seq<char>, word: Seq<char> },
    DeleteDictionaryWord { key: Seq<char> },
}

impl View for Write {
    type V = WriteView;

    open spec fn view(&self) -> WriteView {
        match self {
            Write::PutTask(t) => WriteView::PutTask(t@),
            Write::PutPlacement(p) => WriteView::PutPlacement(p@),
            Write::DeletePlacement { task, day } => WriteView::DeletePlacement { task: *task, day: *day },
            Write::PutSchedule(s) => WriteView::PutSchedule(s@),
            Write::DeleteSchedule(id) => WriteView::DeleteSchedule(*id),
            Write::PutNote(n) => WriteView::PutNote(n@),
            Write::PushUndo(e) => WriteView::PushUndo(e@),
            Write::PopUndo(id) => WriteView::PopUndo(*id),
            Write::TruncateUndo(cap) => WriteView::TruncateUndo(*cap),
            Write::SetMeta { key, value } => WriteView::SetMeta { key: key@, value: value@ },
            Write::PutSettings(s) => WriteView::PutSettings(*s),
            Write::PutDictionaryWord { key, word } => WriteView::PutDictionaryWord { key: key@, word: word@ },
            Write::DeleteDictionaryWord { key } => WriteView::DeleteDictionaryWord { key: key@ },
        }
    }
}

/// What a command does, as a list of row writes.
#[derive(Debug)]
pub struct Change {
    pub writes: Vec<Write>,
}

pub open spec fn writes_view(ws: Seq<Write>) -> Seq<WriteView> {
    ws.map_values(|w: Write| w@)
}

impl View for Change {
    type V = Seq<WriteView>;

    open spec fn view(&self) -> Seq<WriteView> {
        writes_view(self.writes@)
    }
}

/// Where the first pair with a key stands, if one does.
pub open spec fn first_with_key(pairs: Seq<(Seq<char>, Seq<char>)>, key: Seq<char>) -> Option<int> {
    if exists|i: int| 0 <= i < pairs.len() && pairs[i].0 == key {
        Some(choose|i: int| 0 <= i < pairs.len() && pairs[i].0 == key && forall|j: int| 0 <= j < i ==> pairs[j].0 != key)
    } else {
        None
    }
}

/// A table of text with one key set: the pair replaced where the key is,
/// added at the end where it is not.
pub open spec fn set_pair(pairs: Seq<(Seq<char>, Seq<char>)>, key: Seq<char>, value: Seq<char>) -> Seq<(Seq<char>, Seq<char>)> {
    match first_with_key(pairs, key) {
        Some(i) => pairs.update(i, (key, value)),
        None => pairs.push((key, value)),
    }
}

/// A table of text with a key taken out.
pub open spec fn without_key(pairs: Seq<(Seq<char>, Seq<char>)>, key: Seq<char>) -> Seq<(Seq<char>, Seq<char>)>
    decreases pairs.len(),
{
    if pairs.len() == 0 {
        pairs
    } else {
        let rest = without_key(pairs.drop_last(), key);
        if pairs.last().0 == key {
            rest
        } else {
            rest.push(pairs.last())
        }
    }
}

/// The undo stack with an entry taken out.
pub open spec fn without_entry(entries: Seq<EntryView>, id: Id) -> Seq<EntryView>
    decreases entries.len(),
{
    if entries.len() == 0 {
        entries
    } else {
        let rest = without_entry(entries.drop_last(), id);
        if entries.last().id == id {
            rest
        } else {
            rest.push(entries.last())
        }
    }
}

/// The undo stack held to a length: the oldest entries beyond it go.
pub open spec fn truncated(entries: Seq<EntryView>, cap: usize) -> Seq<EntryView> {
    let over = if entries.len() > cap {
        entries.len() - cap
    } else {
        0
    };
    entries.subrange(over as int, entries.len() as int)
}

/// What one write does to a model.
pub open spec fn apply_write(m: ModelView, w: WriteView) -> ModelView {
    match w {
        WriteView::PutTask(t) => ModelView { tasks: m.tasks.insert(t.id, t), ..m },
        WriteView::PutPlacement(p) => ModelView { placements: m.placements.insert(key_of(p.task_id, p.day), p), ..m },
        WriteView::DeletePlacement { task, day } => ModelView { placements: m.placements.remove(key_of(task, day)), ..m },
        WriteView::PutSchedule(s) => ModelView { schedules: m.schedules.insert(s.id, s), ..m },
        WriteView::DeleteSchedule(id) => ModelView { schedules: m.schedules.remove(id), ..m },
        WriteView::PutNote(n) => ModelView { notes: m.notes.insert(n.id, n), ..m },
        WriteView::PushUndo(e) => ModelView { undo: m.undo.push(e), ..m },
        WriteView::PopUndo(id) => ModelView { undo: without_entry(m.undo, id), ..m },
        WriteView::TruncateUndo(cap) => ModelView { undo: truncated(m.undo, cap), ..m },
        WriteView::SetMeta { key, value } => ModelView { meta: set_pair(m.meta, key, value), ..m },
        WriteView::PutSettings(s) => ModelView { settings: s, ..m },
        WriteView::PutDictionaryWord { key, word } => ModelView { dictionary: set_pair(m.dictionary, key, word), ..m },
        WriteView::DeleteDictionaryWord { key } => ModelView { dictionary: without_key(m.dictionary, key), ..m },
    }
}

/// What a list of writes does to a model, in order.
pub open spec fn apply_writes(m: ModelView, ws: Seq<WriteView>) -> ModelView
    decreases ws.len(),
{
    if ws.len() == 0 {
        m
    } else {
        apply_write(apply_writes(m, ws.drop_last()), ws.last())
    }
}

fn set_pair_in(pairs: &mut Vec<(String, String)>, key: &String, value: &String)
    ensures
        pairs_view(final(pairs)@) == set_pair(pairs_view(old(pairs)@), key@, value@),
{
    let ghost v = pairs_view(pairs@);
    let mut i: usize = 0;
    while i < pairs.len()
        invariant
            i <= pairs@.len(),
            v == pairs_view(pairs@),
            v == pairs_view(old(pairs)@),
            forall|j: int| 0 <= j < i ==> #[trigger] v[j].0 != key@,
        decreases pairs@.len() - i,
    {
        if pairs[i].0 == *key {
            proof {
                assert(v[i as int].0 == key@);
                let c = choose|c: int| 0 <= c < v.len() && v[c].0 == key@ && forall|j: int| 0 <= j < c ==> v[j].0 != key@;
                assert(c == i as int);
            }
            pairs.set(i, (copy_string(key), copy_string(value)));
            assert(pairs_view(pairs@) =~= v.update(i as int, (key@, value@)));
            return ;
        }
        i = i + 1;
    }
    pairs.push((copy_string(key), copy_string(value)));
    assert(pairs_view(pairs@) =~= v.push((key@, value@)));
}

fn drop_key(pairs: &mut Vec<(String, String)>, key: &String)
    ensures
        pairs_view(final(pairs)@) == without_key(pairs_view(old(pairs)@), key@),
{
    let ghost v = pairs_view(pairs@);
    let mut kept: Vec<(String, String)> = Vec::new();
    let mut i: usize = 0;
    while i < pairs.len()
        invariant
            i <= pairs@.len(),
            v == pairs_view(pairs@),
            pairs_view(kept@) == without_key(v.subrange(0, i as int), key@),
        decreases pairs@.len() - i,
    {
        assert(v.subrange(0, i + 1).drop_last() =~= v.subrange(0, i as int));
        if pairs[i].0 != *key {
            let ghost before = kept@;
            kept.push((copy_string(&pairs[i].0), copy_string(&pairs[i].1)));
            assert(pairs_view(kept@) =~= pairs_view(before).push(v[i as int]));
        }
        i = i + 1;
    }
    assert(v.subrange(0, v.len() as int) =~= v);
    *pairs = kept;
}

fn drop_entry(entries: &mut Vec<UndoEntry>, id: Id)
    ensures
        undo_view(final(entries)@) == without_entry(undo_view(old(entries)@), id),
{
    let ghost v = undo_view(entries@);
    let mut kept: Vec<UndoEntry> = Vec::new();
    let mut i: usize = 0;
    while i < entries.len()
        invariant
            i <= entries@.len(),
            v == undo_view(entries@),
            undo_view(kept@) == without_entry(v.subrange(0, i as int), id),
        decreases entries@.len() - i,
    {
        assert(v.subrange(0, i + 1).drop_last() =~= v.subrange(0, i as int));
        if entries[i].id != id {
            let ghost before = kept@;
            kept.push(entries[i].copy());
            assert(undo_view(kept@) =~= undo_view(before).push(v[i as int]));
        }
        i = i + 1;
    }
    assert(v.subrange(0, v.len() as int) =~= v);
    *entries = kept;
}

fn truncate_entries(entries: &mut Vec<UndoEntry>, cap: usize)
    ensures
        undo_view(final(entries)@) == truncated(undo_view(old(entries)@), cap),
{
    let ghost v = undo_view(entries@);
    let over = if entries.len() > cap {
        entries.len() - cap
    } else {
        0
    };
    let mut kept: Vec<UndoEntry> = Vec::new();
    let mut i: usize = over;
    while i < entries.len()
        invariant
            over <= i <= entries@.len(),
            v == undo_view(entries@),
            undo_view(kept@) == v.subrange(over as int, i as int),
        decreases entries@.len() - i,
    {
        let ghost before = kept@;
        kept.push(entries[i].copy());
        assert(undo_view(kept@) =~= undo_view(before).push(v[i as int]));
        assert(v.subrange(over as int, i + 1) =~= v.subrange(over as int, i as int).push(v[i as int]));
        i = i + 1;
    }
    *entries = kept;
}

impl Model {
    /// Applies one write.
    pub fn apply_one(&mut self, write: &Write)
        ensures
            final(self)@ == apply_write(old(self)@, write@),
    {
        match write {
            Write::PutTask(t) => {
                let c = t.copy();
                proof {
                    assert(tasks_view(self.tasks@.insert(c.id, c)) =~= tasks_view(self.tasks@).insert(c.id, c@));
                }
                self.tasks.insert(c.id, c);
            },
            Write::PutPlacement(p) => {
                let c = p.copy();
                let key = placement_key(c.task_id, c.day);
                proof {
                    assert(placements_view(self.placements@.insert(key, c)) =~= placements_view(self.placements@).insert(key, c@));
                }
                self.placements.insert(key, c);
            },
            Write::DeletePlacement { task, day } => {
                let key = placement_key(*task, *day);
                proof {
                    assert(placements_view(self.placements@.remove(key)) =~= placements_view(self.placements@).remove(key));
                }
                self.placements.remove(&key);
            },
            Write::PutSchedule(s) => {
                let c = s.copy();
                proof {
                    assert(schedules_view(self.schedules@.insert(c.id, c)) =~= schedules_view(self.schedules@).insert(c.id, c@));
                }
                self.schedules.insert(c.id, c);
            },
            Write::DeleteSchedule(id) => {
                proof {
                    assert(schedules_view(self.schedules@.remove(*id)) =~= schedules_view(self.schedules@).remove(*id));
                }
                self.schedules.remove(id);
            },
            Write::PutNote(n) => {
                let c = n.copy();
                proof {
                    assert(notes_view(self.notes@.insert(c.id, c)) =~= notes_view(self.notes@).insert(c.id, c@));
                }
                self.notes.insert(c.id, c);
            },
            Write::PushUndo(e) => {
                let ghost before = self.undo@;
                self.undo.push(e.copy());
                assert(undo_view(self.undo@) =~= undo_view(before).push(e@));
            },
            Write::PopUndo(id) => drop_entry(&mut self.undo, *id),
            Write::TruncateUndo(cap) => truncate_entries(&mut self.undo, *cap),
            Write::SetMeta { key, value } => set_pair_in(&mut self.meta, key, value),
            Write::PutSettings(s) => {
                self.settings = *s;
            },
            Write::PutDictionaryWord { key, word } => set_pair_in(&mut self.personal_dictionary, key, word),
            Write::DeleteDictionaryWord { key } => drop_key(&mut self.personal_dictionary, key),
        }
    }

    /// Applies a change that storage has already committed.
    pub fn apply(&mut self, change: &Change)
        ensures
            final(self)@ == apply_writes(old(self)@, change@),
    {
        let ghost m0 = self@;
        let ghost ws = change@;
        let mut i: usize = 0;
        while i < change.writes.len()
            invariant
                i <= change.writes@.len(),
                ws == writes_view(change.writes@),
                self@ == apply_writes(m0, ws.subrange(0, i as int)),
            decreases change.writes@.len() - i,
        {
            assert(ws.subrange(0, i + 1).drop_last() =~= ws.subrange(0, i as int));
            self.apply_one(&change.writes[i]);
            i = i + 1;
        }
        assert(ws.subrange(0, ws.len() as int) =~= ws);
    }
}

// ---- comparing rows --------------------------------------------------

fn same_day(a: Option<Date>, b: Option<Date>) -> (r: bool)
    ensures
        r == (a == b),
{
    match (a, b) {
        (Some(x), Some(y)) => x == y,
        (None, None) => true,
        _ => false,
    }
}

fn same_id(a: Option<Id>, b: Option<Id>) -> (r: bool)
    ensures
        r == (a == b),
{
    match (a, b) {
        (Some(x), Some(y)) => x == y,
        (None, None) => true,
        _ => false,
    }
}

/// Whether two task rows are the same row.
pub fn same_task(a: &Task, b: &Task) -> (r: bool)
    ensures
        r == (a@ == b@),
{
    a.id == b.id && a.title == b.title && same_day(a.day, b.day) && a.position == b.position
        && a.focus == b.focus && a.waiting == b.waiting && super::time::same_stamp(&a.closed_at, &b.closed_at)
        && same_day(a.due_on, b.due_on) && same_day(a.remind_on, b.remind_on) && same_id(
        a.schedule_id,
        b.schedule_id,
    ) && same_day(a.scheduled_on, b.scheduled_on) && a.created_at.same(&b.created_at)
        && super::time::same_stamp(&a.deleted_at, &b.deleted_at)
}

pub fn same_placement(a: &Placement, b: &Placement) -> (r: bool)
    ensures
        r == (a@ == b@),
{
    a.task_id == b.task_id && a.day == b.day && a.placed_at.same(&b.placed_at) && a.from_place == b.from_place
}

fn same_weekdays(a: &Vec<super::rule::Weekday>, b: &Vec<super::rule::Weekday>) -> (r: bool)
    ensures
        r == (a@ == b@),
{
    if a.len() != b.len() {
        return false;
    }
    let mut i: usize = 0;
    while i < a.len()
        invariant
            i <= a@.len(),
            a@.len() == b@.len(),
            forall|j: int| 0 <= j < i ==> a@[j] == b@[j],
        decreases a@.len() - i,
    {
        if a[i] != b[i] {
            return false;
        }
        i = i + 1;
    }
    assert(a@ =~= b@);
    true
}

pub fn same_rule(a: &Rule, b: &Rule) -> (r: bool)
    ensures
        r == (a@ == b@),
{
    match (a, b) {
        (Rule::Workdays, Rule::Workdays) => true,
        (Rule::Daily, Rule::Daily) => true,
        (Rule::Weekly { weekdays: x }, Rule::Weekly { weekdays: y }) => same_weekdays(x, y),
        (Rule::Monthly { day: x }, Rule::Monthly { day: y }) => *x == *y,
        (Rule::EveryNWeeks { n: x, from: f }, Rule::EveryNWeeks { n: y, from: g }) => *x == *y && *f == *g,
        _ => false,
    }
}

pub fn same_schedule(a: &Schedule, b: &Schedule) -> (r: bool)
    ensures
        r == (a@ == b@),
{
    a.id == b.id && a.title == b.title && same_rule(&a.rule, &b.rule) && a.generated_through
        == b.generated_through && same_day(a.stopped_on, b.stopped_on) && a.created_at.same(&b.created_at)
}

pub fn same_note(a: &Note, b: &Note) -> (r: bool)
    ensures
        r == (a@ == b@),
{
    a.id == b.id && a.body == b.body && a.created_at.same(&b.created_at) && a.updated_at.same(&b.updated_at)
        && super::time::same_stamp(&a.deleted_at, &b.deleted_at)
}

/// The keys of a table, each once.
pub fn ids_of<V>(table: &BTreeMap<Id, V>) -> (keys: Vec<Id>)
    ensures
        keys@.no_duplicates(),
        forall|k: Id| #[trigger] keys@.contains(k) <==> table@.contains_key(k),
{
    let ghost items = table.iter().remaining();
    let mut keys: Vec<Id> = Vec::new();
    for kv in it: table.iter()
        invariant
            it.seq() == items,
            items.no_duplicates(),
            forall|i: int| 0 <= i < items.len() ==> table@.contains_key(*items[i].0) && table@[*items[i].0] == *items[i].1,
            forall|k: Id| #[trigger] table@.contains_key(k) ==> items.contains((&k, &table@[k])),
            keys@.len() == it.index(),
            forall|j: int| 0 <= j < keys@.len() ==> #[trigger] keys@[j] == *items[j].0,
    {
        let (k, v) = kv;
        proof {
            assert(items[it.index()] == (k, v));
        }
        keys.push(*k);
    }
    proof {
        assert forall|a: int, b: int| 0 <= a < keys@.len() && 0 <= b < keys@.len() && a != b implies keys@[a] != keys@[b] by {
            if keys@[a] == keys@[b] {
                assert(*items[a].1 == table@[keys@[a]]);
                assert(*items[b].1 == table@[keys@[b]]);
                assert(items[a] == items[b]);
            }
        }
        assert forall|k: Id| #[trigger] keys@.contains(k) <==> table@.contains_key(k) by {
            if table@.contains_key(k) {
                assert(items.contains((&k, &table@[k])));
                let i = choose|i: int| 0 <= i < items.len() && items[i] == (&k, &table@[k]);
                assert(keys@[i] == k);
            }
        }
    }
    keys
}

/// The keys of the placements, each once.
pub fn placement_keys(table: &BTreeMap<PlacementKey, Placement>) -> (keys: Vec<PlacementKey>)
    ensures
        keys@.no_duplicates(),
        forall|k: PlacementKey| #[trigger] keys@.contains(k) <==> table@.contains_key(k),
{
    let ghost items = table.iter().remaining();
    let mut keys: Vec<PlacementKey> = Vec::new();
    for kv in it: table.iter()
        invariant
            it.seq() == items,
            items.no_duplicates(),
            forall|i: int| 0 <= i < items.len() ==> table@.contains_key(*items[i].0) && table@[*items[i].0] == *items[i].1,
            forall|k: PlacementKey| #[trigger] table@.contains_key(k) ==> items.contains((&k, &table@[k])),
            keys@.len() == it.index(),
            forall|j: int| 0 <= j < keys@.len() ==> #[trigger] keys@[j] == *items[j].0,
    {
        let (k, v) = kv;
        proof {
            assert(items[it.index()] == (k, v));
        }
        keys.push(*k);
    }
    proof {
        assert forall|a: int, b: int| 0 <= a < keys@.len() && 0 <= b < keys@.len() && a != b implies keys@[a] != keys@[b] by {
            if keys@[a] == keys@[b] {
                assert(*items[a].1 == table@[keys@[a]]);
                assert(*items[b].1 == table@[keys@[b]]);
                assert(items[a] == items[b]);
            }
        }
        assert forall|k: PlacementKey| #[trigger] keys@.contains(k) <==> table@.contains_key(k) by {
            if table@.contains_key(k) {
                assert(items.contains((&k, &table@[k])));
                let i = choose|i: int| 0 <= i < items.len() && items[i] == (&k, &table@[k]);
                assert(keys@[i] == k);
            }
        }
    }
    keys
}

// ---- the difference between two models -------------------------------

/// Every row is filed under its own id, and every placement under its
/// task and its day.
pub open spec fn keyed(m: ModelView) -> bool {
    &&& forall|k: Id| #[trigger] m.tasks.contains_key(k) ==> m.tasks[k].id == k
    &&& forall|k: Id| #[trigger] m.schedules.contains_key(k) ==> m.schedules[k].id == k
    &&& forall|k: Id| #[trigger] m.notes.contains_key(k) ==> m.notes[k].id == k
    &&& forall|k: PlacementKey| #[trigger] m.placements.contains_key(k) ==> key_of(m.placements[k].task_id, m.placements[k].day) == k
}

/// A table laid over another where `keys` say.
pub open spec fn overlay<K, V>(base: Map<K, V>, top: Map<K, V>, keys: Set<K>) -> Map<K, V> {
    base.union_prefer_right(top.restrict(keys))
}

/// A table laid over another, and the keys the top one lacks taken out.
pub open spec fn replaced<K, V>(base: Map<K, V>, top: Map<K, V>) -> Map<K, V> {
    base.union_prefer_right(top).remove_keys(base.dom().difference(top.dom()))
}

pub proof fn lemma_apply_push(m: ModelView, ws: Seq<WriteView>, w: WriteView)
    ensures
        apply_writes(m, ws.push(w)) == apply_write(apply_writes(m, ws), w),
{
    assert(ws.push(w).drop_last() =~= ws);
}

fn push_write(out: &mut Vec<Write>, w: Write)
    ensures
        final(out)@.len() == old(out)@.len() + 1,
        writes_view(final(out)@) == writes_view(old(out)@).push(w@),
        forall|m: ModelView| apply_writes(m, writes_view(final(out)@)) == apply_write(apply_writes(m, writes_view(old(out)@)), w@),
{
    let ghost before = out@;
    out.push(w);
    assert(writes_view(out@) =~= writes_view(before).push(w@));
    proof {
        assert forall|m: ModelView| apply_writes(m, writes_view(out@)) == apply_write(apply_writes(m, writes_view(before)), w@) by {
            lemma_apply_push(m, writes_view(before), w@);
        }
    }
}

/// Two models that differ, if at all, in their tasks.
pub open spec fn same_but_tasks(a: ModelView, b: ModelView) -> bool {
    b == (ModelView { tasks: b.tasks, ..a })
}

/// Every task row of `after` is filed under its own id.
pub open spec fn tasks_keyed(after: ModelView) -> bool {
    forall|k: Id| #[trigger] after.tasks.contains_key(k) ==> after.tasks[k].id == k
}

/// The writes from `from` on put task rows of `after` that `before`
/// does not hold.
pub open spec fn puts_changed_tasks(before: ModelView, after: ModelView, ws: Seq<WriteView>, from: int) -> bool {
    forall|j: int| from <= j < ws.len() ==> (#[trigger] ws[j] matches WriteView::PutTask(t) && changed_task(before, after, t))
}

/// A task row `after` holds under some key where `before` does not hold it.
pub open spec fn changed_task(before: ModelView, after: ModelView, t: TaskView) -> bool {
    exists|k: Id| after.tasks.contains_key(k) && after.tasks[k] == t && !(before.tasks.contains_key(k) && before.tasks[k] == t)
}

/// The elements of the first `n` of a sequence, as a set.
pub open spec fn first_n<K>(s: Seq<K>, n: int) -> Set<K> {
    Set::new(|k: K| exists|j: int| 0 <= j < n && s[j] == k)
}

/// Two lists of writes that agree on the first `n`.
pub open spec fn agree_on(a: Seq<WriteView>, b: Seq<WriteView>, n: int) -> bool {
    forall|j: int| 0 <= j < n ==> a[j] == b[j]
}

/// The task rows of `after` that differ from `before`, written.
fn put_changed_tasks(before: &Model, after: &Model, out: &mut Vec<Write>)
    ensures
        same_but_tasks(apply_writes(before@, writes_view(old(out)@)), apply_writes(before@, writes_view(final(out)@))),
        apply_writes(before@, writes_view(old(out)@)).tasks == before@.tasks && tasks_keyed(after@)
            ==> apply_writes(before@, writes_view(final(out)@)).tasks == before@.tasks.union_prefer_right(after@.tasks),
        puts_changed_tasks(before@, after@, writes_view(final(out)@), old(out)@.len() as int),
        agree_on(writes_view(final(out)@), writes_view(old(out)@), old(out)@.len() as int),
        old(out)@.len() <= final(out)@.len(),
{
    let ghost base = apply_writes(before@, writes_view(out@));
    let ghost start = out@.len();
    let ks = ids_of(&after.tasks);
    proof {
        assert(first_n(ks@, 0) =~= Set::<Id>::empty());
        assert(before@.tasks.union_prefer_right(after@.tasks.restrict(Set::<Id>::empty())) =~= before@.tasks);
    }
    let mut i: usize = 0;
    while i < ks.len()
        invariant
            i <= ks@.len(),
            ks@.no_duplicates(),
            forall|k: Id| #[trigger] ks@.contains(k) <==> after.tasks@.contains_key(k),
            start <= out@.len(),
            same_but_tasks(base, apply_writes(before@, writes_view(out@))),
            tasks_keyed(after@) && base.tasks == before@.tasks ==> apply_writes(before@, writes_view(out@)).tasks
                == overlay(before@.tasks, after@.tasks, first_n(ks@, i as int)),
            puts_changed_tasks(before@, after@, writes_view(out@), start as int),
            agree_on(writes_view(out@), writes_view(old(out)@), start as int),
            base == apply_writes(before@, writes_view(old(out)@)),
            start == old(out)@.len(),
        decreases ks@.len() - i,
    {
        let k = ks[i];
        proof {
            assert(ks@.contains(k));
        }
        let a = after.tasks.get(&k).unwrap();
        let ghost cur = apply_writes(before@, writes_view(out@));
        let ghost done = first_n(ks@, i as int);
        let ghost next = first_n(ks@, i + 1);
        proof {
            assert forall|x: Id| next.contains(x) == done.insert(k).contains(x) by {
                if x == k {
                    assert(ks@[i as int] == k);
                }
            }
            assert(next =~= done.insert(k));
            assert(!done.contains(k)) by {
                if done.contains(k) {
                    let j = choose|j: int| 0 <= j < i && ks@[j] == k;
                    assert(ks@[j] == ks@[i as int]);
                }
            }
        }
        let same = match before.tasks.get(&k) {
            Some(b) => same_task(a, b),
            None => false,
        };
        if !same {
            let c = a.copy();
            let ghost was = writes_view(out@);
            push_write(out, Write::PutTask(c));
            proof {
                assert(c@ == after@.tasks[k]);
                if tasks_keyed(after@) && base.tasks == before@.tasks {
                    assert(after@.tasks.contains_key(k));
                    assert(after@.tasks[k].id == k);
                    assert(apply_writes(before@, writes_view(out@)).tasks =~= overlay(before@.tasks, after@.tasks, next));
                }
                assert(changed_task(before@, after@, c@));
                assert forall|j: int| start <= j < writes_view(out@).len() implies (#[trigger] writes_view(out@)[j] matches WriteView::PutTask(t)
                    && changed_task(before@, after@, t)) by {
                    if j < was.len() {
                        assert(writes_view(out@)[j] == was[j]);
                    }
                }
                assert forall|j: int| 0 <= j < start implies writes_view(out@)[j] == writes_view(old(out)@)[j] by {
                    assert(writes_view(out@)[j] == was[j]);
                }
            }
        } else {
            proof {
                if tasks_keyed(after@) && base.tasks == before@.tasks {
                    assert(cur.tasks =~= overlay(before@.tasks, after@.tasks, next));
                }
            }
        }
        i = i + 1;
    }
    proof {
        if tasks_keyed(after@) && base.tasks == before@.tasks {
            assert forall|x: Id| first_n(ks@, ks@.len() as int).contains(x) == after@.tasks.dom().contains(x) by {
                if after@.tasks.dom().contains(x) {
                    assert(ks@.contains(x));
                    let j = choose|j: int| 0 <= j < ks@.len() && ks@[j] == x;
                }
                if first_n(ks@, ks@.len() as int).contains(x) {
                    let j = choose|j: int| 0 <= j < ks@.len() && ks@[j] == x;
                    assert(ks@.contains(x));
                    assert(after.tasks@.contains_key(x));
                }
            }
            assert(first_n(ks@, ks@.len() as int) =~= after@.tasks.dom());
            assert(after@.tasks.restrict(after@.tasks.dom()) =~= after@.tasks);
        }
    }
}

/// Two models that differ, if at all, in their schedules.
pub open spec fn same_but_schedules(a: ModelView, b: ModelView) -> bool {
    b == (ModelView { schedules: b.schedules, ..a })
}

/// Every schedule row of `after` is filed under its own key.
pub open spec fn schedules_keyed(after: ModelView) -> bool {
    forall|k: Id| #[trigger] after.schedules.contains_key(k) ==> after.schedules[k].id == k
}

/// The writes from `from` on put schedule rows of `after` that `before`
/// does not hold.
pub open spec fn puts_changed_schedules(before: ModelView, after: ModelView, ws: Seq<WriteView>, from: int) -> bool {
    forall|j: int| from <= j < ws.len() ==> (#[trigger] ws[j] matches WriteView::PutSchedule(t) && changed_schedule(before, after, t))
}

/// A schedule row `after` holds under some key where `before` does not hold it.
pub open spec fn changed_schedule(before: ModelView, after: ModelView, t: ScheduleView) -> bool {
    exists|k: Id| after.schedules.contains_key(k) && after.schedules[k] == t && !(before.schedules.contains_key(k) && before.schedules[k] == t)
}



/// The schedule rows of `after` that differ from `before`, written.
fn put_changed_schedules(before: &Model, after: &Model, out: &mut Vec<Write>)
    ensures
        same_but_schedules(apply_writes(before@, writes_view(old(out)@)), apply_writes(before@, writes_view(final(out)@))),
        apply_writes(before@, writes_view(old(out)@)).schedules == before@.schedules && schedules_keyed(after@)
            ==> apply_writes(before@, writes_view(final(out)@)).schedules == before@.schedules.union_prefer_right(after@.schedules),
        puts_changed_schedules(before@, after@, writes_view(final(out)@), old(out)@.len() as int),
        agree_on(writes_view(final(out)@), writes_view(old(out)@), old(out)@.len() as int),
        old(out)@.len() <= final(out)@.len(),
{
    let ghost base = apply_writes(before@, writes_view(out@));
    let ghost start = out@.len();
    let ks = ids_of(&after.schedules);
    proof {
        assert(first_n(ks@, 0) =~= Set::<Id>::empty());
        assert(before@.schedules.union_prefer_right(after@.schedules.restrict(Set::<Id>::empty())) =~= before@.schedules);
    }
    let mut i: usize = 0;
    while i < ks.len()
        invariant
            i <= ks@.len(),
            ks@.no_duplicates(),
            forall|k: Id| #[trigger] ks@.contains(k) <==> after.schedules@.contains_key(k),
            start <= out@.len(),
            same_but_schedules(base, apply_writes(before@, writes_view(out@))),
            schedules_keyed(after@) && base.schedules == before@.schedules ==> apply_writes(before@, writes_view(out@)).schedules
                == overlay(before@.schedules, after@.schedules, first_n(ks@, i as int)),
            puts_changed_schedules(before@, after@, writes_view(out@), start as int),
            agree_on(writes_view(out@), writes_view(old(out)@), start as int),
            base == apply_writes(before@, writes_view(old(out)@)),
            start == old(out)@.len(),
        decreases ks@.len() - i,
    {
        let k = ks[i];
        proof {
            assert(ks@.contains(k));
        }
        let a = after.schedules.get(&k).unwrap();
        let ghost cur = apply_writes(before@, writes_view(out@));
        let ghost done = first_n(ks@, i as int);
        let ghost next = first_n(ks@, i + 1);
        proof {
            assert forall|x: Id| next.contains(x) == done.insert(k).contains(x) by {
                if x == k {
                    assert(ks@[i as int] == k);
                }
            }
            assert(next =~= done.insert(k));
            assert(!done.contains(k)) by {
                if done.contains(k) {
                    let j = choose|j: int| 0 <= j < i && ks@[j] == k;
                    assert(ks@[j] == ks@[i as int]);
                }
            }
        }
        let same = match before.schedules.get(&k) {
            Some(b) => same_schedule(a, b),
            None => false,
        };
        if !same {
            let c = a.copy();
            let ghost was = writes_view(out@);
            push_write(out, Write::PutSchedule(c));
            proof {
                assert(c@ == after@.schedules[k]);
                if schedules_keyed(after@) && base.schedules == before@.schedules {
                    assert(after@.schedules.contains_key(k));
                    assert(after@.schedules[k].id == k);
                    assert(apply_writes(before@, writes_view(out@)).schedules =~= overlay(before@.schedules, after@.schedules, next));
                }
                assert(changed_schedule(before@, after@, c@));
                assert forall|j: int| start <= j < writes_view(out@).len() implies (#[trigger] writes_view(out@)[j] matches WriteView::PutSchedule(t)
                    && changed_schedule(before@, after@, t)) by {
                    if j < was.len() {
                        assert(writes_view(out@)[j] == was[j]);
                    }
                }
                assert forall|j: int| 0 <= j < start implies writes_view(out@)[j] == writes_view(old(out)@)[j] by {
                    assert(writes_view(out@)[j] == was[j]);
                }
            }
        } else {
            proof {
                if schedules_keyed(after@) && base.schedules == before@.schedules {
                    assert(cur.schedules =~= overlay(before@.schedules, after@.schedules, next));
                }
            }
        }
        i = i + 1;
    }
    proof {
        if schedules_keyed(after@) && base.schedules == before@.schedules {
            assert forall|x: Id| first_n(ks@, ks@.len() as int).contains(x) == after@.schedules.dom().contains(x) by {
                if after@.schedules.dom().contains(x) {
                    assert(ks@.contains(x));
                    let j = choose|j: int| 0 <= j < ks@.len() && ks@[j] == x;
                }
                if first_n(ks@, ks@.len() as int).contains(x) {
                    let j = choose|j: int| 0 <= j < ks@.len() && ks@[j] == x;
                    assert(ks@.contains(x));
                    assert(after.schedules@.contains_key(x));
                }
            }
            assert(first_n(ks@, ks@.len() as int) =~= after@.schedules.dom());
            assert(after@.schedules.restrict(after@.schedules.dom()) =~= after@.schedules);
        }
    }
}

/// Two models that differ, if at all, in their notes.
pub open spec fn same_but_notes(a: ModelView, b: ModelView) -> bool {
    b == (ModelView { notes: b.notes, ..a })
}

/// Every note row of `after` is filed under its own key.
pub open spec fn notes_keyed(after: ModelView) -> bool {
    forall|k: Id| #[trigger] after.notes.contains_key(k) ==> after.notes[k].id == k
}

/// The writes from `from` on put note rows of `after` that `before`
/// does not hold.
pub open spec fn puts_changed_notes(before: ModelView, after: ModelView, ws: Seq<WriteView>, from: int) -> bool {
    forall|j: int| from <= j < ws.len() ==> (#[trigger] ws[j] matches WriteView::PutNote(t) && changed_note(before, after, t))
}

/// A note row `after` holds under some key where `before` does not hold it.
pub open spec fn changed_note(before: ModelView, after: ModelView, t: NoteView) -> bool {
    exists|k: Id| after.notes.contains_key(k) && after.notes[k] == t && !(before.notes.contains_key(k) && before.notes[k] == t)
}



/// The note rows of `after` that differ from `before`, written.
fn put_changed_notes(before: &Model, after: &Model, out: &mut Vec<Write>)
    ensures
        same_but_notes(apply_writes(before@, writes_view(old(out)@)), apply_writes(before@, writes_view(final(out)@))),
        apply_writes(before@, writes_view(old(out)@)).notes == before@.notes && notes_keyed(after@)
            ==> apply_writes(before@, writes_view(final(out)@)).notes == before@.notes.union_prefer_right(after@.notes),
        puts_changed_notes(before@, after@, writes_view(final(out)@), old(out)@.len() as int),
        agree_on(writes_view(final(out)@), writes_view(old(out)@), old(out)@.len() as int),
        old(out)@.len() <= final(out)@.len(),
{
    let ghost base = apply_writes(before@, writes_view(out@));
    let ghost start = out@.len();
    let ks = ids_of(&after.notes);
    proof {
        assert(first_n(ks@, 0) =~= Set::<Id>::empty());
        assert(before@.notes.union_prefer_right(after@.notes.restrict(Set::<Id>::empty())) =~= before@.notes);
    }
    let mut i: usize = 0;
    while i < ks.len()
        invariant
            i <= ks@.len(),
            ks@.no_duplicates(),
            forall|k: Id| #[trigger] ks@.contains(k) <==> after.notes@.contains_key(k),
            start <= out@.len(),
            same_but_notes(base, apply_writes(before@, writes_view(out@))),
            notes_keyed(after@) && base.notes == before@.notes ==> apply_writes(before@, writes_view(out@)).notes
                == overlay(before@.notes, after@.notes, first_n(ks@, i as int)),
            puts_changed_notes(before@, after@, writes_view(out@), start as int),
            agree_on(writes_view(out@), writes_view(old(out)@), start as int),
            base == apply_writes(before@, writes_view(old(out)@)),
            start == old(out)@.len(),
        decreases ks@.len() - i,
    {
        let k = ks[i];
        proof {
            assert(ks@.contains(k));
        }
        let a = after.notes.get(&k).unwrap();
        let ghost cur = apply_writes(before@, writes_view(out@));
        let ghost done = first_n(ks@, i as int);
        let ghost next = first_n(ks@, i + 1);
        proof {
            assert forall|x: Id| next.contains(x) == done.insert(k).contains(x) by {
                if x == k {
                    assert(ks@[i as int] == k);
                }
            }
            assert(next =~= done.insert(k));
            assert(!done.contains(k)) by {
                if done.contains(k) {
                    let j = choose|j: int| 0 <= j < i && ks@[j] == k;
                    assert(ks@[j] == ks@[i as int]);
                }
            }
        }
        let same = match before.notes.get(&k) {
            Some(b) => same_note(a, b),
            None => false,
        };
        if !same {
            let c = a.copy();
            let ghost was = writes_view(out@);
            push_write(out, Write::PutNote(c));
            proof {
                assert(c@ == after@.notes[k]);
                if notes_keyed(after@) && base.notes == before@.notes {
                    assert(after@.notes.contains_key(k));
                    assert(after@.notes[k].id == k);
                    assert(apply_writes(before@, writes_view(out@)).notes =~= overlay(before@.notes, after@.notes, next));
                }
                assert(changed_note(before@, after@, c@));
                assert forall|j: int| start <= j < writes_view(out@).len() implies (#[trigger] writes_view(out@)[j] matches WriteView::PutNote(t)
                    && changed_note(before@, after@, t)) by {
                    if j < was.len() {
                        assert(writes_view(out@)[j] == was[j]);
                    }
                }
                assert forall|j: int| 0 <= j < start implies writes_view(out@)[j] == writes_view(old(out)@)[j] by {
                    assert(writes_view(out@)[j] == was[j]);
                }
            }
        } else {
            proof {
                if notes_keyed(after@) && base.notes == before@.notes {
                    assert(cur.notes =~= overlay(before@.notes, after@.notes, next));
                }
            }
        }
        i = i + 1;
    }
    proof {
        if notes_keyed(after@) && base.notes == before@.notes {
            assert forall|x: Id| first_n(ks@, ks@.len() as int).contains(x) == after@.notes.dom().contains(x) by {
                if after@.notes.dom().contains(x) {
                    assert(ks@.contains(x));
                    let j = choose|j: int| 0 <= j < ks@.len() && ks@[j] == x;
                }
                if first_n(ks@, ks@.len() as int).contains(x) {
                    let j = choose|j: int| 0 <= j < ks@.len() && ks@[j] == x;
                    assert(ks@.contains(x));
                    assert(after.notes@.contains_key(x));
                }
            }
            assert(first_n(ks@, ks@.len() as int) =~= after@.notes.dom());
            assert(after@.notes.restrict(after@.notes.dom()) =~= after@.notes);
        }
    }
}

/// Two models that differ, if at all, in their placements.
pub open spec fn same_but_placements(a: ModelView, b: ModelView) -> bool {
    b == (ModelView { placements: b.placements, ..a })
}

/// Every placement row of `after` is filed under its own key.
pub open spec fn placements_keyed(after: ModelView) -> bool {
    forall|k: PlacementKey| #[trigger] after.placements.contains_key(k) ==> key_of(after.placements[k].task_id, after.placements[k].day) == k
}

/// The writes from `from` on put placement rows of `after` that `before`
/// does not hold.
pub open spec fn puts_changed_placements(before: ModelView, after: ModelView, ws: Seq<WriteView>, from: int) -> bool {
    forall|j: int| from <= j < ws.len() ==> (#[trigger] ws[j] matches WriteView::PutPlacement(t) && changed_placement(before, after, t))
}

/// A placement row `after` holds under some key where `before` does not hold it.
pub open spec fn changed_placement(before: ModelView, after: ModelView, t: PlacementView) -> bool {
    exists|k: PlacementKey| after.placements.contains_key(k) && after.placements[k] == t && !(before.placements.contains_key(k) && before.placements[k] == t)
}



/// The placement rows of `after` that differ from `before`, written.
fn put_changed_placements(before: &Model, after: &Model, out: &mut Vec<Write>)
    ensures
        same_but_placements(apply_writes(before@, writes_view(old(out)@)), apply_writes(before@, writes_view(final(out)@))),
        apply_writes(before@, writes_view(old(out)@)).placements == before@.placements && placements_keyed(after@)
            ==> apply_writes(before@, writes_view(final(out)@)).placements == before@.placements.union_prefer_right(after@.placements),
        puts_changed_placements(before@, after@, writes_view(final(out)@), old(out)@.len() as int),
        agree_on(writes_view(final(out)@), writes_view(old(out)@), old(out)@.len() as int),
        old(out)@.len() <= final(out)@.len(),
{
    let ghost base = apply_writes(before@, writes_view(out@));
    let ghost start = out@.len();
    let ks = placement_keys(&after.placements);
    proof {
        assert(first_n(ks@, 0) =~= Set::<PlacementKey>::empty());
        assert(before@.placements.union_prefer_right(after@.placements.restrict(Set::<PlacementKey>::empty())) =~= before@.placements);
    }
    let mut i: usize = 0;
    while i < ks.len()
        invariant
            i <= ks@.len(),
            ks@.no_duplicates(),
            forall|k: PlacementKey| #[trigger] ks@.contains(k) <==> after.placements@.contains_key(k),
            start <= out@.len(),
            same_but_placements(base, apply_writes(before@, writes_view(out@))),
            placements_keyed(after@) && base.placements == before@.placements ==> apply_writes(before@, writes_view(out@)).placements
                == overlay(before@.placements, after@.placements, first_n(ks@, i as int)),
            puts_changed_placements(before@, after@, writes_view(out@), start as int),
            agree_on(writes_view(out@), writes_view(old(out)@), start as int),
            base == apply_writes(before@, writes_view(old(out)@)),
            start == old(out)@.len(),
        decreases ks@.len() - i,
    {
        let k = ks[i];
        proof {
            assert(ks@.contains(k));
        }
        let a = after.placements.get(&k).unwrap();
        let ghost cur = apply_writes(before@, writes_view(out@));
        let ghost done = first_n(ks@, i as int);
        let ghost next = first_n(ks@, i + 1);
        proof {
            assert forall|x: PlacementKey| next.contains(x) == done.insert(k).contains(x) by {
                if x == k {
                    assert(ks@[i as int] == k);
                }
            }
            assert(next =~= done.insert(k));
            assert(!done.contains(k)) by {
                if done.contains(k) {
                    let j = choose|j: int| 0 <= j < i && ks@[j] == k;
                    assert(ks@[j] == ks@[i as int]);
                }
            }
        }
        let same = match before.placements.get(&k) {
            Some(b) => same_placement(a, b),
            None => false,
        };
        if !same {
            let c = a.copy();
            let ghost was = writes_view(out@);
            push_write(out, Write::PutPlacement(c));
            proof {
                assert(c@ == after@.placements[k]);
                if placements_keyed(after@) && base.placements == before@.placements {
                    assert(after@.placements.contains_key(k));
                    assert(key_of(after@.placements[k].task_id, after@.placements[k].day) == k);
                    assert(apply_writes(before@, writes_view(out@)).placements =~= overlay(before@.placements, after@.placements, next));
                }
                assert(changed_placement(before@, after@, c@));
                assert forall|j: int| start <= j < writes_view(out@).len() implies (#[trigger] writes_view(out@)[j] matches WriteView::PutPlacement(t)
                    && changed_placement(before@, after@, t)) by {
                    if j < was.len() {
                        assert(writes_view(out@)[j] == was[j]);
                    }
                }
                assert forall|j: int| 0 <= j < start implies writes_view(out@)[j] == writes_view(old(out)@)[j] by {
                    assert(writes_view(out@)[j] == was[j]);
                }
            }
        } else {
            proof {
                if placements_keyed(after@) && base.placements == before@.placements {
                    assert(cur.placements =~= overlay(before@.placements, after@.placements, next));
                }
            }
        }
        i = i + 1;
    }
    proof {
        if placements_keyed(after@) && base.placements == before@.placements {
            assert forall|x: PlacementKey| first_n(ks@, ks@.len() as int).contains(x) == after@.placements.dom().contains(x) by {
                if after@.placements.dom().contains(x) {
                    assert(ks@.contains(x));
                    let j = choose|j: int| 0 <= j < ks@.len() && ks@[j] == x;
                }
                if first_n(ks@, ks@.len() as int).contains(x) {
                    let j = choose|j: int| 0 <= j < ks@.len() && ks@[j] == x;
                    assert(ks@.contains(x));
                    assert(after.placements@.contains_key(x));
                }
            }
            assert(first_n(ks@, ks@.len() as int) =~= after@.placements.dom());
            assert(after@.placements.restrict(after@.placements.dom()) =~= after@.placements);
        }
    }
}

/// The keys `before` holds and `after` does not.
pub open spec fn gone_keys<K, V>(before: Map<K, V>, after: Map<K, V>) -> Set<K> {
    before.dom().difference(after.dom())
}

/// The writes from `from` on delete placements `before` holds and
/// `after` does not.
pub open spec fn deletes_gone_placements(before: ModelView, after: ModelView, ws: Seq<WriteView>, from: int) -> bool {
    forall|j: int| from <= j < ws.len() ==> (#[trigger] ws[j] matches WriteView::DeletePlacement { task, day }
        && gone_keys(before.placements, after.placements).contains(key_of(task, day)))
}

/// The placements `before` holds and `after` does not, deleted.
fn delete_gone_placements(before: &Model, after: &Model, out: &mut Vec<Write>)
    ensures
        same_but_placements(apply_writes(before@, writes_view(old(out)@)), apply_writes(before@, writes_view(final(out)@))),
        apply_writes(before@, writes_view(final(out)@)).placements == apply_writes(before@, writes_view(old(out)@)).placements.remove_keys(
            gone_keys(before@.placements, after@.placements),
        ),
        deletes_gone_placements(before@, after@, writes_view(final(out)@), old(out)@.len() as int),
        agree_on(writes_view(final(out)@), writes_view(old(out)@), old(out)@.len() as int),
        old(out)@.len() <= final(out)@.len(),
{
    let ghost base = apply_writes(before@, writes_view(out@));
    let ghost start = out@.len();
    let ghost gone = gone_keys(before@.placements, after@.placements);
    let ks = placement_keys(&before.placements);
    proof {
        assert(first_n(ks@, 0) =~= Set::<PlacementKey>::empty());
        assert(base.placements.remove_keys(Set::<PlacementKey>::empty().intersect(gone)) =~= base.placements);
    }
    let mut i: usize = 0;
    while i < ks.len()
        invariant
            i <= ks@.len(),
            ks@.no_duplicates(),
            forall|k: PlacementKey| #[trigger] ks@.contains(k) <==> before.placements@.contains_key(k),
            gone == gone_keys(before@.placements, after@.placements),
            start <= out@.len(),
            same_but_placements(base, apply_writes(before@, writes_view(out@))),
            apply_writes(before@, writes_view(out@)).placements == base.placements.remove_keys(first_n(ks@, i as int).intersect(gone)),
            deletes_gone_placements(before@, after@, writes_view(out@), start as int),
            agree_on(writes_view(out@), writes_view(old(out)@), start as int),
            base == apply_writes(before@, writes_view(old(out)@)),
            start == old(out)@.len(),
        decreases ks@.len() - i,
    {
        let k = ks[i];
        let ghost done = first_n(ks@, i as int);
        let ghost next = first_n(ks@, i + 1);
        let ghost cur = apply_writes(before@, writes_view(out@));
        proof {
            assert(ks@.contains(k));
            assert forall|x: PlacementKey| next.contains(x) == done.insert(k).contains(x) by {
                if x == k {
                    assert(ks@[i as int] == k);
                }
            }
            assert(next =~= done.insert(k));
        }
        if !after.placements.contains_key(&k) {
            let day = Date { year: k.1, month: k.2, day: k.3 };
            let ghost was = writes_view(out@);
            push_write(out, Write::DeletePlacement { task: k.0, day });
            proof {
                assert(key_of(k.0, day) == k);
                assert(gone.contains(k));
                assert(apply_writes(before@, writes_view(out@)).placements =~= base.placements.remove_keys(next.intersect(gone)));
                assert forall|j: int| start <= j < writes_view(out@).len() implies (#[trigger] writes_view(out@)[j] matches WriteView::DeletePlacement { task, day }
                    && gone.contains(key_of(task, day))) by {
                    if j < was.len() {
                        assert(writes_view(out@)[j] == was[j]);
                    }
                }
                assert forall|j: int| 0 <= j < start implies writes_view(out@)[j] == writes_view(old(out)@)[j] by {
                    assert(writes_view(out@)[j] == was[j]);
                }
            }
        } else {
            proof {
                assert(!gone.contains(k));
                assert(cur.placements =~= base.placements.remove_keys(next.intersect(gone)));
            }
        }
        i = i + 1;
    }
    proof {
        assert(first_n(ks@, ks@.len() as int).intersect(gone) =~= gone) by {
            assert forall|x: PlacementKey| gone.contains(x) implies first_n(ks@, ks@.len() as int).contains(x) by {
                assert(ks@.contains(x));
                let j = choose|j: int| 0 <= j < ks@.len() && ks@[j] == x;
            }
        }
    }
}

/// The writes from `from` on delete schedules `before` holds and `after`
/// does not.
pub open spec fn deletes_gone_schedules(before: ModelView, after: ModelView, ws: Seq<WriteView>, from: int) -> bool {
    forall|j: int| from <= j < ws.len() ==> (#[trigger] ws[j] matches WriteView::DeleteSchedule(id)
        && gone_keys(before.schedules, after.schedules).contains(id))
}

/// The schedules `before` holds and `after` does not, deleted.
fn delete_gone_schedules(before: &Model, after: &Model, out: &mut Vec<Write>)
    ensures
        same_but_schedules(apply_writes(before@, writes_view(old(out)@)), apply_writes(before@, writes_view(final(out)@))),
        apply_writes(before@, writes_view(final(out)@)).schedules == apply_writes(before@, writes_view(old(out)@)).schedules.remove_keys(
            gone_keys(before@.schedules, after@.schedules),
        ),
        deletes_gone_schedules(before@, after@, writes_view(final(out)@), old(out)@.len() as int),
        agree_on(writes_view(final(out)@), writes_view(old(out)@), old(out)@.len() as int),
        old(out)@.len() <= final(out)@.len(),
{
    let ghost base = apply_writes(before@, writes_view(out@));
    let ghost start = out@.len();
    let ghost gone = gone_keys(before@.schedules, after@.schedules);
    let ks = ids_of(&before.schedules);
    proof {
        assert(first_n(ks@, 0) =~= Set::<Id>::empty());
        assert(base.schedules.remove_keys(Set::<Id>::empty().intersect(gone)) =~= base.schedules);
    }
    let mut i: usize = 0;
    while i < ks.len()
        invariant
            i <= ks@.len(),
            ks@.no_duplicates(),
            forall|k: Id| #[trigger] ks@.contains(k) <==> before.schedules@.contains_key(k),
            gone == gone_keys(before@.schedules, after@.schedules),
            start <= out@.len(),
            same_but_schedules(base, apply_writes(before@, writes_view(out@))),
            apply_writes(before@, writes_view(out@)).schedules == base.schedules.remove_keys(first_n(ks@, i as int).intersect(gone)),
            deletes_gone_schedules(before@, after@, writes_view(out@), start as int),
            agree_on(writes_view(out@), writes_view(old(out)@), start as int),
            base == apply_writes(before@, writes_view(old(out)@)),
            start == old(out)@.len(),
        decreases ks@.len() - i,
    {
        let k = ks[i];
        let ghost done = first_n(ks@, i as int);
        let ghost next = first_n(ks@, i + 1);
        let ghost cur = apply_writes(before@, writes_view(out@));
        proof {
            assert(ks@.contains(k));
            assert forall|x: Id| next.contains(x) == done.insert(k).contains(x) by {
                if x == k {
                    assert(ks@[i as int] == k);
                }
            }
            assert(next =~= done.insert(k));
        }
        if !after.schedules.contains_key(&k) {
            let ghost was = writes_view(out@);
            push_write(out, Write::DeleteSchedule(k));
            proof {
                assert(gone.contains(k));
                assert(apply_writes(before@, writes_view(out@)).schedules =~= base.schedules.remove_keys(next.intersect(gone)));
                assert forall|j: int| start <= j < writes_view(out@).len() implies (#[trigger] writes_view(out@)[j] matches WriteView::DeleteSchedule(id)
                    && gone.contains(id)) by {
                    if j < was.len() {
                        assert(writes_view(out@)[j] == was[j]);
                    }
                }
                assert forall|j: int| 0 <= j < start implies writes_view(out@)[j] == writes_view(old(out)@)[j] by {
                    assert(writes_view(out@)[j] == was[j]);
                }
            }
        } else {
            proof {
                assert(!gone.contains(k));
                assert(cur.schedules =~= base.schedules.remove_keys(next.intersect(gone)));
            }
        }
        i = i + 1;
    }
    proof {
        assert(first_n(ks@, ks@.len() as int).intersect(gone) =~= gone) by {
            assert forall|x: Id| gone.contains(x) implies first_n(ks@, ks@.len() as int).contains(x) by {
                assert(ks@.contains(x));
                let j = choose|j: int| 0 <= j < ks@.len() && ks@[j] == x;
            }
        }
    }
}

// ---- the text tables --------------------------------------------------

/// Whether a table of text holds a key with a value.
pub open spec fn holds_pair(pairs: Seq<(Seq<char>, Seq<char>)>, key: Seq<char>, value: Seq<char>) -> bool {
    match first_with_key(pairs, key) {
        Some(i) => pairs[i].1 == value,
        None => false,
    }
}

/// The meta pairs of `after` that `before` does not hold, written, in
/// the order `after` holds them.
pub open spec fn meta_writes(before: Seq<(Seq<char>, Seq<char>)>, after: Seq<(Seq<char>, Seq<char>)>) -> Seq<WriteView>
    decreases after.len(),
{
    if after.len() == 0 {
        Seq::empty()
    } else {
        let rest = meta_writes(before, after.drop_last());
        let p = after.last();
        if holds_pair(before, p.0, p.1) {
            rest
        } else {
            rest.push(WriteView::SetMeta { key: p.0, value: p.1 })
        }
    }
}

/// The dictionary words of `after` that `before` does not hold, written.
pub open spec fn word_writes(before: Seq<(Seq<char>, Seq<char>)>, after: Seq<(Seq<char>, Seq<char>)>) -> Seq<WriteView>
    decreases after.len(),
{
    if after.len() == 0 {
        Seq::empty()
    } else {
        let rest = word_writes(before, after.drop_last());
        let p = after.last();
        if holds_pair(before, p.0, p.1) {
            rest
        } else {
            rest.push(WriteView::PutDictionaryWord { key: p.0, word: p.1 })
        }
    }
}

/// The dictionary keys of `before` that `after` lacks, deleted.
pub open spec fn word_deletes(before: Seq<(Seq<char>, Seq<char>)>, after: Seq<(Seq<char>, Seq<char>)>) -> Seq<WriteView>
    decreases before.len(),
{
    if before.len() == 0 {
        Seq::empty()
    } else {
        let rest = word_deletes(before.drop_last(), after);
        let p = before.last();
        if first_with_key(after, p.0) is Some {
            rest
        } else {
            rest.push(WriteView::DeleteDictionaryWord { key: p.0 })
        }
    }
}

/// Where the first pair with a key stands in a table of text.
pub(crate) fn find_key(pairs: &Vec<(String, String)>, key: &String) -> (r: Option<usize>)
    ensures
        match r {
            Some(i) => first_with_key(pairs_view(pairs@), key@) == Some(i as int) && i < pairs@.len(),
            None => first_with_key(pairs_view(pairs@), key@) is None,
        },
{
    let ghost v = pairs_view(pairs@);
    let mut i: usize = 0;
    while i < pairs.len()
        invariant
            i <= pairs@.len(),
            v == pairs_view(pairs@),
            forall|j: int| 0 <= j < i ==> #[trigger] v[j].0 != key@,
        decreases pairs@.len() - i,
    {
        if pairs[i].0 == *key {
            proof {
                assert(v[i as int].0 == key@);
                let c = choose|c: int| 0 <= c < v.len() && v[c].0 == key@ && forall|j: int| 0 <= j < c ==> v[j].0 != key@;
                assert(c == i as int);
            }
            return Some(i);
        }
        i = i + 1;
    }
    None
}

fn holds_pair_in(pairs: &Vec<(String, String)>, key: &String, value: &String) -> (r: bool)
    ensures
        r == holds_pair(pairs_view(pairs@), key@, value@),
{
    match find_key(pairs, key) {
        Some(i) => pairs[i].1 == *value,
        None => false,
    }
}

pub open spec fn same_but_meta(a: ModelView, b: ModelView) -> bool {
    b == (ModelView { meta: b.meta, ..a })
}

pub open spec fn same_but_dictionary(a: ModelView, b: ModelView) -> bool {
    b == (ModelView { dictionary: b.dictionary, ..a })
}

fn put_changed_meta(before: &Model, after: &Model, out: &mut Vec<Write>)
    ensures
        writes_view(final(out)@) == writes_view(old(out)@) + meta_writes(before@.meta, after@.meta),
        same_but_meta(apply_writes(before@, writes_view(old(out)@)), apply_writes(before@, writes_view(final(out)@))),
{
    let ghost w0 = writes_view(out@);
    let ghost base = apply_writes(before@, w0);
    let mut i: usize = 0;
    proof {
        assert(after@.meta.subrange(0, 0) =~= Seq::<(Seq<char>, Seq<char>)>::empty());
        assert(w0 + Seq::<WriteView>::empty() =~= w0);
    }
    while i < after.meta.len()
        invariant
            i <= after.meta@.len(),
            writes_view(out@) == w0 + meta_writes(before@.meta, after@.meta.subrange(0, i as int)),
            same_but_meta(base, apply_writes(before@, writes_view(out@))),
            base == apply_writes(before@, w0),
        decreases after.meta@.len() - i,
    {
        let (k, v) = &after.meta[i];
        proof {
            assert(after@.meta.subrange(0, i + 1).drop_last() =~= after@.meta.subrange(0, i as int));
            assert(after@.meta.subrange(0, i + 1).last() == (k@, v@));
        }
        if !holds_pair_in(&before.meta, k, v) {
            let ghost was = writes_view(out@);
            push_write(out, Write::SetMeta { key: copy_string(k), value: copy_string(v) });
            assert(writes_view(out@) =~= w0 + meta_writes(before@.meta, after@.meta.subrange(0, i + 1)));
        }
        i = i + 1;
    }
    assert(after@.meta.subrange(0, after@.meta.len() as int) =~= after@.meta);
}

fn put_changed_words(before: &Model, after: &Model, out: &mut Vec<Write>)
    ensures
        writes_view(final(out)@) == writes_view(old(out)@) + word_writes(before@.dictionary, after@.dictionary),
        same_but_dictionary(apply_writes(before@, writes_view(old(out)@)), apply_writes(before@, writes_view(final(out)@))),
{
    let ghost w0 = writes_view(out@);
    let ghost base = apply_writes(before@, w0);
    let mut i: usize = 0;
    proof {
        assert(w0 + Seq::<WriteView>::empty() =~= w0);
    }
    while i < after.personal_dictionary.len()
        invariant
            i <= after.personal_dictionary@.len(),
            writes_view(out@) == w0 + word_writes(before@.dictionary, after@.dictionary.subrange(0, i as int)),
            same_but_dictionary(base, apply_writes(before@, writes_view(out@))),
            base == apply_writes(before@, w0),
        decreases after.personal_dictionary@.len() - i,
    {
        let (k, v) = &after.personal_dictionary[i];
        proof {
            assert(after@.dictionary.subrange(0, i + 1).drop_last() =~= after@.dictionary.subrange(0, i as int));
            assert(after@.dictionary.subrange(0, i + 1).last() == (k@, v@));
        }
        if !holds_pair_in(&before.personal_dictionary, k, v) {
            push_write(out, Write::PutDictionaryWord { key: copy_string(k), word: copy_string(v) });
            assert(writes_view(out@) =~= w0 + word_writes(before@.dictionary, after@.dictionary.subrange(0, i + 1)));
        }
        i = i + 1;
    }
    assert(after@.dictionary.subrange(0, after@.dictionary.len() as int) =~= after@.dictionary);
}

fn delete_gone_words(before: &Model, after: &Model, out: &mut Vec<Write>)
    ensures
        writes_view(final(out)@) == writes_view(old(out)@) + word_deletes(before@.dictionary, after@.dictionary),
        same_but_dictionary(apply_writes(before@, writes_view(old(out)@)), apply_writes(before@, writes_view(final(out)@))),
{
    let ghost w0 = writes_view(out@);
    let ghost base = apply_writes(before@, w0);
    let mut i: usize = 0;
    proof {
        assert(w0 + Seq::<WriteView>::empty() =~= w0);
    }
    while i < before.personal_dictionary.len()
        invariant
            i <= before.personal_dictionary@.len(),
            writes_view(out@) == w0 + word_deletes(before@.dictionary.subrange(0, i as int), after@.dictionary),
            same_but_dictionary(base, apply_writes(before@, writes_view(out@))),
            base == apply_writes(before@, w0),
        decreases before.personal_dictionary@.len() - i,
    {
        let k = &before.personal_dictionary[i].0;
        proof {
            assert(before@.dictionary.subrange(0, i + 1).drop_last() =~= before@.dictionary.subrange(0, i as int));
            assert(before@.dictionary.subrange(0, i + 1).last().0 == k@);
        }
        if find_key(&after.personal_dictionary, k).is_none() {
            push_write(out, Write::DeleteDictionaryWord { key: copy_string(k) });
            assert(writes_view(out@) =~= w0 + word_deletes(before@.dictionary.subrange(0, i + 1), after@.dictionary));
        }
        i = i + 1;
    }
    assert(before@.dictionary.subrange(0, before@.dictionary.len() as int) =~= before@.dictionary);
}

// ---- diff ------------------------------------------------------------

/// What applying the difference leaves: the undo stack as it was, the
/// settings `after` holds, and every row table laid over by `after`'s rows,
/// the rows it lacks taken out where rows are ever taken out.
pub open spec fn diff_effect(before: ModelView, after: ModelView, r: ModelView) -> bool {
    &&& r.undo == before.undo
    &&& r.settings == after.settings
    &&& tasks_keyed(after) ==> r.tasks == before.tasks.union_prefer_right(after.tasks)
    &&& notes_keyed(after) ==> r.notes == before.notes.union_prefer_right(after.notes)
    &&& schedules_keyed(after) ==> r.schedules == replaced(before.schedules, after.schedules)
    &&& placements_keyed(after) ==> r.placements == replaced(before.placements, after.placements)
}

/// One write of a difference, for what it says of a row: a row put is a
/// row `after` holds and `before` does not, a row deleted is one `after`
/// lacks, and nothing touches the undo stack.
pub open spec fn row_write_ok(before: ModelView, after: ModelView, w: WriteView) -> bool {
    match w {
        WriteView::PutTask(t) => changed_task(before, after, t),
        WriteView::PutSchedule(s) => changed_schedule(before, after, s),
        WriteView::PutNote(n) => changed_note(before, after, n),
        WriteView::PutPlacement(p) => changed_placement(before, after, p),
        WriteView::DeletePlacement { task, day } => gone_keys(before.placements, after.placements).contains(key_of(task, day)),
        WriteView::DeleteSchedule(id) => gone_keys(before.schedules, after.schedules).contains(id),
        WriteView::PushUndo(_) | WriteView::PopUndo(_) | WriteView::TruncateUndo(_) => false,
        WriteView::PutSettings(s) => s == after.settings && s != before.settings,
        _ => true,
    }
}

pub open spec fn rows_ok(before: ModelView, after: ModelView, ws: Seq<WriteView>) -> bool {
    forall|j: int| 0 <= j < ws.len() ==> row_write_ok(before, after, #[trigger] ws[j])
}

proof fn lemma_rows_ok_grow(before: ModelView, after: ModelView, was: Seq<WriteView>, now: Seq<WriteView>)
    requires
        rows_ok(before, after, was),
        was.len() <= now.len(),
        agree_on(now, was, was.len() as int),
        forall|j: int| was.len() <= j < now.len() ==> row_write_ok(before, after, #[trigger] now[j]),
    ensures
        rows_ok(before, after, now),
{
    assert forall|j: int| 0 <= j < now.len() implies row_write_ok(before, after, #[trigger] now[j]) by {
        if j < was.len() {
            assert(now[j] == was[j]);
        }
    }
}

proof fn lemma_text_writes_ok(before: ModelView, after: ModelView, was: Seq<WriteView>, seg: Seq<WriteView>)
    requires
        rows_ok(before, after, was),
        forall|j: int| 0 <= j < seg.len() ==> (#[trigger] seg[j] is SetMeta || seg[j] is PutDictionaryWord || seg[j] is DeleteDictionaryWord),
    ensures
        rows_ok(before, after, was + seg),
{
    assert forall|j: int| 0 <= j < (was + seg).len() implies row_write_ok(before, after, #[trigger] (was + seg)[j]) by {
        if j < was.len() {
            assert((was + seg)[j] == was[j]);
        } else {
            assert((was + seg)[j] == seg[j - was.len()]);
        }
    }
}

/// Writes applied one list after another are the two lists applied.
pub proof fn lemma_apply_concat(m: ModelView, p: Seq<WriteView>, w: Seq<WriteView>)
    ensures
        apply_writes(m, p + w) == apply_writes(apply_writes(m, p), w),
    decreases w.len(),
{
    if w.len() == 0 {
        assert(p + w =~= p);
    } else {
        lemma_apply_concat(m, p, w.drop_last());
        assert((p + w).drop_last() =~= p + w.drop_last());
        assert((p + w).last() == w.last());
    }
}

/// What meta writes leave of the meta table depends on that table alone.
proof fn lemma_meta_only(x: ModelView, y: ModelView, w: Seq<WriteView>)
    requires
        x.meta == y.meta,
        forall|j: int| 0 <= j < w.len() ==> #[trigger] w[j] is SetMeta,
    ensures
        apply_writes(x, w).meta == apply_writes(y, w).meta,
    decreases w.len(),
{
    if w.len() > 0 {
        lemma_meta_only(x, y, w.drop_last());
        assert(w.last() == w[w.len() - 1]);
    }
}

/// What dictionary writes leave of the dictionary depends on it alone.
proof fn lemma_words_only(x: ModelView, y: ModelView, w: Seq<WriteView>)
    requires
        x.dictionary == y.dictionary,
        forall|j: int| 0 <= j < w.len() ==> (#[trigger] w[j] is PutDictionaryWord || w[j] is DeleteDictionaryWord),
    ensures
        apply_writes(x, w).dictionary == apply_writes(y, w).dictionary,
    decreases w.len(),
{
    if w.len() > 0 {
        lemma_words_only(x, y, w.drop_last());
        assert(w.last() == w[w.len() - 1]);
    }
}

proof fn lemma_meta_writes_kind(before: Seq<(Seq<char>, Seq<char>)>, after: Seq<(Seq<char>, Seq<char>)>)
    ensures
        forall|j: int| 0 <= j < meta_writes(before, after).len() ==> #[trigger] meta_writes(before, after)[j] is SetMeta,
    decreases after.len(),
{
    if after.len() > 0 {
        lemma_meta_writes_kind(before, after.drop_last());
    }
}

proof fn lemma_word_writes_kind(before: Seq<(Seq<char>, Seq<char>)>, after: Seq<(Seq<char>, Seq<char>)>)
    ensures
        forall|j: int| 0 <= j < word_writes(before, after).len() ==> #[trigger] word_writes(before, after)[j] is PutDictionaryWord,
        forall|j: int| 0 <= j < word_deletes(after, before).len() ==> #[trigger] word_deletes(after, before)[j] is DeleteDictionaryWord,
    decreases after.len(),
{
    if after.len() > 0 {
        lemma_word_writes_kind(before, after.drop_last());
    }
}

// ---- the tables of text the writes leave -----------------------------

/// No key stands twice in a table of text.
pub open spec fn distinct_keys(pairs: Seq<(Seq<char>, Seq<char>)>) -> bool {
    forall|i: int, j: int| 0 <= i < j < pairs.len() ==> pairs[i].0 != pairs[j].0
}

/// What a table with one more pair at its end holds under a key.
proof fn lemma_lookup_push(pairs: Seq<(Seq<char>, Seq<char>)>, p: (Seq<char>, Seq<char>), key: Seq<char>)
    ensures
        lookup(pairs.push(p), key) == (match lookup(pairs, key) {
            Some(v) => Some(v),
            None => if p.0 == key {
                Some(p.1)
            } else {
                None
            },
        }),
{
    let q = pairs.push(p);
    let n = pairs.len() as int;
    assert(q[n] == p);
    assert(forall|j: int| 0 <= j < n ==> q[j] == pairs[j]);
    lemma_first_with_key(pairs, key);
    lemma_first_with_key(q, key);
    match first_with_key(pairs, key) {
        Some(i) => {
            assert(q[i].0 == key);
            let j = first_with_key(q, key)->Some_0;
            if j < i {
                assert(pairs[j].0 == key);
            }
            if i < j {
                assert(q[i].0 == key);
            }
            assert(i == j);
        },
        None => {
            if p.0 == key {
                assert(q[n].0 == key);
                let j = first_with_key(q, key)->Some_0;
                if j < n {
                    assert(pairs[j].0 == key);
                }
                assert(j == n);
            } else {
                if first_with_key(q, key) is Some {
                    let j = first_with_key(q, key)->Some_0;
                    assert(j < n);
                    assert(pairs[j].0 == key);
                }
            }
        },
    }
}

/// Setting one key leaves what a table holds under every other key.
proof fn lemma_lookup_set_other(pairs: Seq<(Seq<char>, Seq<char>)>, key: Seq<char>, value: Seq<char>, other: Seq<char>)
    requires
        other != key,
    ensures
        lookup(set_pair(pairs, key, value), other) == lookup(pairs, other),
{
    lemma_first_with_key(pairs, key);
    match first_with_key(pairs, key) {
        Some(i) => {
            let q = pairs.update(i, (key, value));
            lemma_first_with_key(pairs, other);
            lemma_first_with_key(q, other);
            match first_with_key(pairs, other) {
                Some(a) => {
                    assert(q[a] == pairs[a]);
                    let b = first_with_key(q, other)->Some_0;
                    if b < a {
                        assert(q[b] == pairs[b]);
                    }
                },
                None => {
                    match first_with_key(q, other) {
                        Some(b) => {
                            assert(q[b] == pairs[b]);
                        },
                        None => {},
                    }
                },
            }
        },
        None => {
            lemma_lookup_push(pairs, (key, value), other);
        },
    }
}

/// A key taken out of a table is not there; every other key is as it
/// was.
proof fn lemma_lookup_without(pairs: Seq<(Seq<char>, Seq<char>)>, key: Seq<char>, other: Seq<char>)
    ensures
        lookup(without_key(pairs, key), other) == if other == key {
            None
        } else {
            lookup(pairs, other)
        },
    decreases pairs.len(),
{
    if pairs.len() > 0 {
        let rest = without_key(pairs.drop_last(), key);
        lemma_lookup_without(pairs.drop_last(), key, other);
        assert(pairs.drop_last().push(pairs.last()) =~= pairs);
        lemma_lookup_push(pairs.drop_last(), pairs.last(), other);
        if pairs.last().0 != key {
            lemma_lookup_push(rest, pairs.last(), other);
        }
    } else {
        lemma_first_with_key(pairs, other);
        lemma_first_with_key(without_key(pairs, key), other);
    }
}

/// Writing the meta pairs `after` holds that `before` does not, over
/// `before`: every key `after` holds has its value from `after`, and
/// every other key keeps its value from `before`.
#[verifier::spinoff_prover]
pub proof fn lemma_meta_writes_tables(m: ModelView, after: Seq<(Seq<char>, Seq<char>)>, key: Seq<char>)
    requires
        distinct_keys(after),
    ensures
        lookup(apply_writes(m, meta_writes(m.meta, after)).meta, key) == (match lookup(after, key) {
            Some(v) => Some(v),
            None => lookup(m.meta, key),
        }),
    decreases after.len(),
{
    if after.len() > 0 {
        let a = after.drop_last();
        let p = after.last();
        assert(a.push(p) =~= after);
        assert(distinct_keys(a)) by {
            assert(forall|i: int| 0 <= i < a.len() ==> a[i] == after[i]);
        }
        lemma_meta_writes_tables(m, a, key);
        lemma_lookup_push(a, p, key);
        let ws = meta_writes(m.meta, a);
        let mid = apply_writes(m, ws);
        let w = WriteView::SetMeta { key: p.0, value: p.1 };
        assert(meta_writes(m.meta, after) == if holds_pair(m.meta, p.0, p.1) {
            ws
        } else {
            ws.push(w)
        });
        if !holds_pair(m.meta, p.0, p.1) {
            lemma_apply_push(m, ws, w);
            assert(apply_writes(m, ws.push(w)).meta == set_pair(mid.meta, p.0, p.1));
            if key == p.0 {
                lemma_lookup_set_pair(mid.meta, p.0, p.1);
            } else {
                lemma_lookup_set_other(mid.meta, p.0, p.1, key);
            }
        } else if key == p.0 {
            lemma_first_with_key(a, key);
            if lookup(a, key) is Some {
                let i = first_with_key(a, key)->Some_0;
                assert(after[i].0 == after[after.len() - 1].0);
            }
        }
    } else {
        lemma_first_with_key(after, key);
    }
}

/// The same for dictionary words put.
#[verifier::spinoff_prover]
pub proof fn lemma_word_writes_tables(m: ModelView, after: Seq<(Seq<char>, Seq<char>)>, key: Seq<char>)
    requires
        distinct_keys(after),
    ensures
        lookup(apply_writes(m, word_writes(m.dictionary, after)).dictionary, key) == (match lookup(after, key) {
            Some(v) => Some(v),
            None => lookup(m.dictionary, key),
        }),
    decreases after.len(),
{
    if after.len() > 0 {
        let a = after.drop_last();
        let p = after.last();
        assert(a.push(p) =~= after);
        assert(distinct_keys(a)) by {
            assert(forall|i: int| 0 <= i < a.len() ==> a[i] == after[i]);
        }
        lemma_word_writes_tables(m, a, key);
        lemma_lookup_push(a, p, key);
        let ws = word_writes(m.dictionary, a);
        let mid = apply_writes(m, ws);
        let w = WriteView::PutDictionaryWord { key: p.0, word: p.1 };
        assert(word_writes(m.dictionary, after) == if holds_pair(m.dictionary, p.0, p.1) {
            ws
        } else {
            ws.push(w)
        });
        if !holds_pair(m.dictionary, p.0, p.1) {
            lemma_apply_push(m, ws, w);
            assert(apply_writes(m, ws.push(w)).dictionary == set_pair(mid.dictionary, p.0, p.1));
            if key == p.0 {
                lemma_lookup_set_pair(mid.dictionary, p.0, p.1);
            } else {
                lemma_lookup_set_other(mid.dictionary, p.0, p.1, key);
            }
        } else if key == p.0 {
            lemma_first_with_key(a, key);
            if lookup(a, key) is Some {
                let i = first_with_key(a, key)->Some_0;
                assert(after[i].0 == after[after.len() - 1].0);
            }
        }
    } else {
        lemma_first_with_key(after, key);
    }
}

/// Deleting the words of `before` that `after` lacks: such a key is gone,
/// every other key is as it was.
#[verifier::spinoff_prover]
pub proof fn lemma_word_deletes_tables(
    m: ModelView,
    before: Seq<(Seq<char>, Seq<char>)>,
    after: Seq<(Seq<char>, Seq<char>)>,
    key: Seq<char>,
)
    ensures
        lookup(apply_writes(m, word_deletes(before, after)).dictionary, key) == (if lookup(before, key) is Some
            && lookup(after, key) is None {
            None
        } else {
            lookup(m.dictionary, key)
        }),
    decreases before.len(),
{
    lemma_first_with_key(after, key);
    if before.len() > 0 {
        let b = before.drop_last();
        let p = before.last();
        assert(b.push(p) =~= before);
        lemma_word_deletes_tables(m, b, after, key);
        lemma_lookup_push(b, p, key);
        let ws = word_deletes(b, after);
        let mid = apply_writes(m, ws);
        lemma_first_with_key(after, p.0);
        if first_with_key(after, p.0) is None {
            let w = WriteView::DeleteDictionaryWord { key: p.0 };
            lemma_apply_push(m, ws, w);
            lemma_lookup_without(mid.dictionary, p.0, key);
        }
    } else {
        lemma_first_with_key(before, key);
    }
}

/// The writes that turn one model into another: whole rows, and in an
/// order storage's foreign keys accept, parents before children.
pub fn diff(before: &Model, after: &Model) -> (writes: Vec<Write>)
    ensures
        diff_effect(before@, after@, apply_writes(before@, writes_view(writes@))),
        rows_ok(before@, after@, writes_view(writes@)),
        apply_writes(before@, writes_view(writes@)).meta == apply_writes(before@, meta_writes(before@.meta, after@.meta)).meta,
        apply_writes(before@, writes_view(writes@)).dictionary == apply_writes(
            before@,
            word_writes(before@.dictionary, after@.dictionary) + word_deletes(before@.dictionary, after@.dictionary),
        ).dictionary,
        distinct_keys(after@.meta) ==> forall|key: Seq<char>|
            #[trigger] lookup(apply_writes(before@, writes_view(writes@)).meta, key) == (match lookup(after@.meta, key) {
                Some(v) => Some(v),
                None => lookup(before@.meta, key),
            }),
        distinct_keys(after@.dictionary) ==> forall|key: Seq<char>|
            #[trigger] lookup(apply_writes(before@, writes_view(writes@)).dictionary, key) == lookup(
                after@.dictionary,
                key,
            ),
{
    let mut out: Vec<Write> = Vec::new();
    let ghost b = before@;
    let ghost a = after@;
    proof {
        assert(writes_view(out@) =~= Seq::<WriteView>::empty());
    }
    let ghost m0 = apply_writes(b, writes_view(out@));
    put_changed_schedules(before, after, &mut out);
    let ghost m1 = apply_writes(b, writes_view(out@));
    proof {
        lemma_rows_ok_grow(b, a, Seq::empty(), writes_view(out@));
    }
    let ghost w1 = writes_view(out@);
    put_changed_tasks(before, after, &mut out);
    let ghost m2 = apply_writes(b, writes_view(out@));
    proof {
        lemma_rows_ok_grow(b, a, w1, writes_view(out@));
    }
    let ghost w2 = writes_view(out@);
    put_changed_placements(before, after, &mut out);
    let ghost m3 = apply_writes(b, writes_view(out@));
    proof {
        lemma_rows_ok_grow(b, a, w2, writes_view(out@));
    }
    let ghost w3 = writes_view(out@);
    delete_gone_placements(before, after, &mut out);
    let ghost m4 = apply_writes(b, writes_view(out@));
    proof {
        lemma_rows_ok_grow(b, a, w3, writes_view(out@));
    }
    let ghost w4 = writes_view(out@);
    delete_gone_schedules(before, after, &mut out);
    let ghost m5 = apply_writes(b, writes_view(out@));
    proof {
        lemma_rows_ok_grow(b, a, w4, writes_view(out@));
    }
    let ghost w5 = writes_view(out@);
    put_changed_notes(before, after, &mut out);
    let ghost m6 = apply_writes(b, writes_view(out@));
    proof {
        lemma_rows_ok_grow(b, a, w5, writes_view(out@));
    }
    let ghost w6 = writes_view(out@);
    put_changed_meta(before, after, &mut out);
    let ghost m7 = apply_writes(b, writes_view(out@));
    proof {
        lemma_meta_writes_kind(b.meta, a.meta);
        lemma_text_writes_ok(b, a, w6, meta_writes(b.meta, a.meta));
    }
    let ghost w7 = writes_view(out@);
    if before.settings != after.settings {
        push_write(&mut out, Write::PutSettings(after.settings));
        proof {
            lemma_rows_ok_grow(b, a, w7, writes_view(out@));
        }
    }
    let ghost m8 = apply_writes(b, writes_view(out@));
    let ghost w8 = writes_view(out@);
    put_changed_words(before, after, &mut out);
    proof {
        lemma_word_writes_kind(b.dictionary, a.dictionary);
        lemma_text_writes_ok(b, a, w8, word_writes(b.dictionary, a.dictionary));
    }
    let ghost w9 = writes_view(out@);
    let ghost m9 = apply_writes(b, writes_view(out@));
    delete_gone_words(before, after, &mut out);
    proof {
        lemma_word_writes_kind(a.dictionary, b.dictionary);
        lemma_text_writes_ok(b, a, w9, word_deletes(b.dictionary, a.dictionary));
    }
    let ghost m10 = apply_writes(b, writes_view(out@));
    proof {
        let mw = meta_writes(b.meta, a.meta);
        let ww = word_writes(b.dictionary, a.dictionary);
        let wd = word_deletes(b.dictionary, a.dictionary);
        lemma_apply_concat(b, w6, mw);
        lemma_meta_only(m6, b, mw);
        assert(m7.meta == apply_writes(b, mw).meta);
        assert(m10.meta == m7.meta);
        lemma_word_writes_kind(b.dictionary, a.dictionary);
        lemma_word_writes_kind(a.dictionary, b.dictionary);
        lemma_apply_concat(b, w8, ww);
        lemma_apply_concat(b, w9, wd);
        lemma_apply_concat(b, ww, wd);
        lemma_words_only(m8, b, ww);
        assert(m9.dictionary == apply_writes(b, ww).dictionary);
        lemma_words_only(m9, apply_writes(b, ww), wd);
        assert(m0 == b);
        assert(m10.undo == b.undo);
        assert(m10.settings == a.settings);
        if schedules_keyed(a) {
            assert(m5.schedules =~= replaced(b.schedules, a.schedules));
        }
        if placements_keyed(a) {
            assert(m4.placements =~= replaced(b.placements, a.placements));
        }
    }
    proof {
        let ww = word_writes(b.dictionary, a.dictionary);
        let wd = word_deletes(b.dictionary, a.dictionary);
        assert(m10.dictionary == apply_writes(apply_writes(b, ww), wd).dictionary);
        if distinct_keys(a.meta) {
            assert forall|key: Seq<char>| #[trigger] lookup(m10.meta, key) == (match lookup(a.meta, key) {
                Some(v) => Some(v),
                None => lookup(b.meta, key),
            }) by {
                lemma_meta_writes_tables(b, a.meta, key);
            }
        }
        if distinct_keys(a.dictionary) {
            assert forall|key: Seq<char>| #[trigger] lookup(m10.dictionary, key) == lookup(a.dictionary, key) by {
                lemma_word_writes_tables(b, a.dictionary, key);
                lemma_word_deletes_tables(apply_writes(b, ww), b.dictionary, a.dictionary, key);
            }
        }
    }
    out
}

} // verus!
