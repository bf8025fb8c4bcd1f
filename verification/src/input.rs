//! A key press plus the current key context in, a named action out.
//! Owns the key table.
//!
//! This module knows nothing about tasks: an action names what the user
//! asked for, never what it is asked of.

use vstd::prelude::*;
use crate::text::{append_all, begins_with, chars_of, is, starts_with, string_of};

pub mod table;

verus! {

/// A pane of the home page, or the tab that stands for it when the window
/// is too narrow for both.
#[derive(Clone, Copy, Debug, PartialEq, Eq, Structural)]
pub enum Pane {
    Day,
    Backlog,
}

/// Which day the day pane of the home page is on, because history is the
/// same page stepped to another day and its keys are not the same: `t`
/// puts a task from a past day onto today, which on today itself would
/// mean nothing, and the pane beside it is the list of days rather than
/// the backlog.
#[derive(Clone, Copy, Debug, PartialEq, Eq, Structural)]
pub enum Shown {
    Today,
    Past,
    Future,
}

/// Where the keyboard is on the notes page: the list, the note open
/// beside it, or the filter typed at the top of the list.
#[derive(Clone, Copy, Debug, PartialEq, Eq, Structural)]
pub enum NotesPane {
    List,
    Note,
    Filter,
}

/// Which list the left pane of the notes page shows. `tab` switches
/// between them.
#[derive(Clone, Copy, Debug, PartialEq, Eq, Structural)]
pub enum NotesList {
    Notes,
    Archive,
}

/// Which step of the morning review is on screen.
#[derive(Clone, Copy, Debug, PartialEq, Eq, Structural)]
pub enum ReviewStep {
    Pile,
    Surfaced,
}

/// Which popup is over the page.
#[derive(Clone, Copy, Debug, PartialEq, Eq, Structural)]
pub enum PopupKind {
    Palette,
    Search,
    Help,
    /// The move card: the day a task is sent to.
    Move,
    /// The date card: due by, remind on, or the day the move card sends
    /// a task to. One card, three things to set.
    Date,
    /// The repeat card: the five rule shapes, and stopping.
    Repeat,
    /// The one deliberate question: whether a recurring copy's new title
    /// is for this copy or for this and future copies.
    CopyQuestion,
    /// The question `x` asks while deletes are confirmed, about a task
    /// or a note.
    DeleteQuestion,
    /// The spelling card: what the dictionary offers in place of the
    /// misspelt word the caret of an open note is in, and the offer to
    /// keep the word instead.
    Spelling,
    /// The personal dictionary: the words spell checking is told to
    /// know, opened from the notes group of the settings page.
    Dictionary,
}

/// The in-place text field on the home page, which is the only place a
/// task's title is written. Which one it is decides what Enter is called,
/// with Shift+Enter offered only when adding.
#[derive(Clone, Copy, Debug, PartialEq, Eq, Structural)]
pub enum Field {
    Adding,
    Renaming,
}

/// Where the keyboard is, which is what decides what a key means.
///
/// With a text field set, every printable key becomes `Insert` and only
/// `Enter`, `Escape`, `Tab`, `↑`, `↓`, the editing keys and the `Alt`
/// shortcuts keep a name of their own.
#[derive(Clone, Copy, Debug, PartialEq, Eq, Structural)]
pub enum KeyContext {
    /// `narrow` is the window collapsed to tabs, where `tab` steps
    /// through them and `h`/`l` mean nothing, rather than two panes side
    /// by side, where `h`/`l` switch pane and `tab` means nothing.
    Home { pane: Pane, day: Shown, field: Option<Field>, narrow: bool },
    /// On the Archive, `tab` goes back to Notes in a wide window and on
    /// to the next tab in a narrow one, which is what `narrow` is for.
    Notes { pane: NotesPane, list: NotesList, text_field: bool, narrow: bool },
    /// `last` is whether this is the last step with something in it,
    /// where Enter starts the day rather than going on to the next step.
    /// `asks` is whether the step asks a decision about any of its rows:
    /// a step of copies that only started this morning asks none, so it
    /// offers no outcome at all.
    Review { step: ReviewStep, last: bool, asks: bool, text_field: bool },
    Popup { kind: PopupKind, text_field: bool },
    /// The settings page. `field` is the number or the window size being
    /// typed on a row, which is the only text field it has, so there is
    /// nothing for the hint bar to tell two of them apart by.
    Settings { field: bool },
    /// `g` has been pressed and the next key says where to go. `over` is
    /// the card it was pressed in, where only the first row, and on the
    /// move card a date, are places to go; on a page it is `None`.
    Leader { over: Option<PopupKind> },
}

impl KeyContext {
    /// Whether a text field has the keyboard.
    pub open spec fn has_text_field(self) -> bool {
        match self {
            KeyContext::Home { field, .. } => field is Some,
            KeyContext::Notes { text_field, .. } => text_field,
            KeyContext::Review { text_field, .. } => text_field,
            KeyContext::Popup { text_field, .. } => text_field,
            KeyContext::Settings { field } => field,
            KeyContext::Leader { .. } => false,
        }
    }

    /// Whether a text field has the keyboard.
    pub fn text_field(self) -> (typing: bool)
        ensures
            typing == self.has_text_field(),
    {
        match self {
            KeyContext::Home { field, .. } => field.is_some(),
            KeyContext::Notes { text_field, .. } => text_field,
            KeyContext::Review { text_field, .. } => text_field,
            KeyContext::Popup { text_field, .. } => text_field,
            KeyContext::Settings { field } => field,
            KeyContext::Leader { .. } => false,
        }
    }
}

/// What the user asked for. Cursor-relative, never carrying an id.
#[derive(Clone, Copy, Debug, PartialEq, Eq, Structural)]
pub enum Action {
    // The loop.
    Tick,
    Resize,
    FocusGained,
    Quit,
    // Moving about.
    Down,
    Up,
    /// `g`, the leader: the key after it says where to go.
    Go,
    /// `gg` and `G`: the first and the last row of the list.
    First,
    Last,
    /// `ctrl-d` and `ctrl-u`: half of what the list shows, down or up.
    HalfPageDown,
    HalfPageUp,
    /// `gb`: the backlog beside today.
    BacklogPane,
    /// `ga`: the notes page on its archive.
    ArchivePage,
    PaneLeft,
    PaneRight,
    NextPane,
    /// `tab` on a page: the next tab of a narrow window, or the other
    /// list of the notes page.
    NextTab,
    MoveDown,
    MoveUp,
    PrevDay,
    NextDay,
    Today,
    GoToDate,
    NotesPage,
    /// The settings page, and the way back off it.
    SettingsPage,
    /// The morning review again, after it was left or on a day it has
    /// already run on.
    OpenReview,
    // The cursor row.
    Close,
    Focus,
    Add,
    Edit,
    Delete,
    CopyTask,
    CopyNote,
    /// `A` on the notes page: the note to the archive, or back from it.
    Archive,
    CopySelection,
    CutSelection,
    Paste,
    /// The misspelt word the caret of an open note is in, and what the
    /// dictionary offers in place of it.
    FixSpelling,
    ToToday,
    ToBacklog,
    MoveToDay,
    /// The move card's own days.
    Tomorrow,
    NextWorkDay,
    NextMonday,
    DueBy,
    RemindOn,
    /// The date card's own days, and the pick that takes a date off.
    EndOfWeek,
    InAWeek,
    EndOfMonth,
    ClearDate,
    /// The month the calendar is showing.
    PrevMonth,
    NextMonth,
    Waiting,
    Repeat,
    /// The rows of the repeat card: the five rule shapes and the end of
    /// them all.
    EveryWorkDay,
    EveryDay,
    EveryWeek,
    EveryMonth,
    EveryFewWeeks,
    StopRepeat,
    /// Take the highlighted thing into the row's answer, which is how a
    /// weekday joins the set the weekly shape repeats on.
    Pick,
    Keep,
    Undo,
    UndoText,
    RedoText,
    /// The two answers to the copy question.
    ThisCopy,
    ThisAndFuture,
    // Popups.
    Search,
    /// `/` on the notes page, which narrows the list shown rather than
    /// searching the tasks.
    Filter,
    Commands,
    Help,
    Confirm,
    AddAndContinue,
    Cancel,
    // Text fields.
    Insert(char),
    Backspace,
    DeleteWordBackward,
    DeleteForward,
    Left,
    Right,
    WordLeft,
    WordRight,
    LineStart,
    LineEnd,
    SelectLeft,
    SelectRight,
    SelectUp,
    SelectDown,
    SelectWordLeft,
    SelectWordRight,
    SelectStart,
    SelectEnd,
    SelectAll,
    // The mouse, in cell coordinates.
    MouseDown { column: u16, row: u16 },
    MouseUp { column: u16, row: u16 },
    MouseDrag { column: u16, row: u16 },
    Scroll { column: u16, row: u16, down: bool },
}

/// Which end of the hint bar a row sits at.
#[derive(Clone, Copy, Debug, PartialEq, Eq, Structural)]
pub enum Side {
    Left,
    Right,
}

/// Where the hint bar puts a row, and what it calls it there.
#[derive(Clone, Copy, Debug, PartialEq, Eq)]
pub enum Bar {
    /// Not in the bar.
    Off,
    /// At the left end, in table order, under the row's own label.
    Left,
    /// At the right end, in table order, under the row's own label.
    Right,
    /// On that side under a shorter name, because the bar is tight.
    Short(Side, &'static str),
}

impl Bar {
    /// The side and the name the bar gives a row labelled `label`, or
    /// nothing when the bar leaves the row out.
    pub open spec fn slot_of(self, label: &'static str) -> Option<(Side, &'static str)> {
        match self {
            Bar::Off => None,
            Bar::Left => Some((Side::Left, label)),
            Bar::Right => Some((Side::Right, label)),
            Bar::Short(side, name) => Some((side, name)),
        }
    }

    /// The side and the name the bar uses, or nothing when the bar leaves
    /// the row out.
    pub fn slot(self, label: &'static str) -> (place: Option<(Side, &'static str)>)
        ensures
            place == self.slot_of(label),
    {
        match self {
            Bar::Off => None,
            Bar::Left => Some((Side::Left, label)),
            Bar::Right => Some((Side::Right, label)),
            Bar::Short(side, name) => Some((side, name)),
        }
    }
}

/// One row of the key table: the keys that run it, what they do, and what
/// to call it.
///
/// The hint bar, the command palette and the help overlay are drawn from
/// these rows and from nothing else, so none of them can disagree with the
/// dispatcher. Two keys share a row when they are one idea: `J` and `K`
/// are "reorder", and a row may accept more keys than `shown` advertises,
/// which is how the arrow keys stand in for `j` and `k`.
#[derive(Clone, Copy, Debug)]
pub struct Binding {
    /// Every key that runs the row, with the action it means.
    pub keys: &'static [(&'static str, Action)],
    /// How the keys are written when the row is named: `J/K`, `y/alt-y`,
    /// `[ ]`. A row with no keys at all, such as "type to filter", is a
    /// line of the hint bar and nothing else.
    pub shown: &'static str,
    /// What the row is called, in the hint bar, the palette and the help
    /// overlay. Empty only on a caption row, which names the rows beside
    /// it in the bar rather than a key of its own.
    pub label: &'static str,
    /// Where the hint bar puts it when both panes are on screen.
    pub bar: Bar,
    /// Where it puts it when the window has collapsed to tabs and the bar
    /// has room for about five keys.
    pub narrow: Bar,
}

impl Binding {
    /// Whether an action is one that does something to the row the cursor
    /// is on.
    pub open spec fn row_action(action: Action) -> bool {
        match action {
            Action::Close | Action::Focus | Action::Edit | Action::Delete | Action::Archive
            | Action::CopyTask | Action::ToToday | Action::ToBacklog | Action::MoveToDay
            | Action::DueBy | Action::RemindOn | Action::Waiting | Action::Repeat
            | Action::MoveUp | Action::MoveDown | Action::Confirm => true,
            _ => false,
        }
    }

    /// Whether the row does something to the row the cursor is on, rather
    /// than to the page or the program. The command palette is in two
    /// sections along this line, the row's and the app's.
    ///
    /// `Add` is the app's: it puts a new row in the pane rather than
    /// touching the one under the cursor. `Confirm` is the row's in every
    /// page table, where it opens a note, follows a moved task or goes to
    /// a day.
    pub fn acts_on_the_row(&self) -> (on_row: bool)
        ensures
            on_row == (self.keys@.len() > 0 && Binding::row_action(self.keys@[0].1)),
    {
        if self.keys.len() == 0 {
            return false;
        }
        let (_, action) = self.keys[0];
        match action {
            Action::Close | Action::Focus | Action::Edit | Action::Delete | Action::Archive
            | Action::CopyTask | Action::ToToday | Action::ToBacklog | Action::MoveToDay
            | Action::DueBy | Action::RemindOn | Action::Waiting | Action::Repeat
            | Action::MoveUp | Action::MoveDown | Action::Confirm => true,
            _ => false,
        }
    }
}

/// One row of the panel beside the review: the key that decides the row
/// the cursor is on, what the panel calls it, and what it does to the
/// task.
///
/// The panel says more than the hint bar has room for, so the names are
/// its own; the keys are rows of the step's own table, which
/// [`lemma_decisions_are_bound`] holds together, so the panel cannot offer
/// a key the dispatcher does not have.
#[derive(Clone, Copy, Debug)]
pub struct Decision {
    pub key: &'static str,
    pub action: Action,
    /// What the panel calls it: "Move to today" where the bar says
    /// "today".
    pub label: &'static str,
    /// What it does to the task, in the few words at the right of the
    /// row. Empty where the name says it all.
    pub note: &'static str,
}

/// The outcomes a task on the pile can be given, plus "move to a day".
pub open spec fn pile_decisions() -> Seq<Decision> {
    seq![
        Decision { key: "space", action: Action::Close, label: "Done", note: "was finished" },
        Decision { key: "t", action: Action::ToToday, label: "Move to today", note: "end of plan" },
        Decision { key: "b", action: Action::ToBacklog, label: "Back to backlog", note: "" },
        Decision { key: "m", action: Action::MoveToDay, label: "Move to a day…", note: "" },
        Decision { key: "x", action: Action::Delete, label: "Delete", note: "undo: u" },
    ]
}

/// What a surfaced task is answered with. A date is changed with `d` and
/// `r`; the panel names the one the step is mostly about.
pub open spec fn surfaced_decisions() -> Seq<Decision> {
    seq![
        Decision { key: "t", action: Action::ToToday, label: "Pull onto today", note: "to plan" },
        Decision { key: "s", action: Action::Keep, label: "Leave in backlog", note: "unchanged" },
        Decision { key: "d", action: Action::DueBy, label: "Change due date…", note: "" },
        Decision { key: "w", action: Action::Waiting, label: "Mark waiting", note: "no nag" },
        Decision { key: "space", action: Action::Close, label: "Done", note: "" },
    ]
}

/// The rows of the panel beside a step of the review.
pub open spec fn decision_rows(step: ReviewStep) -> Seq<Decision> {
    match step {
        ReviewStep::Pile => pile_decisions(),
        ReviewStep::Surfaced => surfaced_decisions(),
    }
}

/// The rows of the panel beside a step of the review.
pub fn decisions(step: ReviewStep) -> (rows: &'static [Decision])
    ensures
        rows@ == decision_rows(step),
{
    match step {
        ReviewStep::Pile => &[
            Decision { key: "space", action: Action::Close, label: "Done", note: "was finished" },
            Decision { key: "t", action: Action::ToToday, label: "Move to today", note: "end of plan" },
            Decision { key: "b", action: Action::ToBacklog, label: "Back to backlog", note: "" },
            Decision { key: "m", action: Action::MoveToDay, label: "Move to a day…", note: "" },
            Decision { key: "x", action: Action::Delete, label: "Delete", note: "undo: u" },
        ],
        ReviewStep::Surfaced => &[
            Decision { key: "t", action: Action::ToToday, label: "Pull onto today", note: "to plan" },
            Decision { key: "s", action: Action::Keep, label: "Leave in backlog", note: "unchanged" },
            Decision { key: "d", action: Action::DueBy, label: "Change due date…", note: "" },
            Decision { key: "w", action: Action::Waiting, label: "Mark waiting", note: "no nag" },
            Decision { key: "space", action: Action::Close, label: "Done", note: "" },
        ],
    }
}

/// The rows of the key table for a context.
pub open spec fn table_of(context: KeyContext) -> Seq<Binding> {
    match context {
        KeyContext::Home { field: Some(Field::Adding), .. } => table::home_adding_rows(),
        KeyContext::Home { field: Some(Field::Renaming), .. } => table::home_renaming_rows(),
        KeyContext::Home { pane, day, narrow, .. } => {
            let today = day == Shown::Today;
            match pane {
                Pane::Day => if today {
                    if narrow { table::home_day_narrow_rows() } else { table::home_day_rows() }
                } else {
                    if narrow { table::home_other_day_narrow_rows() } else { table::home_other_day_rows() }
                },
                Pane::Backlog => if today {
                    if narrow { table::home_backlog_narrow_rows() } else { table::home_backlog_rows() }
                } else {
                    if narrow { table::home_days_narrow_rows() } else { table::home_days_rows() }
                },
            }
        },
        KeyContext::Notes { pane: NotesPane::List, list: NotesList::Notes, .. } => table::notes_list_rows(),
        KeyContext::Notes { pane: NotesPane::List, list: NotesList::Archive, narrow, .. } =>
            if narrow { table::archive_list_narrow_rows() } else { table::archive_list_rows() },
        KeyContext::Notes { pane: NotesPane::Note, .. } => table::notes_note_rows(),
        KeyContext::Notes { pane: NotesPane::Filter, .. } => table::notes_filter_rows(),
        // `e` on a review row opens the same field a task row opens
        // anywhere else, so Enter saves the title rather than moving the
        // review on to its next step.
        KeyContext::Review { text_field: true, .. } => table::home_renaming_rows(),
        // An outcome beside a row nobody is being asked about is a key
        // that would act on the wrong thing, so the step that asks
        // nothing offers none.
        KeyContext::Review { asks: false, .. } => table::review_information_rows(),
        KeyContext::Review { step: ReviewStep::Pile, last: false, .. } => table::review_pile_rows(),
        KeyContext::Review { step: ReviewStep::Pile, .. } => table::review_pile_last_rows(),
        KeyContext::Review { step: ReviewStep::Surfaced, .. } => table::review_surfaced_rows(),
        KeyContext::Popup { kind: PopupKind::Palette, .. } => table::palette_box_rows(),
        KeyContext::Popup { kind: PopupKind::Search, .. } => table::search_box_rows(),
        KeyContext::Popup { kind: PopupKind::Help, .. } => table::help_overlay_rows(),
        KeyContext::Popup { kind: PopupKind::Move, .. } => table::move_card_rows(),
        KeyContext::Popup { kind: PopupKind::CopyQuestion, .. } => table::copy_question_rows(),
        KeyContext::Popup { kind: PopupKind::DeleteQuestion, .. } => table::delete_question_rows(),
        KeyContext::Popup { kind: PopupKind::Date, text_field } =>
            if text_field { table::date_field_rows() } else { table::date_calendar_rows() },
        KeyContext::Popup { kind: PopupKind::Repeat, .. } => table::repeat_card_rows(),
        KeyContext::Popup { kind: PopupKind::Spelling, .. } => table::spelling_card_rows(),
        KeyContext::Popup { kind: PopupKind::Dictionary, text_field } =>
            if text_field { table::dictionary_field_rows() } else { table::dictionary_list_rows() },
        KeyContext::Settings { field } =>
            if field { table::settings_field_rows() } else { table::settings_list_rows() },
        KeyContext::Leader { over: None } => table::after_g_rows(),
        KeyContext::Leader { over: Some(PopupKind::Move) } => table::after_g_on_the_move_card_rows(),
        KeyContext::Leader { over: Some(_) } => table::after_g_in_a_list_rows(),
    }
}

/// The rows of the key table for a context.
pub fn bindings(context: KeyContext) -> (rows: &'static [Binding])
    ensures
        rows@ == table_of(context),
{
    match context {
        KeyContext::Home { field: Some(Field::Adding), .. } => table::home_adding(),
        KeyContext::Home { field: Some(Field::Renaming), .. } => table::home_renaming(),
        KeyContext::Home { pane, day, narrow, .. } => {
            let today = day == Shown::Today;
            match pane {
                Pane::Day => if today {
                    if narrow { table::home_day_narrow() } else { table::home_day() }
                } else {
                    if narrow { table::home_other_day_narrow() } else { table::home_other_day() }
                },
                Pane::Backlog => if today {
                    if narrow { table::home_backlog_narrow() } else { table::home_backlog() }
                } else {
                    if narrow { table::home_days_narrow() } else { table::home_days() }
                },
            }
        },
        KeyContext::Notes { pane: NotesPane::List, list: NotesList::Notes, .. } => table::notes_list(),
        KeyContext::Notes { pane: NotesPane::List, list: NotesList::Archive, narrow, .. } =>
            if narrow { table::archive_list_narrow() } else { table::archive_list() },
        KeyContext::Notes { pane: NotesPane::Note, .. } => table::notes_note(),
        KeyContext::Notes { pane: NotesPane::Filter, .. } => table::notes_filter(),
        KeyContext::Review { text_field: true, .. } => table::home_renaming(),
        KeyContext::Review { asks: false, .. } => table::review_information(),
        KeyContext::Review { step: ReviewStep::Pile, last: false, .. } => table::review_pile(),
        KeyContext::Review { step: ReviewStep::Pile, .. } => table::review_pile_last(),
        KeyContext::Review { step: ReviewStep::Surfaced, .. } => table::review_surfaced(),
        KeyContext::Popup { kind: PopupKind::Palette, .. } => table::palette_box(),
        KeyContext::Popup { kind: PopupKind::Search, .. } => table::search_box(),
        KeyContext::Popup { kind: PopupKind::Help, .. } => table::help_overlay(),
        KeyContext::Popup { kind: PopupKind::Move, .. } => table::move_card(),
        KeyContext::Popup { kind: PopupKind::CopyQuestion, .. } => table::copy_question(),
        KeyContext::Popup { kind: PopupKind::DeleteQuestion, .. } => table::delete_question(),
        KeyContext::Popup { kind: PopupKind::Date, text_field } =>
            if text_field { table::date_field() } else { table::date_calendar() },
        KeyContext::Popup { kind: PopupKind::Repeat, .. } => table::repeat_card(),
        KeyContext::Popup { kind: PopupKind::Spelling, .. } => table::spelling_card(),
        KeyContext::Popup { kind: PopupKind::Dictionary, text_field } =>
            if text_field { table::dictionary_field() } else { table::dictionary_list() },
        KeyContext::Settings { field } =>
            if field { table::settings_field() } else { table::settings_list() },
        KeyContext::Leader { over: None } => table::after_g(),
        KeyContext::Leader { over: Some(PopupKind::Move) } => table::after_g_on_the_move_card(),
        KeyContext::Leader { over: Some(_) } => table::after_g_in_a_list(),
    }
}

/// What the hint bar calls a context.
pub open spec fn name_of(context: KeyContext) -> &'static str {
    match context {
        KeyContext::Home { pane: Pane::Day, day: Shown::Today, .. } => "TODAY",
        KeyContext::Home { pane: Pane::Day, day: Shown::Past, .. } => "PAST DAY",
        KeyContext::Home { pane: Pane::Day, day: Shown::Future, .. } => "FUTURE DAY",
        KeyContext::Home { pane: Pane::Backlog, day: Shown::Today, .. } => "BACKLOG",
        KeyContext::Home { pane: Pane::Backlog, .. } => "DAYS",
        KeyContext::Notes { pane: NotesPane::List, list: NotesList::Notes, .. } => "NOTES",
        KeyContext::Notes { pane: NotesPane::List, list: NotesList::Archive, .. } => "ARCHIVE",
        KeyContext::Notes { pane: NotesPane::Note, .. } => "NOTE",
        KeyContext::Notes { pane: NotesPane::Filter, .. } => "FILTER",
        KeyContext::Review { step: ReviewStep::Pile, .. } => "REVIEW",
        KeyContext::Review { step: ReviewStep::Surfaced, .. } => "SURFACED",
        KeyContext::Popup { kind: PopupKind::Palette, .. } => "COMMANDS",
        KeyContext::Popup { kind: PopupKind::Search, .. } => "SEARCH",
        KeyContext::Popup { kind: PopupKind::Help, .. } => "HELP",
        KeyContext::Popup { kind: PopupKind::Move, .. } => "MOVE",
        KeyContext::Popup { kind: PopupKind::CopyQuestion, .. } => "RENAME",
        KeyContext::Popup { kind: PopupKind::DeleteQuestion, .. } => "DELETE",
        KeyContext::Popup { kind: PopupKind::Date, .. } => "DATE",
        KeyContext::Popup { kind: PopupKind::Repeat, .. } => "REPEAT",
        KeyContext::Popup { kind: PopupKind::Spelling, .. } => "SPELLING",
        KeyContext::Popup { kind: PopupKind::Dictionary, .. } => "DICTIONARY",
        KeyContext::Settings { .. } => "SETTINGS",
        KeyContext::Leader { .. } => "GO",
    }
}

/// What the hint bar calls the context it is showing.
pub fn name(context: KeyContext) -> (called: &'static str)
    ensures
        called == name_of(context),
{
    match context {
        KeyContext::Home { pane: Pane::Day, day: Shown::Today, .. } => "TODAY",
        KeyContext::Home { pane: Pane::Day, day: Shown::Past, .. } => "PAST DAY",
        KeyContext::Home { pane: Pane::Day, day: Shown::Future, .. } => "FUTURE DAY",
        KeyContext::Home { pane: Pane::Backlog, day: Shown::Today, .. } => "BACKLOG",
        KeyContext::Home { pane: Pane::Backlog, .. } => "DAYS",
        KeyContext::Notes { pane: NotesPane::List, list: NotesList::Notes, .. } => "NOTES",
        KeyContext::Notes { pane: NotesPane::List, list: NotesList::Archive, .. } => "ARCHIVE",
        KeyContext::Notes { pane: NotesPane::Note, .. } => "NOTE",
        KeyContext::Notes { pane: NotesPane::Filter, .. } => "FILTER",
        KeyContext::Review { step: ReviewStep::Pile, .. } => "REVIEW",
        KeyContext::Review { step: ReviewStep::Surfaced, .. } => "SURFACED",
        KeyContext::Popup { kind: PopupKind::Palette, .. } => "COMMANDS",
        KeyContext::Popup { kind: PopupKind::Search, .. } => "SEARCH",
        KeyContext::Popup { kind: PopupKind::Help, .. } => "HELP",
        KeyContext::Popup { kind: PopupKind::Move, .. } => "MOVE",
        KeyContext::Popup { kind: PopupKind::CopyQuestion, .. } => "RENAME",
        KeyContext::Popup { kind: PopupKind::DeleteQuestion, .. } => "DELETE",
        KeyContext::Popup { kind: PopupKind::Date, .. } => "DATE",
        KeyContext::Popup { kind: PopupKind::Repeat, .. } => "REPEAT",
        KeyContext::Popup { kind: PopupKind::Spelling, .. } => "SPELLING",
        KeyContext::Popup { kind: PopupKind::Dictionary, .. } => "DICTIONARY",
        KeyContext::Settings { .. } => "SETTINGS",
        KeyContext::Leader { .. } => "GO",
    }
}

/// The one key that belongs to no context: it leaves from wherever the
/// keyboard is, a card or a field included, and puts the terminal back.
/// It is a row of no table, and the help overlay writes it from here so
/// that it is not a hidden key.
pub open spec fn ctrl_c_row() -> Binding {
    Binding {
        keys: &[("ctrl-c", Action::Quit)],
        shown: "ctrl-c",
        label: "quit, from anywhere",
        bar: Bar::Off,
        narrow: Bar::Off,
    }
}

/// The row that names `ctrl-c`, which quits from every context.
pub fn ctrl_c() -> (row: Binding)
    ensures
        row == ctrl_c_row(),
{
    Binding {
        keys: &[("ctrl-c", Action::Quit)],
        shown: "ctrl-c",
        label: "quit, from anywhere",
        bar: Bar::Off,
        narrow: Bar::Off,
    }
}

// ---- dispatch --------------------------------------------------------

/// A key as the terminal reports it.
#[derive(Clone, Copy, Debug, PartialEq, Eq, Structural)]
pub enum KeyCode {
    Char(char),
    Enter,
    Esc,
    Tab,
    BackTab,
    Up,
    Down,
    Left,
    Right,
    Home,
    End,
    Backspace,
    Delete,
    Insert,
    /// A key no table names: a function key, page up and down, and the
    /// like.
    Other,
}

/// The modifiers held with a key. `other` is any the program has no use
/// for (super, hyper, meta): with one of them held a key is never the
/// plain key.
#[derive(Clone, Copy, Debug, PartialEq, Eq, Structural)]
pub struct Modifiers {
    pub shift: bool,
    pub control: bool,
    pub alt: bool,
    pub other: bool,
}

impl Modifiers {
    /// No modifier at all.
    pub open spec fn none(self) -> bool {
        !self.shift && !self.control && !self.alt && !self.other
    }

    /// Control and nothing else.
    pub open spec fn control_only(self) -> bool {
        !self.shift && self.control && !self.alt && !self.other
    }

    /// Shift and nothing else.
    pub open spec fn shift_only(self) -> bool {
        self.shift && !self.control && !self.alt && !self.other
    }

    /// Alt and nothing else.
    pub open spec fn alt_only(self) -> bool {
        !self.shift && !self.control && self.alt && !self.other
    }

    /// Control and shift and nothing else.
    pub open spec fn control_shift_only(self) -> bool {
        self.shift && self.control && !self.alt && !self.other
    }
}

/// Whether a key went down, was held, or came up.
#[derive(Clone, Copy, Debug, PartialEq, Eq, Structural)]
pub enum KeyKind {
    Press,
    Repeat,
    Release,
}

/// A key event: the key, the modifiers held with it, and whether it went
/// down.
#[derive(Clone, Copy, Debug, PartialEq, Eq, Structural)]
pub struct KeyEvent {
    pub code: KeyCode,
    pub modifiers: Modifiers,
    pub kind: KeyKind,
}

/// What the mouse did.
#[derive(Clone, Copy, Debug, PartialEq, Eq, Structural)]
pub enum MouseKind {
    Down,
    Up,
    Drag,
    Moved,
    ScrollDown,
    ScrollUp,
    ScrollLeft,
    ScrollRight,
}

/// A mouse event, in cell coordinates.
#[derive(Clone, Copy, Debug, PartialEq, Eq, Structural)]
pub struct MouseEvent {
    pub kind: MouseKind,
    pub column: u16,
    pub row: u16,
}

/// A terminal event.
#[derive(Clone, Copy, Debug, PartialEq, Eq, Structural)]
pub enum Event {
    Key(KeyEvent),
    Mouse(MouseEvent),
    Resize(u16, u16),
    FocusGained,
    FocusLost,
    /// Text pasted in one piece.
    Paste,
}

/// A key press as the tables write it: `a`, `J`, `space`, `alt-t`.
pub open spec fn key_name_of(code: KeyCode, modifiers: Modifiers) -> Option<Seq<char>> {
    // The two page motions are the only control keys a table names; the
    // rest belong to the text fields or to nobody.
    if modifiers.control_only() {
        match code {
            KeyCode::Char('d') => Some("ctrl-d"@),
            KeyCode::Char('u') => Some("ctrl-u"@),
            _ => None,
        }
    } else if modifiers.control {
        None
    } else {
        let plain: Option<Seq<char>> = match code {
            // The character already carries the shift; the modifier would
            // say it twice.
            KeyCode::Char(' ') => Some("space"@),
            KeyCode::Char(typed) => Some(seq![typed]),
            KeyCode::Enter => Some("enter"@),
            KeyCode::Esc => Some("esc"@),
            KeyCode::Tab => Some("tab"@),
            KeyCode::BackTab => Some("tab"@),
            KeyCode::Up => Some("up"@),
            KeyCode::Down => Some("down"@),
            KeyCode::Left => Some("left"@),
            KeyCode::Right => Some("right"@),
            KeyCode::Home => Some("home"@),
            KeyCode::End => Some("end"@),
            KeyCode::Backspace => Some("backspace"@),
            KeyCode::Delete => Some("delete"@),
            _ => None,
        };
        match plain {
            Some(name) => if modifiers.alt { Some("alt-"@ + name) } else { Some(name) },
            None => None,
        }
    }
}

/// The name of a key press that has no control key in it, without `alt-`.
fn plain_name(code: KeyCode) -> (name: Option<Vec<char>>)
    ensures
        name matches Some(n) ==> Some(n@) == key_name_of(code, Modifiers { shift: false, control: false, alt: false, other: false }),
        name is None ==> key_name_of(code, Modifiers { shift: false, control: false, alt: false, other: false }) is None,
{
    match code {
        KeyCode::Char(' ') => Some(chars_of("space")),
        KeyCode::Char(typed) => {
            let mut one: Vec<char> = Vec::new();
            one.push(typed);
            assert(one@ =~= seq![typed]);
            Some(one)
        },
        KeyCode::Enter => Some(chars_of("enter")),
        KeyCode::Esc => Some(chars_of("esc")),
        KeyCode::Tab => Some(chars_of("tab")),
        KeyCode::BackTab => Some(chars_of("tab")),
        KeyCode::Up => Some(chars_of("up")),
        KeyCode::Down => Some(chars_of("down")),
        KeyCode::Left => Some(chars_of("left")),
        KeyCode::Right => Some(chars_of("right")),
        KeyCode::Home => Some(chars_of("home")),
        KeyCode::End => Some(chars_of("end")),
        KeyCode::Backspace => Some(chars_of("backspace")),
        KeyCode::Delete => Some(chars_of("delete")),
        _ => None,
    }
}

/// A key press as the tables write it.
fn key_name(code: KeyCode, modifiers: Modifiers) -> (name: Option<Vec<char>>)
    ensures
        name matches Some(n) ==> key_name_of(code, modifiers) == Some(n@),
        name is None ==> key_name_of(code, modifiers) is None,
{
    if !modifiers.shift && modifiers.control && !modifiers.alt && !modifiers.other {
        return match code {
            KeyCode::Char('d') => Some(chars_of("ctrl-d")),
            KeyCode::Char('u') => Some(chars_of("ctrl-u")),
            _ => None,
        };
    }
    if modifiers.control {
        return None;
    }
    match plain_name(code) {
        None => None,
        Some(name) => {
            if modifiers.alt {
                let mut with: Vec<char> = chars_of("alt-");
                append_all(&mut with, name.as_slice());
                Some(with)
            } else {
                Some(name)
            }
        },
    }
}

/// The keys that move and change a caret. They are the text field itself
/// rather than a row of the table, so they are never in the hint bar.
pub open spec fn editing_of(code: KeyCode, modifiers: Modifiers) -> Option<Action> {
    if modifiers.alt_only() && code == KeyCode::Char('y') {
        Some(Action::CopyNote)
    } else if modifiers.alt {
        None
    } else if modifiers.control_shift_only() && (code == KeyCode::Char('c') || code == KeyCode::Char('C') || code == KeyCode::Insert) {
        Some(Action::CopySelection)
    } else if modifiers.control_shift_only() && (code == KeyCode::Char('x') || code == KeyCode::Char('X')) {
        Some(Action::CutSelection)
    } else if modifiers.control_shift_only() && (code == KeyCode::Char('v') || code == KeyCode::Char('V')) {
        Some(Action::Paste)
    } else if modifiers.shift_only() && code == KeyCode::Insert {
        Some(Action::Paste)
    } else if modifiers.shift {
        match (code, modifiers.control) {
            (KeyCode::Left, true) => Some(Action::SelectWordLeft),
            (KeyCode::Right, true) => Some(Action::SelectWordRight),
            (KeyCode::Left, false) => Some(Action::SelectLeft),
            (KeyCode::Right, false) => Some(Action::SelectRight),
            (KeyCode::Up, false) => Some(Action::SelectUp),
            (KeyCode::Down, false) => Some(Action::SelectDown),
            (KeyCode::Home, false) => Some(Action::SelectStart),
            (KeyCode::End, false) => Some(Action::SelectEnd),
            _ => None,
        }
    } else if modifiers.control {
        match code {
            KeyCode::Char('a') => Some(Action::SelectAll),
            KeyCode::Char('x') => Some(Action::CutSelection),
            KeyCode::Char('v') => Some(Action::Paste),
            KeyCode::Insert => Some(Action::CopySelection),
            KeyCode::Left => Some(Action::WordLeft),
            KeyCode::Right => Some(Action::WordRight),
            // Legacy terminals encode Ctrl+Backspace as BS (Ctrl+H).
            KeyCode::Backspace => Some(Action::DeleteWordBackward),
            KeyCode::Char('h') => Some(Action::DeleteWordBackward),
            _ => None,
        }
    } else {
        match code {
            KeyCode::Backspace => Some(Action::Backspace),
            KeyCode::Delete => Some(Action::DeleteForward),
            KeyCode::Left => Some(Action::Left),
            KeyCode::Right => Some(Action::Right),
            KeyCode::Home => Some(Action::LineStart),
            KeyCode::End => Some(Action::LineEnd),
            _ => None,
        }
    }
}

fn editing(code: KeyCode, modifiers: Modifiers) -> (action: Option<Action>)
    ensures
        action == editing_of(code, modifiers),
{
    let m = modifiers;
    let alt_only = !m.shift && !m.control && m.alt && !m.other;
    let control_shift_only = m.shift && m.control && !m.alt && !m.other;
    let shift_only = m.shift && !m.control && !m.alt && !m.other;
    if alt_only && code == KeyCode::Char('y') {
        return Some(Action::CopyNote);
    }
    if m.alt {
        return None;
    }
    if control_shift_only && (code == KeyCode::Char('c') || code == KeyCode::Char('C') || code == KeyCode::Insert) {
        return Some(Action::CopySelection);
    }
    if control_shift_only && (code == KeyCode::Char('x') || code == KeyCode::Char('X')) {
        return Some(Action::CutSelection);
    }
    if control_shift_only && (code == KeyCode::Char('v') || code == KeyCode::Char('V')) {
        return Some(Action::Paste);
    }
    if shift_only && code == KeyCode::Insert {
        return Some(Action::Paste);
    }
    if m.shift {
        return match (code, m.control) {
            (KeyCode::Left, true) => Some(Action::SelectWordLeft),
            (KeyCode::Right, true) => Some(Action::SelectWordRight),
            (KeyCode::Left, false) => Some(Action::SelectLeft),
            (KeyCode::Right, false) => Some(Action::SelectRight),
            (KeyCode::Up, false) => Some(Action::SelectUp),
            (KeyCode::Down, false) => Some(Action::SelectDown),
            (KeyCode::Home, false) => Some(Action::SelectStart),
            (KeyCode::End, false) => Some(Action::SelectEnd),
            _ => None,
        };
    }
    if m.control {
        return match code {
            KeyCode::Char('a') => Some(Action::SelectAll),
            KeyCode::Char('x') => Some(Action::CutSelection),
            KeyCode::Char('v') => Some(Action::Paste),
            KeyCode::Insert => Some(Action::CopySelection),
            KeyCode::Left => Some(Action::WordLeft),
            KeyCode::Right => Some(Action::WordRight),
            KeyCode::Backspace => Some(Action::DeleteWordBackward),
            KeyCode::Char('h') => Some(Action::DeleteWordBackward),
            _ => None,
        };
    }
    match code {
        KeyCode::Backspace => Some(Action::Backspace),
        KeyCode::Delete => Some(Action::DeleteForward),
        KeyCode::Left => Some(Action::Left),
        KeyCode::Right => Some(Action::Right),
        KeyCode::Home => Some(Action::LineStart),
        KeyCode::End => Some(Action::LineEnd),
        _ => None,
    }
}

/// The character a key press types, if it types one.
pub open spec fn typed_of(code: KeyCode, modifiers: Modifiers) -> Option<char> {
    if modifiers.alt || modifiers.control {
        None
    } else {
        match code {
            KeyCode::Char(typed) => Some(typed),
            _ => None,
        }
    }
}

fn typed(code: KeyCode, modifiers: Modifiers) -> (c: Option<char>)
    ensures
        c == typed_of(code, modifiers),
{
    if modifiers.alt || modifiers.control {
        return None;
    }
    match code {
        KeyCode::Char(typed) => Some(typed),
        _ => None,
    }
}

/// Every key of a table, row by row, in order.
pub open spec fn keys_of(rows: Seq<Binding>) -> Seq<(&'static str, Action)>
    decreases rows.len(),
{
    if rows.len() == 0 {
        Seq::empty()
    } else {
        keys_of(rows.drop_last()) + rows.last().keys@
    }
}

/// The action of the first of these keys written `name`.
pub open spec fn lookup(keys: Seq<(&'static str, Action)>, name: Seq<char>) -> Option<Action>
    decreases keys.len(),
{
    if keys.len() == 0 {
        None
    } else if keys[0].0@ == name {
        Some(keys[0].1)
    } else {
        lookup(keys.drop_first(), name)
    }
}

/// The action the row of a context's table that claims a key means.
pub open spec fn bound_in(context: KeyContext, name: Seq<char>) -> Option<Action> {
    lookup(keys_of(table_of(context)), name)
}

/// Every key of a table, row by row.
fn all_keys(rows: &[Binding]) -> (keys: Vec<(&'static str, Action)>)
    ensures
        keys@ == keys_of(rows@),
{
    let mut keys: Vec<(&'static str, Action)> = Vec::new();
    let mut i: usize = 0;
    while i < rows.len()
        invariant
            i <= rows@.len(),
            keys@ == keys_of(rows@.subrange(0, i as int)),
        decreases rows@.len() - i,
    {
        let row = rows[i];
        let mut j: usize = 0;
        let ghost before = keys@;
        while j < row.keys.len()
            invariant
                j <= row.keys@.len(),
                keys@ == before + row.keys@.subrange(0, j as int),
            decreases row.keys@.len() - j,
        {
            keys.push(row.keys[j]);
            j = j + 1;
            assert(keys@ =~= before + row.keys@.subrange(0, j as int));
        }
        proof {
            let next = rows@.subrange(0, i + 1);
            assert(next.drop_last() =~= rows@.subrange(0, i as int));
            assert(row.keys@.subrange(0, j as int) =~= row.keys@);
        }
        i = i + 1;
    }
    assert(rows@.subrange(0, rows@.len() as int) =~= rows@);
    keys
}

/// The row of the table that claims a key.
fn bound(context: KeyContext, name: &[char]) -> (action: Option<Action>)
    ensures
        action == bound_in(context, name@),
{
    let keys = all_keys(bindings(context));
    let mut i: usize = 0;
    assert(keys@.subrange(0, keys@.len() as int) =~= keys@);
    while i < keys.len()
        invariant
            i <= keys@.len(),
            lookup(keys@, name@) == lookup(keys@.subrange(i as int, keys@.len() as int), name@),
            keys@ == keys_of(table_of(context)),
        decreases keys@.len() - i,
    {
        let (key, action) = keys[i];
        let ghost rest = keys@.subrange(i as int, keys@.len() as int);
        if is(name, key) {
            return Some(action);
        }
        assert(rest.drop_first() =~= keys@.subrange(i + 1, keys@.len() as int));
        i = i + 1;
    }
    None
}

/// The keys a text field leaves alone. Everything else printable types.
pub open spec fn keeps_its_name(name: Seq<char>) -> bool {
    name == "enter"@ || name == "esc"@ || name == "tab"@ || name == "up"@ || name == "down"@
}

fn keeps(name: &[char]) -> (kept: bool)
    ensures
        kept == keeps_its_name(name@),
{
    is(name, "enter") || is(name, "esc") || is(name, "tab") || is(name, "up") || is(name, "down")
}

/// The action a key press means in a context, if it means one.
pub open spec fn key_action_of(code: KeyCode, modifiers: Modifiers, context: KeyContext) -> Option<Action> {
    if modifiers.control_only() && code == KeyCode::Char('c') {
        Some(Action::Quit)
    } else if code == KeyCode::Enter && modifiers.shift_only() && bound_in(context, "shift-enter"@) is Some {
        bound_in(context, "shift-enter"@)
    } else if !context.has_text_field() {
        match key_name_of(code, modifiers) {
            Some(name) => bound_in(context, name),
            None => None,
        }
    } else if modifiers.control_only() && code == KeyCode::Char('z') {
        bound_in(context, "ctrl-z"@)
    } else if modifiers.control_only() && code == KeyCode::Char('y') {
        bound_in(context, "ctrl-y"@)
    } else if editing_of(code, modifiers) is Some {
        // The overlay: the editing keys first, then the few names a field
        // keeps, then typing.
        editing_of(code, modifiers)
    } else {
        match key_name_of(code, modifiers) {
            None => None,
            Some(name) => if keeps_its_name(name) || starts_with(name, "alt-"@) || starts_with(name, "ctrl-"@) {
                bound_in(context, name)
            } else {
                match typed_of(code, modifiers) {
                    Some(c) => Some(Action::Insert(c)),
                    None => None,
                }
            },
        }
    }
}

fn key_action(code: KeyCode, modifiers: Modifiers, context: KeyContext) -> (action: Option<Action>)
    ensures
        action == key_action_of(code, modifiers, context),
{
    let m = modifiers;
    let control_only = !m.shift && m.control && !m.alt && !m.other;
    let shift_only = m.shift && !m.control && !m.alt && !m.other;
    if control_only && code == KeyCode::Char('c') {
        return Some(Action::Quit);
    }
    if code == KeyCode::Enter && shift_only {
        let shift_enter = chars_of("shift-enter");
        let action = bound(context, shift_enter.as_slice());
        if action.is_some() {
            return action;
        }
    }
    if !context.text_field() {
        return match key_name(code, modifiers) {
            Some(name) => bound(context, name.as_slice()),
            None => None,
        };
    }
    if control_only && code == KeyCode::Char('z') {
        let undo = chars_of("ctrl-z");
        return bound(context, undo.as_slice());
    }
    if control_only && code == KeyCode::Char('y') {
        let redo = chars_of("ctrl-y");
        return bound(context, redo.as_slice());
    }
    let edit = editing(code, modifiers);
    if edit.is_some() {
        return edit;
    }
    match key_name(code, modifiers) {
        None => None,
        Some(name) => {
            if keeps(name.as_slice()) || begins_with(name.as_slice(), "alt-") || begins_with(name.as_slice(), "ctrl-") {
                bound(context, name.as_slice())
            } else {
                match typed(code, modifiers) {
                    Some(c) => Some(Action::Insert(c)),
                    None => None,
                }
            }
        },
    }
}

/// The action the mouse means: where it went down, came up or dragged,
/// and which way the wheel turned, in cell coordinates.
pub open spec fn mouse_action_of(mouse: MouseEvent) -> Option<Action> {
    let (column, row) = (mouse.column, mouse.row);
    match mouse.kind {
        MouseKind::Down => Some(Action::MouseDown { column, row }),
        MouseKind::Up => Some(Action::MouseUp { column, row }),
        MouseKind::Drag => Some(Action::MouseDrag { column, row }),
        MouseKind::ScrollDown => Some(Action::Scroll { column, row, down: true }),
        MouseKind::ScrollUp => Some(Action::Scroll { column, row, down: false }),
        _ => None,
    }
}

fn mouse_action(mouse: MouseEvent) -> (action: Option<Action>)
    ensures
        action == mouse_action_of(mouse),
{
    let (column, row) = (mouse.column, mouse.row);
    match mouse.kind {
        MouseKind::Down => Some(Action::MouseDown { column, row }),
        MouseKind::Up => Some(Action::MouseUp { column, row }),
        MouseKind::Drag => Some(Action::MouseDrag { column, row }),
        MouseKind::ScrollDown => Some(Action::Scroll { column, row, down: true }),
        MouseKind::ScrollUp => Some(Action::Scroll { column, row, down: false }),
        _ => None,
    }
}

/// The action a terminal event means in a context, if it means one.
pub open spec fn action_of(event: Event, context: KeyContext) -> Option<Action> {
    match event {
        Event::Key(key) => if key.kind == KeyKind::Press {
            key_action_of(key.code, key.modifiers, context)
        } else {
            None
        },
        Event::Mouse(mouse) => mouse_action_of(mouse),
        Event::Resize(_, _) => Some(Action::Resize),
        Event::FocusGained => Some(Action::FocusGained),
        _ => None,
    }
}

/// The action a terminal event means in a context, if it means one.
pub fn action_for(event: &Event, context: KeyContext) -> (action: Option<Action>)
    ensures
        action == action_of(*event, context),
{
    match event {
        Event::Key(key) => if key.kind == KeyKind::Press {
            key_action(key.code, key.modifiers, context)
        } else {
            None
        },
        Event::Mouse(mouse) => mouse_action(*mouse),
        Event::Resize(_, _) => Some(Action::Resize),
        Event::FocusGained => Some(Action::FocusGained),
        _ => None,
    }
}

/// How the key tables write a key press, for a press that means nothing
/// where it was made; anything that is not a key press has no name.
pub fn pressed(event: &Event) -> (name: Option<String>)
    ensures
        name matches Some(n) ==> (*event matches Event::Key(key) && key.kind == KeyKind::Press
            && key_name_of(key.code, key.modifiers) == Some(n@)),
        name is None ==> !(*event matches Event::Key(key) && key.kind == KeyKind::Press
            && key_name_of(key.code, key.modifiers) is Some),
{
    match event {
        Event::Key(key) => if key.kind == KeyKind::Press {
            match key_name(key.code, key.modifiers) {
                Some(n) => Some(string_of(n.as_slice())),
                None => None,
            }
        } else {
            None
        },
        _ => None,
    }
}

} // verus!

verus! {

// ---- what holds of the table and of every key ------------------------

/// A key of any row of a table is among the keys of the table.
pub proof fn lemma_key_of_row(rows: Seq<Binding>, i: int, j: int)
    requires
        0 <= i < rows.len(),
        0 <= j < rows[i].keys@.len(),
    ensures
        keys_of(rows).contains(rows[i].keys@[j]),
    decreases rows.len(),
{
    let before = keys_of(rows.drop_last());
    if i == rows.len() - 1 {
        assert(keys_of(rows)[before.len() + j] == rows[i].keys@[j]);
    } else {
        assert(rows.drop_last()[i] == rows[i]);
        lemma_key_of_row(rows.drop_last(), i, j);
        let k = choose|k: int| 0 <= k < before.len() && before[k] == rows[i].keys@[j];
        assert(keys_of(rows)[k] == rows[i].keys@[j]);
    }
}

/// Every outcome the panel beside a step of the review offers is a key
/// of that step's own table, meaning what the panel says it does, on the
/// last step as on any other.
pub proof fn lemma_decisions_are_bound(step: ReviewStep, last: bool)
    ensures
        forall|i: int| 0 <= i < decision_rows(step).len() ==> keys_of(table_of(
            KeyContext::Review { step, last, asks: true, text_field: false },
        )).contains((#[trigger] decision_rows(step)[i].key, decision_rows(step)[i].action)),
{
    let rows = table_of(KeyContext::Review { step, last, asks: true, text_field: false });
    let offered = decision_rows(step);
    match step {
        ReviewStep::Pile => {
            // The outcomes are the first five rows of the pile, in order.
            assert forall|i: int| 0 <= i < offered.len() implies keys_of(rows).contains(
                (#[trigger] offered[i].key, offered[i].action),
            ) by {
                assert(rows[i].keys@[0] == (offered[i].key, offered[i].action));
                lemma_key_of_row(rows, i, 0);
            }
        },
        ReviewStep::Surfaced => {
            assert forall|i: int| 0 <= i < offered.len() implies keys_of(rows).contains(
                (#[trigger] offered[i].key, offered[i].action),
            ) by {
                // Remind-on sits between due-by and waiting in the table,
                // and the panel leaves it out.
                let row = if i < 3 { i } else { i + 1 };
                assert(rows[row].keys@[0] == (offered[i].key, offered[i].action));
                lemma_key_of_row(rows, row, 0);
            }
        },
    }
}

/// `ctrl-c` quits from every context, a card or a field included, and
/// a key that comes up or is held means nothing.
pub proof fn lemma_ctrl_c_quits_everywhere(
    context: KeyContext,
    code: KeyCode,
    modifiers: Modifiers,
    kind: KeyKind,
)
    ensures
        action_of(
            Event::Key(KeyEvent {
                code: KeyCode::Char('c'),
                modifiers: Modifiers { shift: false, control: true, alt: false, other: false },
                kind: KeyKind::Press,
            }),
            context,
        ) == Some(Action::Quit),
        kind != KeyKind::Press ==> action_of(
            Event::Key(KeyEvent { code, modifiers, kind }),
            context,
        ) is None,
{
}

/// With a text field in front of it, a character key without control or
/// alt types itself, whatever the context: letters, digits, space and
/// the shifted characters all become `Insert`, none of them a key of the
/// table.
pub proof fn lemma_a_text_field_types(context: KeyContext, c: char, modifiers: Modifiers)
    requires
        context.has_text_field(),
        !modifiers.control,
        !modifiers.alt,
    ensures
        action_of(
            Event::Key(KeyEvent { code: KeyCode::Char(c), modifiers, kind: KeyKind::Press }),
            context,
        ) == Some(Action::Insert(c)),
{
    reveal_strlit("enter");
    reveal_strlit("esc");
    reveal_strlit("tab");
    reveal_strlit("up");
    reveal_strlit("down");
    reveal_strlit("space");
    reveal_strlit("alt-");
    reveal_strlit("ctrl-");
    let code = KeyCode::Char(c);
    let name = key_name_of(code, modifiers).unwrap();
    if c == ' ' {
        assert(name == "space"@);
        assert(name[0] != "enter"@[0]);
        assert(name.subrange(0, 4)[0] != "alt-"@[0]);
        assert(name.subrange(0, 5)[0] != "ctrl-"@[0]);
    } else {
        assert(name == seq![c]);
        assert(name.len() != "enter"@.len() && name.len() != "esc"@.len());
        assert(name.len() != "up"@.len() && name.len() != "down"@.len());
    }
    assert(!keeps_its_name(name));
    assert(!starts_with(name, "alt-"@));
    assert(!starts_with(name, "ctrl-"@));
    assert(editing_of(code, modifiers) is None);
    assert(typed_of(code, modifiers) == Some(c));
}


// ---- what the day pane's keys do ---------------------------------------

/// The action of the first row of a table that binds a key, row by row.
pub open spec fn row_lookup(rows: Seq<Binding>, name: Seq<char>) -> Option<Action>
    decreases rows.len(),
{
    if rows.len() == 0 {
        None
    } else {
        match lookup(rows[0].keys@, name) {
            Some(a) => Some(a),
            None => row_lookup(rows.drop_first(), name),
        }
    }
}

/// A key looked up in two runs of keys is looked up in the first, then
/// in the second.
proof fn lemma_lookup_concat(a: Seq<(&'static str, Action)>, b: Seq<(&'static str, Action)>, name: Seq<char>)
    ensures
        lookup(a + b, name) == match lookup(a, name) {
            Some(x) => Some(x),
            None => lookup(b, name),
        },
    decreases a.len(),
{
    if a.len() == 0 {
        assert(a + b =~= b);
    } else {
        assert((a + b)[0] == a[0]);
        assert((a + b).drop_first() =~= a.drop_first() + b);
        lemma_lookup_concat(a.drop_first(), b, name);
    }
}

/// The keys of a table are its first row's keys, then the rest's.
proof fn lemma_keys_of_first(rows: Seq<Binding>)
    requires
        rows.len() > 0,
    ensures
        keys_of(rows) == rows[0].keys@ + keys_of(rows.drop_first()),
    decreases rows.len(),
{
    if rows.len() == 1 {
        assert(rows.drop_last() =~= Seq::<Binding>::empty());
        assert(rows.drop_first() =~= Seq::<Binding>::empty());
        assert(keys_of(Seq::<Binding>::empty()) == Seq::<(&'static str, Action)>::empty());
        assert(rows[0].keys@ + Seq::<(&'static str, Action)>::empty() =~= rows[0].keys@);
        assert(Seq::<(&'static str, Action)>::empty() + rows.last().keys@ =~= rows[0].keys@);
    } else {
        lemma_keys_of_first(rows.drop_last());
        assert(rows.drop_last().drop_first() =~= rows.drop_first().drop_last());
        assert(rows.drop_first().last() == rows.last());
        assert(rows.drop_last()[0] == rows[0]);
        assert(rows[0].keys@ + keys_of(rows.drop_first()) =~= rows[0].keys@ + keys_of(rows.drop_last().drop_first())
            + rows.last().keys@);
    }
}

/// A table looks a key up as the first row that binds it says.
proof fn lemma_lookup_rows(rows: Seq<Binding>, name: Seq<char>)
    ensures
        lookup(keys_of(rows), name) == row_lookup(rows, name),
    decreases rows.len(),
{
    if rows.len() > 0 {
        lemma_keys_of_first(rows);
        lemma_lookup_concat(rows[0].keys@, keys_of(rows.drop_first()), name);
        lemma_lookup_rows(rows.drop_first(), name);
    } else {
        assert(keys_of(rows) == Seq::<(&'static str, Action)>::empty());
    }
}

/// A printable key pressed alone on a pane of today, with no field open,
/// means what the table binds it to.
proof fn lemma_typed_on_today(c: char, pane: Pane, narrow: bool)
    requires
        c != ' ',
    ensures
        key_action_of(
            KeyCode::Char(c),
            Modifiers { shift: false, control: false, alt: false, other: false },
            KeyContext::Home { pane, day: Shown::Today, field: None, narrow },
        ) == row_lookup(table_of(KeyContext::Home { pane, day: Shown::Today, field: None, narrow }), seq![c]),
{
    lemma_lookup_rows(table_of(KeyContext::Home { pane, day: Shown::Today, field: None, narrow }), seq![c]);
}

/// Two texts that differ in length or in their first letter differ.
proof fn lemma_ne(a: Seq<char>, b: Seq<char>)
    requires
        a.len() != b.len() || (a.len() > 0 && b.len() > 0 && a[0] != b[0]),
    ensures
        a != b,
{
}

/// On today's day pane, with no field open, in a wide window and in a
/// narrow one alike, each key the hint bar shows does what its label
/// says: space marks the task done, `f` focuses it, `a` adds, `e` edits,
/// `b` sends it to the backlog, `m` moves it to a day, `R` repeats it,
/// `x` deletes it, and `w` sets it waiting and `u` undoes.
pub proof fn lemma_today_keys(narrow: bool)
    ensures
        ({
            let none = Modifiers { shift: false, control: false, alt: false, other: false };
            let here = KeyContext::Home { pane: Pane::Day, day: Shown::Today, field: None, narrow };
            &&& key_action_of(KeyCode::Char(' '), none, here) == Some(Action::Close)
            &&& key_action_of(KeyCode::Char('f'), none, here) == Some(Action::Focus)
            &&& key_action_of(KeyCode::Char('a'), none, here) == Some(Action::Add)
            &&& key_action_of(KeyCode::Char('e'), none, here) == Some(Action::Edit)
            &&& key_action_of(KeyCode::Char('b'), none, here) == Some(Action::ToBacklog)
            &&& key_action_of(KeyCode::Char('m'), none, here) == Some(Action::MoveToDay)
            &&& key_action_of(KeyCode::Char('R'), none, here) == Some(Action::Repeat)
            &&& key_action_of(KeyCode::Char('x'), none, here) == Some(Action::Delete)
            &&& key_action_of(KeyCode::Char('w'), none, here) == Some(Action::Waiting)
            &&& key_action_of(KeyCode::Char('u'), none, here) == Some(Action::Undo)
        }),
{
    let here = KeyContext::Home { pane: Pane::Day, day: Shown::Today, field: None, narrow };
    let rows = table_of(here);
    reveal_strlit("[");
    reveal_strlit("]");
    reveal_strlit("J");
    reveal_strlit("K");
    reveal_strlit("space");
    reveal_strlit("f");
    reveal_strlit("a");
    reveal_strlit("e");
    reveal_strlit("b");
    reveal_strlit("m");
    reveal_strlit("R");
    reveal_strlit("x");
    reveal_strlit("w");
    reveal_strlit("y");
    reveal_strlit("enter");
    reveal_strlit("h");
    reveal_strlit("l");
    reveal_strlit("tab");
    reveal_strlit("j");
    reveal_strlit("k");
    reveal_strlit("down");
    reveal_strlit("up");
    reveal_strlit("u");
    assert("f"@ =~= seq!['f']);
    assert("a"@ =~= seq!['a']);
    assert("e"@ =~= seq!['e']);
    assert("b"@ =~= seq!['b']);
    assert("m"@ =~= seq!['m']);
    assert("R"@ =~= seq!['R']);
    assert("x"@ =~= seq!['x']);
    assert("w"@ =~= seq!['w']);
    assert("u"@ =~= seq!['u']);
    reveal_with_fuel(row_lookup, 18);
    reveal_with_fuel(lookup, 5);
    lemma_ne("["@, seq!['f']);
    lemma_ne("]"@, seq!['f']);
    lemma_ne("J"@, seq!['f']);
    lemma_ne("K"@, seq!['f']);
    lemma_ne("space"@, seq!['f']);
    lemma_ne("a"@, seq!['f']);
    lemma_ne("e"@, seq!['f']);
    lemma_ne("b"@, seq!['f']);
    lemma_ne("m"@, seq!['f']);
    lemma_ne("R"@, seq!['f']);
    lemma_ne("x"@, seq!['f']);
    lemma_ne("w"@, seq!['f']);
    lemma_ne("y"@, seq!['f']);
    lemma_ne("enter"@, seq!['f']);
    lemma_ne("h"@, seq!['f']);
    lemma_ne("l"@, seq!['f']);
    lemma_ne("tab"@, seq!['f']);
    lemma_ne("j"@, seq!['f']);
    lemma_ne("k"@, seq!['f']);
    lemma_ne("down"@, seq!['f']);
    lemma_ne("up"@, seq!['f']);
    lemma_ne("u"@, seq!['f']);
    lemma_ne("["@, seq!['a']);
    lemma_ne("]"@, seq!['a']);
    lemma_ne("J"@, seq!['a']);
    lemma_ne("K"@, seq!['a']);
    lemma_ne("space"@, seq!['a']);
    lemma_ne("f"@, seq!['a']);
    lemma_ne("e"@, seq!['a']);
    lemma_ne("b"@, seq!['a']);
    lemma_ne("m"@, seq!['a']);
    lemma_ne("R"@, seq!['a']);
    lemma_ne("x"@, seq!['a']);
    lemma_ne("w"@, seq!['a']);
    lemma_ne("y"@, seq!['a']);
    lemma_ne("enter"@, seq!['a']);
    lemma_ne("h"@, seq!['a']);
    lemma_ne("l"@, seq!['a']);
    lemma_ne("tab"@, seq!['a']);
    lemma_ne("j"@, seq!['a']);
    lemma_ne("k"@, seq!['a']);
    lemma_ne("down"@, seq!['a']);
    lemma_ne("up"@, seq!['a']);
    lemma_ne("u"@, seq!['a']);
    lemma_ne("["@, seq!['e']);
    lemma_ne("]"@, seq!['e']);
    lemma_ne("J"@, seq!['e']);
    lemma_ne("K"@, seq!['e']);
    lemma_ne("space"@, seq!['e']);
    lemma_ne("f"@, seq!['e']);
    lemma_ne("a"@, seq!['e']);
    lemma_ne("b"@, seq!['e']);
    lemma_ne("m"@, seq!['e']);
    lemma_ne("R"@, seq!['e']);
    lemma_ne("x"@, seq!['e']);
    lemma_ne("w"@, seq!['e']);
    lemma_ne("y"@, seq!['e']);
    lemma_ne("enter"@, seq!['e']);
    lemma_ne("h"@, seq!['e']);
    lemma_ne("l"@, seq!['e']);
    lemma_ne("tab"@, seq!['e']);
    lemma_ne("j"@, seq!['e']);
    lemma_ne("k"@, seq!['e']);
    lemma_ne("down"@, seq!['e']);
    lemma_ne("up"@, seq!['e']);
    lemma_ne("u"@, seq!['e']);
    lemma_ne("["@, seq!['b']);
    lemma_ne("]"@, seq!['b']);
    lemma_ne("J"@, seq!['b']);
    lemma_ne("K"@, seq!['b']);
    lemma_ne("space"@, seq!['b']);
    lemma_ne("f"@, seq!['b']);
    lemma_ne("a"@, seq!['b']);
    lemma_ne("e"@, seq!['b']);
    lemma_ne("m"@, seq!['b']);
    lemma_ne("R"@, seq!['b']);
    lemma_ne("x"@, seq!['b']);
    lemma_ne("w"@, seq!['b']);
    lemma_ne("y"@, seq!['b']);
    lemma_ne("enter"@, seq!['b']);
    lemma_ne("h"@, seq!['b']);
    lemma_ne("l"@, seq!['b']);
    lemma_ne("tab"@, seq!['b']);
    lemma_ne("j"@, seq!['b']);
    lemma_ne("k"@, seq!['b']);
    lemma_ne("down"@, seq!['b']);
    lemma_ne("up"@, seq!['b']);
    lemma_ne("u"@, seq!['b']);
    lemma_ne("["@, seq!['m']);
    lemma_ne("]"@, seq!['m']);
    lemma_ne("J"@, seq!['m']);
    lemma_ne("K"@, seq!['m']);
    lemma_ne("space"@, seq!['m']);
    lemma_ne("f"@, seq!['m']);
    lemma_ne("a"@, seq!['m']);
    lemma_ne("e"@, seq!['m']);
    lemma_ne("b"@, seq!['m']);
    lemma_ne("R"@, seq!['m']);
    lemma_ne("x"@, seq!['m']);
    lemma_ne("w"@, seq!['m']);
    lemma_ne("y"@, seq!['m']);
    lemma_ne("enter"@, seq!['m']);
    lemma_ne("h"@, seq!['m']);
    lemma_ne("l"@, seq!['m']);
    lemma_ne("tab"@, seq!['m']);
    lemma_ne("j"@, seq!['m']);
    lemma_ne("k"@, seq!['m']);
    lemma_ne("down"@, seq!['m']);
    lemma_ne("up"@, seq!['m']);
    lemma_ne("u"@, seq!['m']);
    lemma_ne("["@, seq!['R']);
    lemma_ne("]"@, seq!['R']);
    lemma_ne("J"@, seq!['R']);
    lemma_ne("K"@, seq!['R']);
    lemma_ne("space"@, seq!['R']);
    lemma_ne("f"@, seq!['R']);
    lemma_ne("a"@, seq!['R']);
    lemma_ne("e"@, seq!['R']);
    lemma_ne("b"@, seq!['R']);
    lemma_ne("m"@, seq!['R']);
    lemma_ne("x"@, seq!['R']);
    lemma_ne("w"@, seq!['R']);
    lemma_ne("y"@, seq!['R']);
    lemma_ne("enter"@, seq!['R']);
    lemma_ne("h"@, seq!['R']);
    lemma_ne("l"@, seq!['R']);
    lemma_ne("tab"@, seq!['R']);
    lemma_ne("j"@, seq!['R']);
    lemma_ne("k"@, seq!['R']);
    lemma_ne("down"@, seq!['R']);
    lemma_ne("up"@, seq!['R']);
    lemma_ne("u"@, seq!['R']);
    lemma_ne("["@, seq!['x']);
    lemma_ne("]"@, seq!['x']);
    lemma_ne("J"@, seq!['x']);
    lemma_ne("K"@, seq!['x']);
    lemma_ne("space"@, seq!['x']);
    lemma_ne("f"@, seq!['x']);
    lemma_ne("a"@, seq!['x']);
    lemma_ne("e"@, seq!['x']);
    lemma_ne("b"@, seq!['x']);
    lemma_ne("m"@, seq!['x']);
    lemma_ne("R"@, seq!['x']);
    lemma_ne("w"@, seq!['x']);
    lemma_ne("y"@, seq!['x']);
    lemma_ne("enter"@, seq!['x']);
    lemma_ne("h"@, seq!['x']);
    lemma_ne("l"@, seq!['x']);
    lemma_ne("tab"@, seq!['x']);
    lemma_ne("j"@, seq!['x']);
    lemma_ne("k"@, seq!['x']);
    lemma_ne("down"@, seq!['x']);
    lemma_ne("up"@, seq!['x']);
    lemma_ne("u"@, seq!['x']);
    lemma_ne("["@, seq!['w']);
    lemma_ne("]"@, seq!['w']);
    lemma_ne("J"@, seq!['w']);
    lemma_ne("K"@, seq!['w']);
    lemma_ne("space"@, seq!['w']);
    lemma_ne("f"@, seq!['w']);
    lemma_ne("a"@, seq!['w']);
    lemma_ne("e"@, seq!['w']);
    lemma_ne("b"@, seq!['w']);
    lemma_ne("m"@, seq!['w']);
    lemma_ne("R"@, seq!['w']);
    lemma_ne("x"@, seq!['w']);
    lemma_ne("y"@, seq!['w']);
    lemma_ne("enter"@, seq!['w']);
    lemma_ne("h"@, seq!['w']);
    lemma_ne("l"@, seq!['w']);
    lemma_ne("tab"@, seq!['w']);
    lemma_ne("j"@, seq!['w']);
    lemma_ne("k"@, seq!['w']);
    lemma_ne("down"@, seq!['w']);
    lemma_ne("up"@, seq!['w']);
    lemma_ne("u"@, seq!['w']);
    lemma_ne("["@, seq!['u']);
    lemma_ne("]"@, seq!['u']);
    lemma_ne("J"@, seq!['u']);
    lemma_ne("K"@, seq!['u']);
    lemma_ne("space"@, seq!['u']);
    lemma_ne("f"@, seq!['u']);
    lemma_ne("a"@, seq!['u']);
    lemma_ne("e"@, seq!['u']);
    lemma_ne("b"@, seq!['u']);
    lemma_ne("m"@, seq!['u']);
    lemma_ne("R"@, seq!['u']);
    lemma_ne("x"@, seq!['u']);
    lemma_ne("w"@, seq!['u']);
    lemma_ne("y"@, seq!['u']);
    lemma_ne("enter"@, seq!['u']);
    lemma_ne("h"@, seq!['u']);
    lemma_ne("l"@, seq!['u']);
    lemma_ne("tab"@, seq!['u']);
    lemma_ne("j"@, seq!['u']);
    lemma_ne("k"@, seq!['u']);
    lemma_ne("down"@, seq!['u']);
    lemma_ne("up"@, seq!['u']);
    lemma_ne("["@, "space"@);
    lemma_ne("]"@, "space"@);
    lemma_ne("J"@, "space"@);
    lemma_ne("K"@, "space"@);
    lemma_lookup_rows(rows, "space"@);
    lemma_typed_on_today('f', Pane::Day, narrow);
    lemma_typed_on_today('a', Pane::Day, narrow);
    lemma_typed_on_today('e', Pane::Day, narrow);
    lemma_typed_on_today('b', Pane::Day, narrow);
    lemma_typed_on_today('m', Pane::Day, narrow);
    lemma_typed_on_today('R', Pane::Day, narrow);
    lemma_typed_on_today('x', Pane::Day, narrow);
    lemma_typed_on_today('w', Pane::Day, narrow);
    lemma_typed_on_today('u', Pane::Day, narrow);
}


/// On today's backlog, with no field open, in a wide window and in a
/// narrow one alike, each key the hint bar shows does what its label
/// says: space marks the task done, `t` takes it to today, `m` moves it
/// to a day, `d` sets a due date, `r` a reminder, `w` sets it waiting,
/// `R` repeats it, `a` adds, `e` edits and `x` deletes.
pub proof fn lemma_backlog_keys(narrow: bool)
    ensures
        ({
            let none = Modifiers { shift: false, control: false, alt: false, other: false };
            let here = KeyContext::Home { pane: Pane::Backlog, day: Shown::Today, field: None, narrow };
            &&& key_action_of(KeyCode::Char(' '), none, here) == Some(Action::Close)
            &&& key_action_of(KeyCode::Char('t'), none, here) == Some(Action::ToToday)
            &&& key_action_of(KeyCode::Char('m'), none, here) == Some(Action::MoveToDay)
            &&& key_action_of(KeyCode::Char('d'), none, here) == Some(Action::DueBy)
            &&& key_action_of(KeyCode::Char('r'), none, here) == Some(Action::RemindOn)
            &&& key_action_of(KeyCode::Char('w'), none, here) == Some(Action::Waiting)
            &&& key_action_of(KeyCode::Char('R'), none, here) == Some(Action::Repeat)
            &&& key_action_of(KeyCode::Char('a'), none, here) == Some(Action::Add)
            &&& key_action_of(KeyCode::Char('e'), none, here) == Some(Action::Edit)
            &&& key_action_of(KeyCode::Char('x'), none, here) == Some(Action::Delete)
        }),
{
    let here = KeyContext::Home { pane: Pane::Backlog, day: Shown::Today, field: None, narrow };
    let rows = table_of(here);
    reveal_strlit("[");
    reveal_strlit("]");
    reveal_strlit("J");
    reveal_strlit("K");
    reveal_strlit("space");
    reveal_strlit("t");
    reveal_strlit("m");
    reveal_strlit("d");
    reveal_strlit("r");
    reveal_strlit("w");
    reveal_strlit("R");
    reveal_strlit("a");
    reveal_strlit("e");
    reveal_strlit("x");
    assert("t"@ =~= seq!['t']);
    assert("m"@ =~= seq!['m']);
    assert("d"@ =~= seq!['d']);
    assert("r"@ =~= seq!['r']);
    assert("w"@ =~= seq!['w']);
    assert("R"@ =~= seq!['R']);
    assert("a"@ =~= seq!['a']);
    assert("e"@ =~= seq!['e']);
    assert("x"@ =~= seq!['x']);
    lemma_ne("["@, seq!['t']);
    lemma_ne("]"@, seq!['t']);
    lemma_ne("J"@, seq!['t']);
    lemma_ne("K"@, seq!['t']);
    lemma_ne("space"@, seq!['t']);
    lemma_ne("m"@, seq!['t']);
    lemma_ne("d"@, seq!['t']);
    lemma_ne("r"@, seq!['t']);
    lemma_ne("w"@, seq!['t']);
    lemma_ne("R"@, seq!['t']);
    lemma_ne("a"@, seq!['t']);
    lemma_ne("e"@, seq!['t']);
    lemma_ne("x"@, seq!['t']);
    lemma_ne("["@, seq!['m']);
    lemma_ne("]"@, seq!['m']);
    lemma_ne("J"@, seq!['m']);
    lemma_ne("K"@, seq!['m']);
    lemma_ne("space"@, seq!['m']);
    lemma_ne("t"@, seq!['m']);
    lemma_ne("d"@, seq!['m']);
    lemma_ne("r"@, seq!['m']);
    lemma_ne("w"@, seq!['m']);
    lemma_ne("R"@, seq!['m']);
    lemma_ne("a"@, seq!['m']);
    lemma_ne("e"@, seq!['m']);
    lemma_ne("x"@, seq!['m']);
    lemma_ne("["@, seq!['d']);
    lemma_ne("]"@, seq!['d']);
    lemma_ne("J"@, seq!['d']);
    lemma_ne("K"@, seq!['d']);
    lemma_ne("space"@, seq!['d']);
    lemma_ne("t"@, seq!['d']);
    lemma_ne("m"@, seq!['d']);
    lemma_ne("r"@, seq!['d']);
    lemma_ne("w"@, seq!['d']);
    lemma_ne("R"@, seq!['d']);
    lemma_ne("a"@, seq!['d']);
    lemma_ne("e"@, seq!['d']);
    lemma_ne("x"@, seq!['d']);
    lemma_ne("["@, seq!['r']);
    lemma_ne("]"@, seq!['r']);
    lemma_ne("J"@, seq!['r']);
    lemma_ne("K"@, seq!['r']);
    lemma_ne("space"@, seq!['r']);
    lemma_ne("t"@, seq!['r']);
    lemma_ne("m"@, seq!['r']);
    lemma_ne("d"@, seq!['r']);
    lemma_ne("w"@, seq!['r']);
    lemma_ne("R"@, seq!['r']);
    lemma_ne("a"@, seq!['r']);
    lemma_ne("e"@, seq!['r']);
    lemma_ne("x"@, seq!['r']);
    lemma_ne("["@, seq!['w']);
    lemma_ne("]"@, seq!['w']);
    lemma_ne("J"@, seq!['w']);
    lemma_ne("K"@, seq!['w']);
    lemma_ne("space"@, seq!['w']);
    lemma_ne("t"@, seq!['w']);
    lemma_ne("m"@, seq!['w']);
    lemma_ne("d"@, seq!['w']);
    lemma_ne("r"@, seq!['w']);
    lemma_ne("R"@, seq!['w']);
    lemma_ne("a"@, seq!['w']);
    lemma_ne("e"@, seq!['w']);
    lemma_ne("x"@, seq!['w']);
    lemma_ne("["@, seq!['R']);
    lemma_ne("]"@, seq!['R']);
    lemma_ne("J"@, seq!['R']);
    lemma_ne("K"@, seq!['R']);
    lemma_ne("space"@, seq!['R']);
    lemma_ne("t"@, seq!['R']);
    lemma_ne("m"@, seq!['R']);
    lemma_ne("d"@, seq!['R']);
    lemma_ne("r"@, seq!['R']);
    lemma_ne("w"@, seq!['R']);
    lemma_ne("a"@, seq!['R']);
    lemma_ne("e"@, seq!['R']);
    lemma_ne("x"@, seq!['R']);
    lemma_ne("["@, seq!['a']);
    lemma_ne("]"@, seq!['a']);
    lemma_ne("J"@, seq!['a']);
    lemma_ne("K"@, seq!['a']);
    lemma_ne("space"@, seq!['a']);
    lemma_ne("t"@, seq!['a']);
    lemma_ne("m"@, seq!['a']);
    lemma_ne("d"@, seq!['a']);
    lemma_ne("r"@, seq!['a']);
    lemma_ne("w"@, seq!['a']);
    lemma_ne("R"@, seq!['a']);
    lemma_ne("e"@, seq!['a']);
    lemma_ne("x"@, seq!['a']);
    lemma_ne("["@, seq!['e']);
    lemma_ne("]"@, seq!['e']);
    lemma_ne("J"@, seq!['e']);
    lemma_ne("K"@, seq!['e']);
    lemma_ne("space"@, seq!['e']);
    lemma_ne("t"@, seq!['e']);
    lemma_ne("m"@, seq!['e']);
    lemma_ne("d"@, seq!['e']);
    lemma_ne("r"@, seq!['e']);
    lemma_ne("w"@, seq!['e']);
    lemma_ne("R"@, seq!['e']);
    lemma_ne("a"@, seq!['e']);
    lemma_ne("x"@, seq!['e']);
    lemma_ne("["@, seq!['x']);
    lemma_ne("]"@, seq!['x']);
    lemma_ne("J"@, seq!['x']);
    lemma_ne("K"@, seq!['x']);
    lemma_ne("space"@, seq!['x']);
    lemma_ne("t"@, seq!['x']);
    lemma_ne("m"@, seq!['x']);
    lemma_ne("d"@, seq!['x']);
    lemma_ne("r"@, seq!['x']);
    lemma_ne("w"@, seq!['x']);
    lemma_ne("R"@, seq!['x']);
    lemma_ne("a"@, seq!['x']);
    lemma_ne("e"@, seq!['x']);
    lemma_ne("["@, "space"@);
    lemma_ne("]"@, "space"@);
    lemma_ne("J"@, "space"@);
    lemma_ne("K"@, "space"@);
    reveal_with_fuel(row_lookup, 14);
    reveal_with_fuel(lookup, 5);
    lemma_lookup_rows(rows, "space"@);
    lemma_typed_on_today('t', Pane::Backlog, narrow);
    lemma_typed_on_today('m', Pane::Backlog, narrow);
    lemma_typed_on_today('d', Pane::Backlog, narrow);
    lemma_typed_on_today('r', Pane::Backlog, narrow);
    lemma_typed_on_today('w', Pane::Backlog, narrow);
    lemma_typed_on_today('R', Pane::Backlog, narrow);
    lemma_typed_on_today('a', Pane::Backlog, narrow);
    lemma_typed_on_today('e', Pane::Backlog, narrow);
    lemma_typed_on_today('x', Pane::Backlog, narrow);
}


/// `y` on either pane of today means CopyTask.
#[verifier::spinoff_prover]
#[verifier::rlimit(100)]
proof fn lemma_shared_key_copy(pane: Pane, narrow: bool)
    ensures
        key_action_of(
            KeyCode::Char('y'),
            Modifiers { shift: false, control: false, alt: false, other: false },
            KeyContext::Home { pane, day: Shown::Today, field: None, narrow },
        ) == Some(Action::CopyTask),
{
    reveal_strlit("[");
    reveal_strlit("]");
    reveal_strlit("J");
    reveal_strlit("K");
    reveal_strlit("space");
    reveal_strlit("f");
    reveal_strlit("a");
    reveal_strlit("e");
    reveal_strlit("b");
    reveal_strlit("m");
    reveal_strlit("R");
    reveal_strlit("x");
    reveal_strlit("w");
    reveal_strlit("y");
    reveal_strlit("enter");
    reveal_strlit("h");
    reveal_strlit("l");
    reveal_strlit("tab");
    reveal_strlit("j");
    reveal_strlit("k");
    reveal_strlit("down");
    reveal_strlit("up");
    reveal_strlit("u");
    reveal_strlit("g");
    reveal_strlit("G");
    reveal_strlit("ctrl-d");
    reveal_strlit("ctrl-u");
    reveal_strlit("/");
    reveal_strlit(":");
    reveal_strlit("?");
    reveal_strlit("q");
    reveal_strlit("t");
    reveal_strlit("d");
    reveal_strlit("r");
    assert("y"@ =~= seq!['y']);
    lemma_ne("["@, seq!['y']);
    lemma_ne("]"@, seq!['y']);
    lemma_ne("J"@, seq!['y']);
    lemma_ne("K"@, seq!['y']);
    lemma_ne("space"@, seq!['y']);
    lemma_ne("f"@, seq!['y']);
    lemma_ne("a"@, seq!['y']);
    lemma_ne("e"@, seq!['y']);
    lemma_ne("b"@, seq!['y']);
    lemma_ne("m"@, seq!['y']);
    lemma_ne("R"@, seq!['y']);
    lemma_ne("x"@, seq!['y']);
    lemma_ne("w"@, seq!['y']);
    lemma_ne("enter"@, seq!['y']);
    lemma_ne("h"@, seq!['y']);
    lemma_ne("l"@, seq!['y']);
    lemma_ne("tab"@, seq!['y']);
    lemma_ne("j"@, seq!['y']);
    lemma_ne("k"@, seq!['y']);
    lemma_ne("down"@, seq!['y']);
    lemma_ne("up"@, seq!['y']);
    lemma_ne("u"@, seq!['y']);
    lemma_ne("g"@, seq!['y']);
    lemma_ne("G"@, seq!['y']);
    lemma_ne("ctrl-d"@, seq!['y']);
    lemma_ne("ctrl-u"@, seq!['y']);
    lemma_ne("/"@, seq!['y']);
    lemma_ne(":"@, seq!['y']);
    lemma_ne("?"@, seq!['y']);
    lemma_ne("q"@, seq!['y']);
    lemma_ne("t"@, seq!['y']);
    lemma_ne("d"@, seq!['y']);
    lemma_ne("r"@, seq!['y']);
    reveal_with_fuel(row_lookup, 28);
    reveal_with_fuel(lookup, 5);
    lemma_typed_on_today('y', pane, narrow);
}

/// `j` on either pane of today means Down.
#[verifier::spinoff_prover]
#[verifier::rlimit(100)]
proof fn lemma_shared_key_down(pane: Pane, narrow: bool)
    ensures
        key_action_of(
            KeyCode::Char('j'),
            Modifiers { shift: false, control: false, alt: false, other: false },
            KeyContext::Home { pane, day: Shown::Today, field: None, narrow },
        ) == Some(Action::Down),
{
    reveal_strlit("[");
    reveal_strlit("]");
    reveal_strlit("J");
    reveal_strlit("K");
    reveal_strlit("space");
    reveal_strlit("f");
    reveal_strlit("a");
    reveal_strlit("e");
    reveal_strlit("b");
    reveal_strlit("m");
    reveal_strlit("R");
    reveal_strlit("x");
    reveal_strlit("w");
    reveal_strlit("y");
    reveal_strlit("enter");
    reveal_strlit("h");
    reveal_strlit("l");
    reveal_strlit("tab");
    reveal_strlit("j");
    reveal_strlit("k");
    reveal_strlit("down");
    reveal_strlit("up");
    reveal_strlit("u");
    reveal_strlit("g");
    reveal_strlit("G");
    reveal_strlit("ctrl-d");
    reveal_strlit("ctrl-u");
    reveal_strlit("/");
    reveal_strlit(":");
    reveal_strlit("?");
    reveal_strlit("q");
    reveal_strlit("t");
    reveal_strlit("d");
    reveal_strlit("r");
    assert("j"@ =~= seq!['j']);
    lemma_ne("["@, seq!['j']);
    lemma_ne("]"@, seq!['j']);
    lemma_ne("J"@, seq!['j']);
    lemma_ne("K"@, seq!['j']);
    lemma_ne("space"@, seq!['j']);
    lemma_ne("f"@, seq!['j']);
    lemma_ne("a"@, seq!['j']);
    lemma_ne("e"@, seq!['j']);
    lemma_ne("b"@, seq!['j']);
    lemma_ne("m"@, seq!['j']);
    lemma_ne("R"@, seq!['j']);
    lemma_ne("x"@, seq!['j']);
    lemma_ne("w"@, seq!['j']);
    lemma_ne("y"@, seq!['j']);
    lemma_ne("enter"@, seq!['j']);
    lemma_ne("h"@, seq!['j']);
    lemma_ne("l"@, seq!['j']);
    lemma_ne("tab"@, seq!['j']);
    lemma_ne("k"@, seq!['j']);
    lemma_ne("down"@, seq!['j']);
    lemma_ne("up"@, seq!['j']);
    lemma_ne("u"@, seq!['j']);
    lemma_ne("g"@, seq!['j']);
    lemma_ne("G"@, seq!['j']);
    lemma_ne("ctrl-d"@, seq!['j']);
    lemma_ne("ctrl-u"@, seq!['j']);
    lemma_ne("/"@, seq!['j']);
    lemma_ne(":"@, seq!['j']);
    lemma_ne("?"@, seq!['j']);
    lemma_ne("q"@, seq!['j']);
    lemma_ne("t"@, seq!['j']);
    lemma_ne("d"@, seq!['j']);
    lemma_ne("r"@, seq!['j']);
    reveal_with_fuel(row_lookup, 28);
    reveal_with_fuel(lookup, 5);
    lemma_typed_on_today('j', pane, narrow);
}

/// `k` on either pane of today means Up.
#[verifier::spinoff_prover]
#[verifier::rlimit(100)]
proof fn lemma_shared_key_up(pane: Pane, narrow: bool)
    ensures
        key_action_of(
            KeyCode::Char('k'),
            Modifiers { shift: false, control: false, alt: false, other: false },
            KeyContext::Home { pane, day: Shown::Today, field: None, narrow },
        ) == Some(Action::Up),
{
    reveal_strlit("[");
    reveal_strlit("]");
    reveal_strlit("J");
    reveal_strlit("K");
    reveal_strlit("space");
    reveal_strlit("f");
    reveal_strlit("a");
    reveal_strlit("e");
    reveal_strlit("b");
    reveal_strlit("m");
    reveal_strlit("R");
    reveal_strlit("x");
    reveal_strlit("w");
    reveal_strlit("y");
    reveal_strlit("enter");
    reveal_strlit("h");
    reveal_strlit("l");
    reveal_strlit("tab");
    reveal_strlit("j");
    reveal_strlit("k");
    reveal_strlit("down");
    reveal_strlit("up");
    reveal_strlit("u");
    reveal_strlit("g");
    reveal_strlit("G");
    reveal_strlit("ctrl-d");
    reveal_strlit("ctrl-u");
    reveal_strlit("/");
    reveal_strlit(":");
    reveal_strlit("?");
    reveal_strlit("q");
    reveal_strlit("t");
    reveal_strlit("d");
    reveal_strlit("r");
    assert("k"@ =~= seq!['k']);
    lemma_ne("["@, seq!['k']);
    lemma_ne("]"@, seq!['k']);
    lemma_ne("J"@, seq!['k']);
    lemma_ne("K"@, seq!['k']);
    lemma_ne("space"@, seq!['k']);
    lemma_ne("f"@, seq!['k']);
    lemma_ne("a"@, seq!['k']);
    lemma_ne("e"@, seq!['k']);
    lemma_ne("b"@, seq!['k']);
    lemma_ne("m"@, seq!['k']);
    lemma_ne("R"@, seq!['k']);
    lemma_ne("x"@, seq!['k']);
    lemma_ne("w"@, seq!['k']);
    lemma_ne("y"@, seq!['k']);
    lemma_ne("enter"@, seq!['k']);
    lemma_ne("h"@, seq!['k']);
    lemma_ne("l"@, seq!['k']);
    lemma_ne("tab"@, seq!['k']);
    lemma_ne("j"@, seq!['k']);
    lemma_ne("down"@, seq!['k']);
    lemma_ne("up"@, seq!['k']);
    lemma_ne("u"@, seq!['k']);
    lemma_ne("g"@, seq!['k']);
    lemma_ne("G"@, seq!['k']);
    lemma_ne("ctrl-d"@, seq!['k']);
    lemma_ne("ctrl-u"@, seq!['k']);
    lemma_ne("/"@, seq!['k']);
    lemma_ne(":"@, seq!['k']);
    lemma_ne("?"@, seq!['k']);
    lemma_ne("q"@, seq!['k']);
    lemma_ne("t"@, seq!['k']);
    lemma_ne("d"@, seq!['k']);
    lemma_ne("r"@, seq!['k']);
    reveal_with_fuel(row_lookup, 28);
    reveal_with_fuel(lookup, 5);
    lemma_typed_on_today('k', pane, narrow);
}

/// `u` on either pane of today means Undo.
#[verifier::spinoff_prover]
#[verifier::rlimit(100)]
proof fn lemma_shared_key_undo(pane: Pane, narrow: bool)
    ensures
        key_action_of(
            KeyCode::Char('u'),
            Modifiers { shift: false, control: false, alt: false, other: false },
            KeyContext::Home { pane, day: Shown::Today, field: None, narrow },
        ) == Some(Action::Undo),
{
    reveal_strlit("[");
    reveal_strlit("]");
    reveal_strlit("J");
    reveal_strlit("K");
    reveal_strlit("space");
    reveal_strlit("f");
    reveal_strlit("a");
    reveal_strlit("e");
    reveal_strlit("b");
    reveal_strlit("m");
    reveal_strlit("R");
    reveal_strlit("x");
    reveal_strlit("w");
    reveal_strlit("y");
    reveal_strlit("enter");
    reveal_strlit("h");
    reveal_strlit("l");
    reveal_strlit("tab");
    reveal_strlit("j");
    reveal_strlit("k");
    reveal_strlit("down");
    reveal_strlit("up");
    reveal_strlit("u");
    reveal_strlit("g");
    reveal_strlit("G");
    reveal_strlit("ctrl-d");
    reveal_strlit("ctrl-u");
    reveal_strlit("/");
    reveal_strlit(":");
    reveal_strlit("?");
    reveal_strlit("q");
    reveal_strlit("t");
    reveal_strlit("d");
    reveal_strlit("r");
    assert("u"@ =~= seq!['u']);
    lemma_ne("["@, seq!['u']);
    lemma_ne("]"@, seq!['u']);
    lemma_ne("J"@, seq!['u']);
    lemma_ne("K"@, seq!['u']);
    lemma_ne("space"@, seq!['u']);
    lemma_ne("f"@, seq!['u']);
    lemma_ne("a"@, seq!['u']);
    lemma_ne("e"@, seq!['u']);
    lemma_ne("b"@, seq!['u']);
    lemma_ne("m"@, seq!['u']);
    lemma_ne("R"@, seq!['u']);
    lemma_ne("x"@, seq!['u']);
    lemma_ne("w"@, seq!['u']);
    lemma_ne("y"@, seq!['u']);
    lemma_ne("enter"@, seq!['u']);
    lemma_ne("h"@, seq!['u']);
    lemma_ne("l"@, seq!['u']);
    lemma_ne("tab"@, seq!['u']);
    lemma_ne("j"@, seq!['u']);
    lemma_ne("k"@, seq!['u']);
    lemma_ne("down"@, seq!['u']);
    lemma_ne("up"@, seq!['u']);
    lemma_ne("g"@, seq!['u']);
    lemma_ne("G"@, seq!['u']);
    lemma_ne("ctrl-d"@, seq!['u']);
    lemma_ne("ctrl-u"@, seq!['u']);
    lemma_ne("/"@, seq!['u']);
    lemma_ne(":"@, seq!['u']);
    lemma_ne("?"@, seq!['u']);
    lemma_ne("q"@, seq!['u']);
    lemma_ne("t"@, seq!['u']);
    lemma_ne("d"@, seq!['u']);
    lemma_ne("r"@, seq!['u']);
    reveal_with_fuel(row_lookup, 28);
    reveal_with_fuel(lookup, 5);
    lemma_typed_on_today('u', pane, narrow);
}

/// `g` on either pane of today means Go.
#[verifier::spinoff_prover]
#[verifier::rlimit(100)]
proof fn lemma_shared_key_go(pane: Pane, narrow: bool)
    ensures
        key_action_of(
            KeyCode::Char('g'),
            Modifiers { shift: false, control: false, alt: false, other: false },
            KeyContext::Home { pane, day: Shown::Today, field: None, narrow },
        ) == Some(Action::Go),
{
    reveal_strlit("[");
    reveal_strlit("]");
    reveal_strlit("J");
    reveal_strlit("K");
    reveal_strlit("space");
    reveal_strlit("f");
    reveal_strlit("a");
    reveal_strlit("e");
    reveal_strlit("b");
    reveal_strlit("m");
    reveal_strlit("R");
    reveal_strlit("x");
    reveal_strlit("w");
    reveal_strlit("y");
    reveal_strlit("enter");
    reveal_strlit("h");
    reveal_strlit("l");
    reveal_strlit("tab");
    reveal_strlit("j");
    reveal_strlit("k");
    reveal_strlit("down");
    reveal_strlit("up");
    reveal_strlit("u");
    reveal_strlit("g");
    reveal_strlit("G");
    reveal_strlit("ctrl-d");
    reveal_strlit("ctrl-u");
    reveal_strlit("/");
    reveal_strlit(":");
    reveal_strlit("?");
    reveal_strlit("q");
    reveal_strlit("t");
    reveal_strlit("d");
    reveal_strlit("r");
    assert("g"@ =~= seq!['g']);
    lemma_ne("["@, seq!['g']);
    lemma_ne("]"@, seq!['g']);
    lemma_ne("J"@, seq!['g']);
    lemma_ne("K"@, seq!['g']);
    lemma_ne("space"@, seq!['g']);
    lemma_ne("f"@, seq!['g']);
    lemma_ne("a"@, seq!['g']);
    lemma_ne("e"@, seq!['g']);
    lemma_ne("b"@, seq!['g']);
    lemma_ne("m"@, seq!['g']);
    lemma_ne("R"@, seq!['g']);
    lemma_ne("x"@, seq!['g']);
    lemma_ne("w"@, seq!['g']);
    lemma_ne("y"@, seq!['g']);
    lemma_ne("enter"@, seq!['g']);
    lemma_ne("h"@, seq!['g']);
    lemma_ne("l"@, seq!['g']);
    lemma_ne("tab"@, seq!['g']);
    lemma_ne("j"@, seq!['g']);
    lemma_ne("k"@, seq!['g']);
    lemma_ne("down"@, seq!['g']);
    lemma_ne("up"@, seq!['g']);
    lemma_ne("u"@, seq!['g']);
    lemma_ne("G"@, seq!['g']);
    lemma_ne("ctrl-d"@, seq!['g']);
    lemma_ne("ctrl-u"@, seq!['g']);
    lemma_ne("/"@, seq!['g']);
    lemma_ne(":"@, seq!['g']);
    lemma_ne("?"@, seq!['g']);
    lemma_ne("q"@, seq!['g']);
    lemma_ne("t"@, seq!['g']);
    lemma_ne("d"@, seq!['g']);
    lemma_ne("r"@, seq!['g']);
    reveal_with_fuel(row_lookup, 28);
    reveal_with_fuel(lookup, 5);
    lemma_typed_on_today('g', pane, narrow);
}

/// `G` on either pane of today means Last.
#[verifier::spinoff_prover]
#[verifier::rlimit(100)]
proof fn lemma_shared_key_last(pane: Pane, narrow: bool)
    ensures
        key_action_of(
            KeyCode::Char('G'),
            Modifiers { shift: false, control: false, alt: false, other: false },
            KeyContext::Home { pane, day: Shown::Today, field: None, narrow },
        ) == Some(Action::Last),
{
    reveal_strlit("[");
    reveal_strlit("]");
    reveal_strlit("J");
    reveal_strlit("K");
    reveal_strlit("space");
    reveal_strlit("f");
    reveal_strlit("a");
    reveal_strlit("e");
    reveal_strlit("b");
    reveal_strlit("m");
    reveal_strlit("R");
    reveal_strlit("x");
    reveal_strlit("w");
    reveal_strlit("y");
    reveal_strlit("enter");
    reveal_strlit("h");
    reveal_strlit("l");
    reveal_strlit("tab");
    reveal_strlit("j");
    reveal_strlit("k");
    reveal_strlit("down");
    reveal_strlit("up");
    reveal_strlit("u");
    reveal_strlit("g");
    reveal_strlit("G");
    reveal_strlit("ctrl-d");
    reveal_strlit("ctrl-u");
    reveal_strlit("/");
    reveal_strlit(":");
    reveal_strlit("?");
    reveal_strlit("q");
    reveal_strlit("t");
    reveal_strlit("d");
    reveal_strlit("r");
    assert("G"@ =~= seq!['G']);
    lemma_ne("["@, seq!['G']);
    lemma_ne("]"@, seq!['G']);
    lemma_ne("J"@, seq!['G']);
    lemma_ne("K"@, seq!['G']);
    lemma_ne("space"@, seq!['G']);
    lemma_ne("f"@, seq!['G']);
    lemma_ne("a"@, seq!['G']);
    lemma_ne("e"@, seq!['G']);
    lemma_ne("b"@, seq!['G']);
    lemma_ne("m"@, seq!['G']);
    lemma_ne("R"@, seq!['G']);
    lemma_ne("x"@, seq!['G']);
    lemma_ne("w"@, seq!['G']);
    lemma_ne("y"@, seq!['G']);
    lemma_ne("enter"@, seq!['G']);
    lemma_ne("h"@, seq!['G']);
    lemma_ne("l"@, seq!['G']);
    lemma_ne("tab"@, seq!['G']);
    lemma_ne("j"@, seq!['G']);
    lemma_ne("k"@, seq!['G']);
    lemma_ne("down"@, seq!['G']);
    lemma_ne("up"@, seq!['G']);
    lemma_ne("u"@, seq!['G']);
    lemma_ne("g"@, seq!['G']);
    lemma_ne("ctrl-d"@, seq!['G']);
    lemma_ne("ctrl-u"@, seq!['G']);
    lemma_ne("/"@, seq!['G']);
    lemma_ne(":"@, seq!['G']);
    lemma_ne("?"@, seq!['G']);
    lemma_ne("q"@, seq!['G']);
    lemma_ne("t"@, seq!['G']);
    lemma_ne("d"@, seq!['G']);
    lemma_ne("r"@, seq!['G']);
    reveal_with_fuel(row_lookup, 28);
    reveal_with_fuel(lookup, 5);
    lemma_typed_on_today('G', pane, narrow);
}

/// `/` on either pane of today means Search.
#[verifier::spinoff_prover]
#[verifier::rlimit(100)]
proof fn lemma_shared_key_search(pane: Pane, narrow: bool)
    ensures
        key_action_of(
            KeyCode::Char('/'),
            Modifiers { shift: false, control: false, alt: false, other: false },
            KeyContext::Home { pane, day: Shown::Today, field: None, narrow },
        ) == Some(Action::Search),
{
    reveal_strlit("[");
    reveal_strlit("]");
    reveal_strlit("J");
    reveal_strlit("K");
    reveal_strlit("space");
    reveal_strlit("f");
    reveal_strlit("a");
    reveal_strlit("e");
    reveal_strlit("b");
    reveal_strlit("m");
    reveal_strlit("R");
    reveal_strlit("x");
    reveal_strlit("w");
    reveal_strlit("y");
    reveal_strlit("enter");
    reveal_strlit("h");
    reveal_strlit("l");
    reveal_strlit("tab");
    reveal_strlit("j");
    reveal_strlit("k");
    reveal_strlit("down");
    reveal_strlit("up");
    reveal_strlit("u");
    reveal_strlit("g");
    reveal_strlit("G");
    reveal_strlit("ctrl-d");
    reveal_strlit("ctrl-u");
    reveal_strlit("/");
    reveal_strlit(":");
    reveal_strlit("?");
    reveal_strlit("q");
    reveal_strlit("t");
    reveal_strlit("d");
    reveal_strlit("r");
    assert("/"@ =~= seq!['/']);
    lemma_ne("["@, seq!['/']);
    lemma_ne("]"@, seq!['/']);
    lemma_ne("J"@, seq!['/']);
    lemma_ne("K"@, seq!['/']);
    lemma_ne("space"@, seq!['/']);
    lemma_ne("f"@, seq!['/']);
    lemma_ne("a"@, seq!['/']);
    lemma_ne("e"@, seq!['/']);
    lemma_ne("b"@, seq!['/']);
    lemma_ne("m"@, seq!['/']);
    lemma_ne("R"@, seq!['/']);
    lemma_ne("x"@, seq!['/']);
    lemma_ne("w"@, seq!['/']);
    lemma_ne("y"@, seq!['/']);
    lemma_ne("enter"@, seq!['/']);
    lemma_ne("h"@, seq!['/']);
    lemma_ne("l"@, seq!['/']);
    lemma_ne("tab"@, seq!['/']);
    lemma_ne("j"@, seq!['/']);
    lemma_ne("k"@, seq!['/']);
    lemma_ne("down"@, seq!['/']);
    lemma_ne("up"@, seq!['/']);
    lemma_ne("u"@, seq!['/']);
    lemma_ne("g"@, seq!['/']);
    lemma_ne("G"@, seq!['/']);
    lemma_ne("ctrl-d"@, seq!['/']);
    lemma_ne("ctrl-u"@, seq!['/']);
    lemma_ne(":"@, seq!['/']);
    lemma_ne("?"@, seq!['/']);
    lemma_ne("q"@, seq!['/']);
    lemma_ne("t"@, seq!['/']);
    lemma_ne("d"@, seq!['/']);
    lemma_ne("r"@, seq!['/']);
    reveal_with_fuel(row_lookup, 28);
    reveal_with_fuel(lookup, 5);
    lemma_typed_on_today('/', pane, narrow);
}

/// `:` on either pane of today means Commands.
#[verifier::spinoff_prover]
#[verifier::rlimit(100)]
proof fn lemma_shared_key_commands(pane: Pane, narrow: bool)
    ensures
        key_action_of(
            KeyCode::Char(':'),
            Modifiers { shift: false, control: false, alt: false, other: false },
            KeyContext::Home { pane, day: Shown::Today, field: None, narrow },
        ) == Some(Action::Commands),
{
    reveal_strlit("[");
    reveal_strlit("]");
    reveal_strlit("J");
    reveal_strlit("K");
    reveal_strlit("space");
    reveal_strlit("f");
    reveal_strlit("a");
    reveal_strlit("e");
    reveal_strlit("b");
    reveal_strlit("m");
    reveal_strlit("R");
    reveal_strlit("x");
    reveal_strlit("w");
    reveal_strlit("y");
    reveal_strlit("enter");
    reveal_strlit("h");
    reveal_strlit("l");
    reveal_strlit("tab");
    reveal_strlit("j");
    reveal_strlit("k");
    reveal_strlit("down");
    reveal_strlit("up");
    reveal_strlit("u");
    reveal_strlit("g");
    reveal_strlit("G");
    reveal_strlit("ctrl-d");
    reveal_strlit("ctrl-u");
    reveal_strlit("/");
    reveal_strlit(":");
    reveal_strlit("?");
    reveal_strlit("q");
    reveal_strlit("t");
    reveal_strlit("d");
    reveal_strlit("r");
    assert(":"@ =~= seq![':']);
    lemma_ne("["@, seq![':']);
    lemma_ne("]"@, seq![':']);
    lemma_ne("J"@, seq![':']);
    lemma_ne("K"@, seq![':']);
    lemma_ne("space"@, seq![':']);
    lemma_ne("f"@, seq![':']);
    lemma_ne("a"@, seq![':']);
    lemma_ne("e"@, seq![':']);
    lemma_ne("b"@, seq![':']);
    lemma_ne("m"@, seq![':']);
    lemma_ne("R"@, seq![':']);
    lemma_ne("x"@, seq![':']);
    lemma_ne("w"@, seq![':']);
    lemma_ne("y"@, seq![':']);
    lemma_ne("enter"@, seq![':']);
    lemma_ne("h"@, seq![':']);
    lemma_ne("l"@, seq![':']);
    lemma_ne("tab"@, seq![':']);
    lemma_ne("j"@, seq![':']);
    lemma_ne("k"@, seq![':']);
    lemma_ne("down"@, seq![':']);
    lemma_ne("up"@, seq![':']);
    lemma_ne("u"@, seq![':']);
    lemma_ne("g"@, seq![':']);
    lemma_ne("G"@, seq![':']);
    lemma_ne("ctrl-d"@, seq![':']);
    lemma_ne("ctrl-u"@, seq![':']);
    lemma_ne("/"@, seq![':']);
    lemma_ne("?"@, seq![':']);
    lemma_ne("q"@, seq![':']);
    lemma_ne("t"@, seq![':']);
    lemma_ne("d"@, seq![':']);
    lemma_ne("r"@, seq![':']);
    reveal_with_fuel(row_lookup, 28);
    reveal_with_fuel(lookup, 5);
    lemma_typed_on_today(':', pane, narrow);
}

/// `?` on either pane of today means Help.
#[verifier::spinoff_prover]
#[verifier::rlimit(100)]
proof fn lemma_shared_key_help(pane: Pane, narrow: bool)
    ensures
        key_action_of(
            KeyCode::Char('?'),
            Modifiers { shift: false, control: false, alt: false, other: false },
            KeyContext::Home { pane, day: Shown::Today, field: None, narrow },
        ) == Some(Action::Help),
{
    reveal_strlit("[");
    reveal_strlit("]");
    reveal_strlit("J");
    reveal_strlit("K");
    reveal_strlit("space");
    reveal_strlit("f");
    reveal_strlit("a");
    reveal_strlit("e");
    reveal_strlit("b");
    reveal_strlit("m");
    reveal_strlit("R");
    reveal_strlit("x");
    reveal_strlit("w");
    reveal_strlit("y");
    reveal_strlit("enter");
    reveal_strlit("h");
    reveal_strlit("l");
    reveal_strlit("tab");
    reveal_strlit("j");
    reveal_strlit("k");
    reveal_strlit("down");
    reveal_strlit("up");
    reveal_strlit("u");
    reveal_strlit("g");
    reveal_strlit("G");
    reveal_strlit("ctrl-d");
    reveal_strlit("ctrl-u");
    reveal_strlit("/");
    reveal_strlit(":");
    reveal_strlit("?");
    reveal_strlit("q");
    reveal_strlit("t");
    reveal_strlit("d");
    reveal_strlit("r");
    assert("?"@ =~= seq!['?']);
    lemma_ne("["@, seq!['?']);
    lemma_ne("]"@, seq!['?']);
    lemma_ne("J"@, seq!['?']);
    lemma_ne("K"@, seq!['?']);
    lemma_ne("space"@, seq!['?']);
    lemma_ne("f"@, seq!['?']);
    lemma_ne("a"@, seq!['?']);
    lemma_ne("e"@, seq!['?']);
    lemma_ne("b"@, seq!['?']);
    lemma_ne("m"@, seq!['?']);
    lemma_ne("R"@, seq!['?']);
    lemma_ne("x"@, seq!['?']);
    lemma_ne("w"@, seq!['?']);
    lemma_ne("y"@, seq!['?']);
    lemma_ne("enter"@, seq!['?']);
    lemma_ne("h"@, seq!['?']);
    lemma_ne("l"@, seq!['?']);
    lemma_ne("tab"@, seq!['?']);
    lemma_ne("j"@, seq!['?']);
    lemma_ne("k"@, seq!['?']);
    lemma_ne("down"@, seq!['?']);
    lemma_ne("up"@, seq!['?']);
    lemma_ne("u"@, seq!['?']);
    lemma_ne("g"@, seq!['?']);
    lemma_ne("G"@, seq!['?']);
    lemma_ne("ctrl-d"@, seq!['?']);
    lemma_ne("ctrl-u"@, seq!['?']);
    lemma_ne("/"@, seq!['?']);
    lemma_ne(":"@, seq!['?']);
    lemma_ne("q"@, seq!['?']);
    lemma_ne("t"@, seq!['?']);
    lemma_ne("d"@, seq!['?']);
    lemma_ne("r"@, seq!['?']);
    reveal_with_fuel(row_lookup, 28);
    reveal_with_fuel(lookup, 5);
    lemma_typed_on_today('?', pane, narrow);
}

/// `q` on either pane of today means Quit.
#[verifier::spinoff_prover]
#[verifier::rlimit(100)]
proof fn lemma_shared_key_quit(pane: Pane, narrow: bool)
    ensures
        key_action_of(
            KeyCode::Char('q'),
            Modifiers { shift: false, control: false, alt: false, other: false },
            KeyContext::Home { pane, day: Shown::Today, field: None, narrow },
        ) == Some(Action::Quit),
{
    reveal_strlit("[");
    reveal_strlit("]");
    reveal_strlit("J");
    reveal_strlit("K");
    reveal_strlit("space");
    reveal_strlit("f");
    reveal_strlit("a");
    reveal_strlit("e");
    reveal_strlit("b");
    reveal_strlit("m");
    reveal_strlit("R");
    reveal_strlit("x");
    reveal_strlit("w");
    reveal_strlit("y");
    reveal_strlit("enter");
    reveal_strlit("h");
    reveal_strlit("l");
    reveal_strlit("tab");
    reveal_strlit("j");
    reveal_strlit("k");
    reveal_strlit("down");
    reveal_strlit("up");
    reveal_strlit("u");
    reveal_strlit("g");
    reveal_strlit("G");
    reveal_strlit("ctrl-d");
    reveal_strlit("ctrl-u");
    reveal_strlit("/");
    reveal_strlit(":");
    reveal_strlit("?");
    reveal_strlit("q");
    reveal_strlit("t");
    reveal_strlit("d");
    reveal_strlit("r");
    assert("q"@ =~= seq!['q']);
    lemma_ne("["@, seq!['q']);
    lemma_ne("]"@, seq!['q']);
    lemma_ne("J"@, seq!['q']);
    lemma_ne("K"@, seq!['q']);
    lemma_ne("space"@, seq!['q']);
    lemma_ne("f"@, seq!['q']);
    lemma_ne("a"@, seq!['q']);
    lemma_ne("e"@, seq!['q']);
    lemma_ne("b"@, seq!['q']);
    lemma_ne("m"@, seq!['q']);
    lemma_ne("R"@, seq!['q']);
    lemma_ne("x"@, seq!['q']);
    lemma_ne("w"@, seq!['q']);
    lemma_ne("y"@, seq!['q']);
    lemma_ne("enter"@, seq!['q']);
    lemma_ne("h"@, seq!['q']);
    lemma_ne("l"@, seq!['q']);
    lemma_ne("tab"@, seq!['q']);
    lemma_ne("j"@, seq!['q']);
    lemma_ne("k"@, seq!['q']);
    lemma_ne("down"@, seq!['q']);
    lemma_ne("up"@, seq!['q']);
    lemma_ne("u"@, seq!['q']);
    lemma_ne("g"@, seq!['q']);
    lemma_ne("G"@, seq!['q']);
    lemma_ne("ctrl-d"@, seq!['q']);
    lemma_ne("ctrl-u"@, seq!['q']);
    lemma_ne("/"@, seq!['q']);
    lemma_ne(":"@, seq!['q']);
    lemma_ne("?"@, seq!['q']);
    lemma_ne("t"@, seq!['q']);
    lemma_ne("d"@, seq!['q']);
    lemma_ne("r"@, seq!['q']);
    reveal_with_fuel(row_lookup, 28);
    reveal_with_fuel(lookup, 5);
    lemma_typed_on_today('q', pane, narrow);
}

/// `J` on either pane of today means MoveDown.
#[verifier::spinoff_prover]
#[verifier::rlimit(100)]
proof fn lemma_shared_key_lower(pane: Pane, narrow: bool)
    ensures
        key_action_of(
            KeyCode::Char('J'),
            Modifiers { shift: false, control: false, alt: false, other: false },
            KeyContext::Home { pane, day: Shown::Today, field: None, narrow },
        ) == Some(Action::MoveDown),
{
    reveal_strlit("[");
    reveal_strlit("]");
    reveal_strlit("J");
    reveal_strlit("K");
    reveal_strlit("space");
    reveal_strlit("f");
    reveal_strlit("a");
    reveal_strlit("e");
    reveal_strlit("b");
    reveal_strlit("m");
    reveal_strlit("R");
    reveal_strlit("x");
    reveal_strlit("w");
    reveal_strlit("y");
    reveal_strlit("enter");
    reveal_strlit("h");
    reveal_strlit("l");
    reveal_strlit("tab");
    reveal_strlit("j");
    reveal_strlit("k");
    reveal_strlit("down");
    reveal_strlit("up");
    reveal_strlit("u");
    reveal_strlit("g");
    reveal_strlit("G");
    reveal_strlit("ctrl-d");
    reveal_strlit("ctrl-u");
    reveal_strlit("/");
    reveal_strlit(":");
    reveal_strlit("?");
    reveal_strlit("q");
    reveal_strlit("t");
    reveal_strlit("d");
    reveal_strlit("r");
    assert("J"@ =~= seq!['J']);
    lemma_ne("["@, seq!['J']);
    lemma_ne("]"@, seq!['J']);
    lemma_ne("K"@, seq!['J']);
    lemma_ne("space"@, seq!['J']);
    lemma_ne("f"@, seq!['J']);
    lemma_ne("a"@, seq!['J']);
    lemma_ne("e"@, seq!['J']);
    lemma_ne("b"@, seq!['J']);
    lemma_ne("m"@, seq!['J']);
    lemma_ne("R"@, seq!['J']);
    lemma_ne("x"@, seq!['J']);
    lemma_ne("w"@, seq!['J']);
    lemma_ne("y"@, seq!['J']);
    lemma_ne("enter"@, seq!['J']);
    lemma_ne("h"@, seq!['J']);
    lemma_ne("l"@, seq!['J']);
    lemma_ne("tab"@, seq!['J']);
    lemma_ne("j"@, seq!['J']);
    lemma_ne("k"@, seq!['J']);
    lemma_ne("down"@, seq!['J']);
    lemma_ne("up"@, seq!['J']);
    lemma_ne("u"@, seq!['J']);
    lemma_ne("g"@, seq!['J']);
    lemma_ne("G"@, seq!['J']);
    lemma_ne("ctrl-d"@, seq!['J']);
    lemma_ne("ctrl-u"@, seq!['J']);
    lemma_ne("/"@, seq!['J']);
    lemma_ne(":"@, seq!['J']);
    lemma_ne("?"@, seq!['J']);
    lemma_ne("q"@, seq!['J']);
    lemma_ne("t"@, seq!['J']);
    lemma_ne("d"@, seq!['J']);
    lemma_ne("r"@, seq!['J']);
    reveal_with_fuel(row_lookup, 28);
    reveal_with_fuel(lookup, 5);
    lemma_typed_on_today('J', pane, narrow);
}

/// `K` on either pane of today means MoveUp.
#[verifier::spinoff_prover]
#[verifier::rlimit(100)]
proof fn lemma_shared_key_raise(pane: Pane, narrow: bool)
    ensures
        key_action_of(
            KeyCode::Char('K'),
            Modifiers { shift: false, control: false, alt: false, other: false },
            KeyContext::Home { pane, day: Shown::Today, field: None, narrow },
        ) == Some(Action::MoveUp),
{
    reveal_strlit("[");
    reveal_strlit("]");
    reveal_strlit("J");
    reveal_strlit("K");
    reveal_strlit("space");
    reveal_strlit("f");
    reveal_strlit("a");
    reveal_strlit("e");
    reveal_strlit("b");
    reveal_strlit("m");
    reveal_strlit("R");
    reveal_strlit("x");
    reveal_strlit("w");
    reveal_strlit("y");
    reveal_strlit("enter");
    reveal_strlit("h");
    reveal_strlit("l");
    reveal_strlit("tab");
    reveal_strlit("j");
    reveal_strlit("k");
    reveal_strlit("down");
    reveal_strlit("up");
    reveal_strlit("u");
    reveal_strlit("g");
    reveal_strlit("G");
    reveal_strlit("ctrl-d");
    reveal_strlit("ctrl-u");
    reveal_strlit("/");
    reveal_strlit(":");
    reveal_strlit("?");
    reveal_strlit("q");
    reveal_strlit("t");
    reveal_strlit("d");
    reveal_strlit("r");
    assert("K"@ =~= seq!['K']);
    lemma_ne("["@, seq!['K']);
    lemma_ne("]"@, seq!['K']);
    lemma_ne("J"@, seq!['K']);
    lemma_ne("space"@, seq!['K']);
    lemma_ne("f"@, seq!['K']);
    lemma_ne("a"@, seq!['K']);
    lemma_ne("e"@, seq!['K']);
    lemma_ne("b"@, seq!['K']);
    lemma_ne("m"@, seq!['K']);
    lemma_ne("R"@, seq!['K']);
    lemma_ne("x"@, seq!['K']);
    lemma_ne("w"@, seq!['K']);
    lemma_ne("y"@, seq!['K']);
    lemma_ne("enter"@, seq!['K']);
    lemma_ne("h"@, seq!['K']);
    lemma_ne("l"@, seq!['K']);
    lemma_ne("tab"@, seq!['K']);
    lemma_ne("j"@, seq!['K']);
    lemma_ne("k"@, seq!['K']);
    lemma_ne("down"@, seq!['K']);
    lemma_ne("up"@, seq!['K']);
    lemma_ne("u"@, seq!['K']);
    lemma_ne("g"@, seq!['K']);
    lemma_ne("G"@, seq!['K']);
    lemma_ne("ctrl-d"@, seq!['K']);
    lemma_ne("ctrl-u"@, seq!['K']);
    lemma_ne("/"@, seq!['K']);
    lemma_ne(":"@, seq!['K']);
    lemma_ne("?"@, seq!['K']);
    lemma_ne("q"@, seq!['K']);
    lemma_ne("t"@, seq!['K']);
    lemma_ne("d"@, seq!['K']);
    lemma_ne("r"@, seq!['K']);
    reveal_with_fuel(row_lookup, 28);
    reveal_with_fuel(lookup, 5);
    lemma_typed_on_today('K', pane, narrow);
}

/// `[` on either pane of today means PrevDay.
#[verifier::spinoff_prover]
#[verifier::rlimit(100)]
proof fn lemma_shared_key_day_before(pane: Pane, narrow: bool)
    ensures
        key_action_of(
            KeyCode::Char('['),
            Modifiers { shift: false, control: false, alt: false, other: false },
            KeyContext::Home { pane, day: Shown::Today, field: None, narrow },
        ) == Some(Action::PrevDay),
{
    reveal_strlit("[");
    reveal_strlit("]");
    reveal_strlit("J");
    reveal_strlit("K");
    reveal_strlit("space");
    reveal_strlit("f");
    reveal_strlit("a");
    reveal_strlit("e");
    reveal_strlit("b");
    reveal_strlit("m");
    reveal_strlit("R");
    reveal_strlit("x");
    reveal_strlit("w");
    reveal_strlit("y");
    reveal_strlit("enter");
    reveal_strlit("h");
    reveal_strlit("l");
    reveal_strlit("tab");
    reveal_strlit("j");
    reveal_strlit("k");
    reveal_strlit("down");
    reveal_strlit("up");
    reveal_strlit("u");
    reveal_strlit("g");
    reveal_strlit("G");
    reveal_strlit("ctrl-d");
    reveal_strlit("ctrl-u");
    reveal_strlit("/");
    reveal_strlit(":");
    reveal_strlit("?");
    reveal_strlit("q");
    reveal_strlit("t");
    reveal_strlit("d");
    reveal_strlit("r");
    assert("["@ =~= seq!['[']);
    lemma_ne("]"@, seq!['[']);
    lemma_ne("J"@, seq!['[']);
    lemma_ne("K"@, seq!['[']);
    lemma_ne("space"@, seq!['[']);
    lemma_ne("f"@, seq!['[']);
    lemma_ne("a"@, seq!['[']);
    lemma_ne("e"@, seq!['[']);
    lemma_ne("b"@, seq!['[']);
    lemma_ne("m"@, seq!['[']);
    lemma_ne("R"@, seq!['[']);
    lemma_ne("x"@, seq!['[']);
    lemma_ne("w"@, seq!['[']);
    lemma_ne("y"@, seq!['[']);
    lemma_ne("enter"@, seq!['[']);
    lemma_ne("h"@, seq!['[']);
    lemma_ne("l"@, seq!['[']);
    lemma_ne("tab"@, seq!['[']);
    lemma_ne("j"@, seq!['[']);
    lemma_ne("k"@, seq!['[']);
    lemma_ne("down"@, seq!['[']);
    lemma_ne("up"@, seq!['[']);
    lemma_ne("u"@, seq!['[']);
    lemma_ne("g"@, seq!['[']);
    lemma_ne("G"@, seq!['[']);
    lemma_ne("ctrl-d"@, seq!['[']);
    lemma_ne("ctrl-u"@, seq!['[']);
    lemma_ne("/"@, seq!['[']);
    lemma_ne(":"@, seq!['[']);
    lemma_ne("?"@, seq!['[']);
    lemma_ne("q"@, seq!['[']);
    lemma_ne("t"@, seq!['[']);
    lemma_ne("d"@, seq!['[']);
    lemma_ne("r"@, seq!['[']);
    reveal_with_fuel(row_lookup, 28);
    reveal_with_fuel(lookup, 5);
    lemma_typed_on_today('[', pane, narrow);
}

/// `]` on either pane of today means NextDay.
#[verifier::spinoff_prover]
#[verifier::rlimit(100)]
proof fn lemma_shared_key_day_after(pane: Pane, narrow: bool)
    ensures
        key_action_of(
            KeyCode::Char(']'),
            Modifiers { shift: false, control: false, alt: false, other: false },
            KeyContext::Home { pane, day: Shown::Today, field: None, narrow },
        ) == Some(Action::NextDay),
{
    reveal_strlit("[");
    reveal_strlit("]");
    reveal_strlit("J");
    reveal_strlit("K");
    reveal_strlit("space");
    reveal_strlit("f");
    reveal_strlit("a");
    reveal_strlit("e");
    reveal_strlit("b");
    reveal_strlit("m");
    reveal_strlit("R");
    reveal_strlit("x");
    reveal_strlit("w");
    reveal_strlit("y");
    reveal_strlit("enter");
    reveal_strlit("h");
    reveal_strlit("l");
    reveal_strlit("tab");
    reveal_strlit("j");
    reveal_strlit("k");
    reveal_strlit("down");
    reveal_strlit("up");
    reveal_strlit("u");
    reveal_strlit("g");
    reveal_strlit("G");
    reveal_strlit("ctrl-d");
    reveal_strlit("ctrl-u");
    reveal_strlit("/");
    reveal_strlit(":");
    reveal_strlit("?");
    reveal_strlit("q");
    reveal_strlit("t");
    reveal_strlit("d");
    reveal_strlit("r");
    assert("]"@ =~= seq![']']);
    lemma_ne("["@, seq![']']);
    lemma_ne("J"@, seq![']']);
    lemma_ne("K"@, seq![']']);
    lemma_ne("space"@, seq![']']);
    lemma_ne("f"@, seq![']']);
    lemma_ne("a"@, seq![']']);
    lemma_ne("e"@, seq![']']);
    lemma_ne("b"@, seq![']']);
    lemma_ne("m"@, seq![']']);
    lemma_ne("R"@, seq![']']);
    lemma_ne("x"@, seq![']']);
    lemma_ne("w"@, seq![']']);
    lemma_ne("y"@, seq![']']);
    lemma_ne("enter"@, seq![']']);
    lemma_ne("h"@, seq![']']);
    lemma_ne("l"@, seq![']']);
    lemma_ne("tab"@, seq![']']);
    lemma_ne("j"@, seq![']']);
    lemma_ne("k"@, seq![']']);
    lemma_ne("down"@, seq![']']);
    lemma_ne("up"@, seq![']']);
    lemma_ne("u"@, seq![']']);
    lemma_ne("g"@, seq![']']);
    lemma_ne("G"@, seq![']']);
    lemma_ne("ctrl-d"@, seq![']']);
    lemma_ne("ctrl-u"@, seq![']']);
    lemma_ne("/"@, seq![']']);
    lemma_ne(":"@, seq![']']);
    lemma_ne("?"@, seq![']']);
    lemma_ne("q"@, seq![']']);
    lemma_ne("t"@, seq![']']);
    lemma_ne("d"@, seq![']']);
    lemma_ne("r"@, seq![']']);
    reveal_with_fuel(row_lookup, 28);
    reveal_with_fuel(lookup, 5);
    lemma_typed_on_today(']', pane, narrow);
}

/// On either pane of today, with no field open, in a wide window and in
/// a narrow one alike, the keys every such pane shares do the same:
/// `y` copies the task, `j` and `k` move down and up, `J` and `K`
/// reorder, `[` and `]` go to the day before and after, `u` undoes, `g`
/// goes, `G` goes to the last row, `/` searches, `:` opens the commands,
/// `?` the help, and `q` quits.
pub proof fn lemma_shared_keys(pane: Pane, narrow: bool)
    ensures
        ({
            let none = Modifiers { shift: false, control: false, alt: false, other: false };
            let here = KeyContext::Home { pane, day: Shown::Today, field: None, narrow };
            &&& key_action_of(KeyCode::Char('y'), none, here) == Some(Action::CopyTask)
            &&& key_action_of(KeyCode::Char('j'), none, here) == Some(Action::Down)
            &&& key_action_of(KeyCode::Char('k'), none, here) == Some(Action::Up)
            &&& key_action_of(KeyCode::Char('u'), none, here) == Some(Action::Undo)
            &&& key_action_of(KeyCode::Char('g'), none, here) == Some(Action::Go)
            &&& key_action_of(KeyCode::Char('G'), none, here) == Some(Action::Last)
            &&& key_action_of(KeyCode::Char('/'), none, here) == Some(Action::Search)
            &&& key_action_of(KeyCode::Char(':'), none, here) == Some(Action::Commands)
            &&& key_action_of(KeyCode::Char('?'), none, here) == Some(Action::Help)
            &&& key_action_of(KeyCode::Char('q'), none, here) == Some(Action::Quit)
            &&& key_action_of(KeyCode::Char('J'), none, here) == Some(Action::MoveDown)
            &&& key_action_of(KeyCode::Char('K'), none, here) == Some(Action::MoveUp)
            &&& key_action_of(KeyCode::Char('['), none, here) == Some(Action::PrevDay)
            &&& key_action_of(KeyCode::Char(']'), none, here) == Some(Action::NextDay)
        }),
{
    lemma_shared_key_copy(pane, narrow);
    lemma_shared_key_down(pane, narrow);
    lemma_shared_key_up(pane, narrow);
    lemma_shared_key_undo(pane, narrow);
    lemma_shared_key_go(pane, narrow);
    lemma_shared_key_last(pane, narrow);
    lemma_shared_key_search(pane, narrow);
    lemma_shared_key_commands(pane, narrow);
    lemma_shared_key_help(pane, narrow);
    lemma_shared_key_quit(pane, narrow);
    lemma_shared_key_lower(pane, narrow);
    lemma_shared_key_raise(pane, narrow);
    lemma_shared_key_day_before(pane, narrow);
    lemma_shared_key_day_after(pane, narrow);
}

} // verus!
