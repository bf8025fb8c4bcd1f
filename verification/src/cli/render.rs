//! How an answer is read out: which reading each command's answer gets.

use vstd::prelude::*;
use vstd::view::View as _;

use super::answer::{
    backlog_text, day_text, dictionary_text, history_text, note_check_text, note_copied_text, note_text,
    notes_text, order_text, preview_text, refresh_text, schedule_text, schedules_text, search_text,
    settings_text, task_list_text, task_text, tasks_text, text_or_empty, undo_text, undone_text, word_text,
    write_backlog, write_day, write_dictionary, write_history, write_note, write_note_check, write_note_copied,
    write_notes, write_order, write_preview, write_refresh, write_schedule, write_schedules, write_search,
    write_settings, write_task, write_task_list, write_tasks, write_undo, write_undone, write_word,
};
use super::json::{Json, JsonView};
use super::reading::{get, get_of, opt_text, review_text, write_review};
use super::{Failure, Operation};
use crate::domain::settings::DateOrder;
use crate::text::{chars_of, string_of};

verus! {

/// What an answer is read out as once the service has given it.
#[derive(Clone, Copy, Debug, PartialEq, Eq, Structural)]
pub enum View {
    /// Not an operation at all.
    Nothing,
    TaskList,
    /// One task, with the entry that would take the change back.
    Task,
    /// Several tasks changed at once.
    Tasks,
    /// A place in its new order.
    Order,
    Day,
    Backlog,
    History,
    Search,
    Review,
    Schedules,
    Schedule,
    Preview,
    Notes,
    Note,
    NoteCheck,
    NoteCopy,
    Settings,
    Dictionary,
    Word,
    Undo,
    Undone,
    Refresh,
}

/// The name of the operation a request asks for.
pub open spec fn op_of(operation: &Operation) -> Seq<char> {
    text_or_empty(operation.request@, "op"@)
}

impl Operation {
    /// The name of the operation the request asks for, as the service
    /// routes it.
    pub fn op(&self) -> (r: String)
        ensures
            r@ == op_of(self),
    {
        let mut out: Vec<char> = Vec::new();
        super::answer::write_text_field(&mut out, &self.request, "op");
        string_of(out.as_slice())
    }
}

/// The day the service says is today, where its answer says.
pub open spec fn envelope_today(envelope: JsonView) -> Option<Seq<char>> {
    match get_of(envelope, "context"@) {
        Some(context) => match get_of(context, "today"@) {
            Some(JsonView::Text(t)) => Some(t),
            _ => None,
        },
        None => None,
    }
}

/// The reading a view gives of an answer's data.
pub open spec fn reading_of(view: View, data: JsonView, op: Seq<char>, today: Option<Seq<char>>, order: DateOrder) -> Seq<char> {
    match view {
        View::Nothing => Seq::empty(),
        View::TaskList => task_list_text(data, today, order),
        View::Task => task_text(data, op, today, order),
        View::Tasks => tasks_text(data, op, today, order),
        View::Order => order_text(data, today, order),
        View::Day => day_text(data, today, order),
        View::Backlog => backlog_text(data, today, order),
        View::History => history_text(data, today, order),
        View::Search => search_text(data, today, order),
        View::Review => review_text(data, today, order),
        View::Schedules => schedules_text(data, today, order),
        View::Schedule => schedule_text(data, op, today, order),
        View::Preview => preview_text(data, today, order),
        View::Notes => notes_text(data, order),
        View::Note => note_text(data, op, order),
        View::NoteCheck => note_check_text(data),
        View::NoteCopy => note_copied_text(data),
        View::Settings => settings_text(data, op),
        View::Dictionary => dictionary_text(data),
        View::Word => word_text(data, op),
        View::Undo => undo_text(data),
        View::Undone => undone_text(data),
        View::Refresh => refresh_text(data, today, order),
    }
}

fn today_of(envelope: &Json) -> (r: Option<&String>)
    ensures
        opt_text(r) == envelope_today(envelope@),
{
    match get(envelope, "context") {
        Some(context) => match get(context, "today") {
            Some(Json::Text(t)) => Some(t),
            _ => None,
        },
        None => None,
    }
}

/// The answer read out: the reading the operation's view gives of the
/// envelope's data, with the day the envelope says is today; an answer
/// with no data in it is one that cannot be read.
pub fn text(operation: &Operation, envelope: &Json, dates: DateOrder) -> (r: Result<String, Failure>)
    ensures
        match get_of(envelope@, "data"@) {
            None => r matches Err(f) && f.code@ == "unreadable_response"@ && f.message@
                == "the service answered without any data in it"@ && f.exit_code == 1,
            Some(data) => r matches Ok(s) && s@ == reading_of(
                operation.view,
                data,
                op_of(operation),
                envelope_today(envelope@),
                dates,
            ),
        },
{
    let data = match get(envelope, "data") {
        Some(d) => d,
        None => {
            let message = string_of(chars_of("the service answered without any data in it").as_slice());
            return Err(Failure::runtime("unreadable_response", message));
        },
    };
    let today = today_of(envelope);
    let op = operation.op();
    let o = op.as_str();
    let mut out: Vec<char> = Vec::new();
    match operation.view {
        View::Nothing => {},
        View::TaskList => write_task_list(&mut out, data, today, dates),
        View::Task => write_task(&mut out, data, o, today, dates),
        View::Tasks => write_tasks(&mut out, data, o, today, dates),
        View::Order => write_order(&mut out, data, today, dates),
        View::Day => write_day(&mut out, data, today, dates),
        View::Backlog => write_backlog(&mut out, data, today, dates),
        View::History => write_history(&mut out, data, today, dates),
        View::Search => write_search(&mut out, data, today, dates),
        View::Review => write_review(&mut out, data, today, dates),
        View::Schedules => write_schedules(&mut out, data, today, dates),
        View::Schedule => write_schedule(&mut out, data, o, today, dates),
        View::Preview => write_preview(&mut out, data, today, dates),
        View::Notes => write_notes(&mut out, data, dates),
        View::Note => write_note(&mut out, data, o, dates),
        View::NoteCheck => write_note_check(&mut out, data),
        View::NoteCopy => write_note_copied(&mut out, data),
        View::Settings => write_settings(&mut out, data, o),
        View::Dictionary => write_dictionary(&mut out, data),
        View::Word => write_word(&mut out, data, o),
        View::Undo => write_undo(&mut out, data),
        View::Undone => write_undone(&mut out, data),
        View::Refresh => write_refresh(&mut out, data, today, dates),
    }
    assert(out@ =~= reading_of(operation.view, data@, op_of(operation), envelope_today(envelope@), dates));
    Ok(string_of(out.as_slice()))
}

} // verus!
