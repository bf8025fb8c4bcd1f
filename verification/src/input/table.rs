//! The key table: one list of rows per context, in the order of the hint
//! bar.

use vstd::prelude::*;
use crate::input::{Action, Bar, Binding, Side};

verus! {

/// The in-place field on a task row while a task is added.
pub open spec fn home_adding_rows() -> Seq<Binding> {
    seq![
        Binding { keys: &[], shown: "type", label: "the whole task", bar: Bar::Left, narrow: Bar::Off },
        Binding { keys: &[("enter", Action::Confirm)], shown: "⏎", label: "add", bar: Bar::Left, narrow: Bar::Short(Side::Left, "add") },
        Binding { keys: &[("shift-enter", Action::AddAndContinue)], shown: "shift+⏎", label: "add & keep typing", bar: Bar::Left, narrow: Bar::Short(Side::Left, "add more") },
        Binding { keys: &[("esc", Action::Cancel)], shown: "esc", label: "stop", bar: Bar::Left, narrow: Bar::Left },
    ]
}

/// The in-place field on a task row while a task is added.
pub fn home_adding() -> (rows: &'static [Binding])
    ensures
        rows@ == home_adding_rows(),
{
    &[
        Binding { keys: &[], shown: "type", label: "the whole task", bar: Bar::Left, narrow: Bar::Off },
        Binding { keys: &[("enter", Action::Confirm)], shown: "⏎", label: "add", bar: Bar::Left, narrow: Bar::Short(Side::Left, "add") },
        Binding { keys: &[("shift-enter", Action::AddAndContinue)], shown: "shift+⏎", label: "add & keep typing", bar: Bar::Left, narrow: Bar::Short(Side::Left, "add more") },
        Binding { keys: &[("esc", Action::Cancel)], shown: "esc", label: "stop", bar: Bar::Left, narrow: Bar::Left },
    ]
}

/// The in-place field on a task row while a title is rewritten.
pub open spec fn home_renaming_rows() -> Seq<Binding> {
    seq![
        Binding { keys: &[("enter", Action::Confirm)], shown: "⏎", label: "save", bar: Bar::Left, narrow: Bar::Left },
        Binding { keys: &[("esc", Action::Cancel)], shown: "esc", label: "cancel", bar: Bar::Left, narrow: Bar::Left },
    ]
}

/// The in-place field on a task row while a title is rewritten.
pub fn home_renaming() -> (rows: &'static [Binding])
    ensures
        rows@ == home_renaming_rows(),
{
    &[
        Binding { keys: &[("enter", Action::Confirm)], shown: "⏎", label: "save", bar: Bar::Left, narrow: Bar::Left },
        Binding { keys: &[("esc", Action::Cancel)], shown: "esc", label: "cancel", bar: Bar::Left, narrow: Bar::Left },
    ]
}

/// The day pane on today, both panes on screen.
pub open spec fn home_day_rows() -> Seq<Binding> {
    seq![
        Binding { keys: &[("[", Action::PrevDay), ("]", Action::NextDay)], shown: "[/]", label: "prev/next day", bar: Bar::Off, narrow: Bar::Off },
        Binding { keys: &[("J", Action::MoveDown), ("K", Action::MoveUp)], shown: "J/K", label: "reorder", bar: Bar::Left, narrow: Bar::Off },
        Binding { keys: &[("space", Action::Close)], shown: "space", label: "done", bar: Bar::Left, narrow: Bar::Left },
        Binding { keys: &[("f", Action::Focus)], shown: "f", label: "focus", bar: Bar::Left, narrow: Bar::Left },
        Binding { keys: &[("a", Action::Add)], shown: "a", label: "add", bar: Bar::Left, narrow: Bar::Left },
        Binding { keys: &[("e", Action::Edit)], shown: "e", label: "edit", bar: Bar::Left, narrow: Bar::Off },
        Binding { keys: &[("b", Action::ToBacklog)], shown: "b", label: "to backlog", bar: Bar::Left, narrow: Bar::Short(Side::Left, "backlog") },
        Binding { keys: &[("m", Action::MoveToDay)], shown: "m", label: "move to day…", bar: Bar::Left, narrow: Bar::Off },
        Binding { keys: &[("R", Action::Repeat)], shown: "R", label: "repeat", bar: Bar::Left, narrow: Bar::Off },
        Binding { keys: &[("x", Action::Delete)], shown: "x", label: "delete", bar: Bar::Left, narrow: Bar::Short(Side::Left, "del") },
        Binding { keys: &[("w", Action::Waiting)], shown: "w", label: "waiting", bar: Bar::Off, narrow: Bar::Off },
        Binding { keys: &[("y", Action::CopyTask)], shown: "y", label: "copy task", bar: Bar::Off, narrow: Bar::Off },
        Binding { keys: &[("enter", Action::Confirm)], shown: "⏎", label: "follow moved", bar: Bar::Off, narrow: Bar::Off },
        Binding { keys: &[("h", Action::PaneLeft), ("l", Action::PaneRight)], shown: "h/l", label: "pane", bar: Bar::Right, narrow: Bar::Off },
        Binding { keys: &[("j", Action::Down), ("k", Action::Up), ("down", Action::Down), ("up", Action::Up)], shown: "j/k", label: "move", bar: Bar::Off, narrow: Bar::Off },
        Binding { keys: &[("u", Action::Undo)], shown: "u", label: "undo", bar: Bar::Off, narrow: Bar::Off },
        Binding { keys: &[("g", Action::Go)], shown: "g", label: "go…", bar: Bar::Right, narrow: Bar::Off },
        Binding { keys: &[("G", Action::Last)], shown: "G", label: "last row", bar: Bar::Off, narrow: Bar::Off },
        Binding { keys: &[("ctrl-d", Action::HalfPageDown), ("ctrl-u", Action::HalfPageUp)], shown: "ctrl-d/u", label: "half a page", bar: Bar::Off, narrow: Bar::Off },
        Binding { keys: &[("/", Action::Search)], shown: "/", label: "search", bar: Bar::Off, narrow: Bar::Off },
        Binding { keys: &[(":", Action::Commands)], shown: ":", label: "commands", bar: Bar::Off, narrow: Bar::Off },
        Binding { keys: &[("?", Action::Help)], shown: "?", label: "help", bar: Bar::Off, narrow: Bar::Short(Side::Right, "more") },
        Binding { keys: &[("q", Action::Quit)], shown: "q", label: "quit", bar: Bar::Off, narrow: Bar::Off },
    ]
}

/// The day pane on today, both panes on screen.
pub fn home_day() -> (rows: &'static [Binding])
    ensures
        rows@ == home_day_rows(),
{
    &[
        Binding { keys: &[("[", Action::PrevDay), ("]", Action::NextDay)], shown: "[/]", label: "prev/next day", bar: Bar::Off, narrow: Bar::Off },
        Binding { keys: &[("J", Action::MoveDown), ("K", Action::MoveUp)], shown: "J/K", label: "reorder", bar: Bar::Left, narrow: Bar::Off },
        Binding { keys: &[("space", Action::Close)], shown: "space", label: "done", bar: Bar::Left, narrow: Bar::Left },
        Binding { keys: &[("f", Action::Focus)], shown: "f", label: "focus", bar: Bar::Left, narrow: Bar::Left },
        Binding { keys: &[("a", Action::Add)], shown: "a", label: "add", bar: Bar::Left, narrow: Bar::Left },
        Binding { keys: &[("e", Action::Edit)], shown: "e", label: "edit", bar: Bar::Left, narrow: Bar::Off },
        Binding { keys: &[("b", Action::ToBacklog)], shown: "b", label: "to backlog", bar: Bar::Left, narrow: Bar::Short(Side::Left, "backlog") },
        Binding { keys: &[("m", Action::MoveToDay)], shown: "m", label: "move to day…", bar: Bar::Left, narrow: Bar::Off },
        Binding { keys: &[("R", Action::Repeat)], shown: "R", label: "repeat", bar: Bar::Left, narrow: Bar::Off },
        Binding { keys: &[("x", Action::Delete)], shown: "x", label: "delete", bar: Bar::Left, narrow: Bar::Short(Side::Left, "del") },
        Binding { keys: &[("w", Action::Waiting)], shown: "w", label: "waiting", bar: Bar::Off, narrow: Bar::Off },
        Binding { keys: &[("y", Action::CopyTask)], shown: "y", label: "copy task", bar: Bar::Off, narrow: Bar::Off },
        Binding { keys: &[("enter", Action::Confirm)], shown: "⏎", label: "follow moved", bar: Bar::Off, narrow: Bar::Off },
        Binding { keys: &[("h", Action::PaneLeft), ("l", Action::PaneRight)], shown: "h/l", label: "pane", bar: Bar::Right, narrow: Bar::Off },
        Binding { keys: &[("j", Action::Down), ("k", Action::Up), ("down", Action::Down), ("up", Action::Up)], shown: "j/k", label: "move", bar: Bar::Off, narrow: Bar::Off },
        Binding { keys: &[("u", Action::Undo)], shown: "u", label: "undo", bar: Bar::Off, narrow: Bar::Off },
        Binding { keys: &[("g", Action::Go)], shown: "g", label: "go…", bar: Bar::Right, narrow: Bar::Off },
        Binding { keys: &[("G", Action::Last)], shown: "G", label: "last row", bar: Bar::Off, narrow: Bar::Off },
        Binding { keys: &[("ctrl-d", Action::HalfPageDown), ("ctrl-u", Action::HalfPageUp)], shown: "ctrl-d/u", label: "half a page", bar: Bar::Off, narrow: Bar::Off },
        Binding { keys: &[("/", Action::Search)], shown: "/", label: "search", bar: Bar::Off, narrow: Bar::Off },
        Binding { keys: &[(":", Action::Commands)], shown: ":", label: "commands", bar: Bar::Off, narrow: Bar::Off },
        Binding { keys: &[("?", Action::Help)], shown: "?", label: "help", bar: Bar::Off, narrow: Bar::Short(Side::Right, "more") },
        Binding { keys: &[("q", Action::Quit)], shown: "q", label: "quit", bar: Bar::Off, narrow: Bar::Off },
    ]
}

/// The day pane on today, the window collapsed to tabs.
pub open spec fn home_day_narrow_rows() -> Seq<Binding> {
    seq![
        Binding { keys: &[("[", Action::PrevDay), ("]", Action::NextDay)], shown: "[/]", label: "prev/next day", bar: Bar::Off, narrow: Bar::Off },
        Binding { keys: &[("J", Action::MoveDown), ("K", Action::MoveUp)], shown: "J/K", label: "reorder", bar: Bar::Left, narrow: Bar::Off },
        Binding { keys: &[("space", Action::Close)], shown: "space", label: "done", bar: Bar::Left, narrow: Bar::Left },
        Binding { keys: &[("f", Action::Focus)], shown: "f", label: "focus", bar: Bar::Left, narrow: Bar::Left },
        Binding { keys: &[("a", Action::Add)], shown: "a", label: "add", bar: Bar::Left, narrow: Bar::Left },
        Binding { keys: &[("e", Action::Edit)], shown: "e", label: "edit", bar: Bar::Left, narrow: Bar::Off },
        Binding { keys: &[("b", Action::ToBacklog)], shown: "b", label: "to backlog", bar: Bar::Left, narrow: Bar::Short(Side::Left, "backlog") },
        Binding { keys: &[("m", Action::MoveToDay)], shown: "m", label: "move to day…", bar: Bar::Left, narrow: Bar::Off },
        Binding { keys: &[("R", Action::Repeat)], shown: "R", label: "repeat", bar: Bar::Left, narrow: Bar::Off },
        Binding { keys: &[("x", Action::Delete)], shown: "x", label: "delete", bar: Bar::Left, narrow: Bar::Short(Side::Left, "del") },
        Binding { keys: &[("w", Action::Waiting)], shown: "w", label: "waiting", bar: Bar::Off, narrow: Bar::Off },
        Binding { keys: &[("y", Action::CopyTask)], shown: "y", label: "copy task", bar: Bar::Off, narrow: Bar::Off },
        Binding { keys: &[("enter", Action::Confirm)], shown: "⏎", label: "follow moved", bar: Bar::Off, narrow: Bar::Off },
        Binding { keys: &[("tab", Action::NextTab)], shown: "tab", label: "next tab", bar: Bar::Off, narrow: Bar::Off },
        Binding { keys: &[("j", Action::Down), ("k", Action::Up), ("down", Action::Down), ("up", Action::Up)], shown: "j/k", label: "move", bar: Bar::Off, narrow: Bar::Off },
        Binding { keys: &[("u", Action::Undo)], shown: "u", label: "undo", bar: Bar::Off, narrow: Bar::Off },
        Binding { keys: &[("g", Action::Go)], shown: "g", label: "go…", bar: Bar::Right, narrow: Bar::Off },
        Binding { keys: &[("G", Action::Last)], shown: "G", label: "last row", bar: Bar::Off, narrow: Bar::Off },
        Binding { keys: &[("ctrl-d", Action::HalfPageDown), ("ctrl-u", Action::HalfPageUp)], shown: "ctrl-d/u", label: "half a page", bar: Bar::Off, narrow: Bar::Off },
        Binding { keys: &[("/", Action::Search)], shown: "/", label: "search", bar: Bar::Off, narrow: Bar::Off },
        Binding { keys: &[(":", Action::Commands)], shown: ":", label: "commands", bar: Bar::Off, narrow: Bar::Off },
        Binding { keys: &[("?", Action::Help)], shown: "?", label: "help", bar: Bar::Off, narrow: Bar::Short(Side::Right, "more") },
        Binding { keys: &[("q", Action::Quit)], shown: "q", label: "quit", bar: Bar::Off, narrow: Bar::Off },
    ]
}

/// The day pane on today, the window collapsed to tabs.
pub fn home_day_narrow() -> (rows: &'static [Binding])
    ensures
        rows@ == home_day_narrow_rows(),
{
    &[
        Binding { keys: &[("[", Action::PrevDay), ("]", Action::NextDay)], shown: "[/]", label: "prev/next day", bar: Bar::Off, narrow: Bar::Off },
        Binding { keys: &[("J", Action::MoveDown), ("K", Action::MoveUp)], shown: "J/K", label: "reorder", bar: Bar::Left, narrow: Bar::Off },
        Binding { keys: &[("space", Action::Close)], shown: "space", label: "done", bar: Bar::Left, narrow: Bar::Left },
        Binding { keys: &[("f", Action::Focus)], shown: "f", label: "focus", bar: Bar::Left, narrow: Bar::Left },
        Binding { keys: &[("a", Action::Add)], shown: "a", label: "add", bar: Bar::Left, narrow: Bar::Left },
        Binding { keys: &[("e", Action::Edit)], shown: "e", label: "edit", bar: Bar::Left, narrow: Bar::Off },
        Binding { keys: &[("b", Action::ToBacklog)], shown: "b", label: "to backlog", bar: Bar::Left, narrow: Bar::Short(Side::Left, "backlog") },
        Binding { keys: &[("m", Action::MoveToDay)], shown: "m", label: "move to day…", bar: Bar::Left, narrow: Bar::Off },
        Binding { keys: &[("R", Action::Repeat)], shown: "R", label: "repeat", bar: Bar::Left, narrow: Bar::Off },
        Binding { keys: &[("x", Action::Delete)], shown: "x", label: "delete", bar: Bar::Left, narrow: Bar::Short(Side::Left, "del") },
        Binding { keys: &[("w", Action::Waiting)], shown: "w", label: "waiting", bar: Bar::Off, narrow: Bar::Off },
        Binding { keys: &[("y", Action::CopyTask)], shown: "y", label: "copy task", bar: Bar::Off, narrow: Bar::Off },
        Binding { keys: &[("enter", Action::Confirm)], shown: "⏎", label: "follow moved", bar: Bar::Off, narrow: Bar::Off },
        Binding { keys: &[("tab", Action::NextTab)], shown: "tab", label: "next tab", bar: Bar::Off, narrow: Bar::Off },
        Binding { keys: &[("j", Action::Down), ("k", Action::Up), ("down", Action::Down), ("up", Action::Up)], shown: "j/k", label: "move", bar: Bar::Off, narrow: Bar::Off },
        Binding { keys: &[("u", Action::Undo)], shown: "u", label: "undo", bar: Bar::Off, narrow: Bar::Off },
        Binding { keys: &[("g", Action::Go)], shown: "g", label: "go…", bar: Bar::Right, narrow: Bar::Off },
        Binding { keys: &[("G", Action::Last)], shown: "G", label: "last row", bar: Bar::Off, narrow: Bar::Off },
        Binding { keys: &[("ctrl-d", Action::HalfPageDown), ("ctrl-u", Action::HalfPageUp)], shown: "ctrl-d/u", label: "half a page", bar: Bar::Off, narrow: Bar::Off },
        Binding { keys: &[("/", Action::Search)], shown: "/", label: "search", bar: Bar::Off, narrow: Bar::Off },
        Binding { keys: &[(":", Action::Commands)], shown: ":", label: "commands", bar: Bar::Off, narrow: Bar::Off },
        Binding { keys: &[("?", Action::Help)], shown: "?", label: "help", bar: Bar::Off, narrow: Bar::Short(Side::Right, "more") },
        Binding { keys: &[("q", Action::Quit)], shown: "q", label: "quit", bar: Bar::Off, narrow: Bar::Off },
    ]
}

/// The day pane stepped to a day that is not today.
pub open spec fn home_other_day_rows() -> Seq<Binding> {
    seq![
        Binding { keys: &[("[", Action::PrevDay), ("]", Action::NextDay)], shown: "[/]", label: "prev/next day", bar: Bar::Short(Side::Left, "day"), narrow: Bar::Short(Side::Left, "day") },
        Binding { keys: &[], shown: "gt", label: "today", bar: Bar::Left, narrow: Bar::Short(Side::Left, "back") },
        Binding { keys: &[], shown: "gd", label: "go to date", bar: Bar::Left, narrow: Bar::Off },
        Binding { keys: &[("space", Action::Close)], shown: "space", label: "done", bar: Bar::Left, narrow: Bar::Left },
        Binding { keys: &[("t", Action::ToToday)], shown: "t", label: "to today", bar: Bar::Left, narrow: Bar::Short(Side::Left, "today") },
        Binding { keys: &[("b", Action::ToBacklog)], shown: "b", label: "to backlog", bar: Bar::Left, narrow: Bar::Off },
        Binding { keys: &[("m", Action::MoveToDay)], shown: "m", label: "move to day…", bar: Bar::Short(Side::Left, "move…"), narrow: Bar::Off },
        Binding { keys: &[("enter", Action::Confirm)], shown: "⏎", label: "follow moved", bar: Bar::Left, narrow: Bar::Off },
        Binding { keys: &[("a", Action::Add)], shown: "a", label: "add", bar: Bar::Off, narrow: Bar::Off },
        Binding { keys: &[("e", Action::Edit)], shown: "e", label: "edit", bar: Bar::Off, narrow: Bar::Off },
        Binding { keys: &[("x", Action::Delete)], shown: "x", label: "delete", bar: Bar::Off, narrow: Bar::Short(Side::Left, "del") },
        Binding { keys: &[("y", Action::CopyTask)], shown: "y", label: "copy task", bar: Bar::Off, narrow: Bar::Off },
        Binding { keys: &[("h", Action::PaneLeft), ("l", Action::PaneRight)], shown: "h/l", label: "pane", bar: Bar::Right, narrow: Bar::Off },
        Binding { keys: &[("j", Action::Down), ("k", Action::Up), ("down", Action::Down), ("up", Action::Up)], shown: "j/k", label: "move", bar: Bar::Off, narrow: Bar::Off },
        Binding { keys: &[("u", Action::Undo)], shown: "u", label: "undo", bar: Bar::Off, narrow: Bar::Off },
        Binding { keys: &[("g", Action::Go)], shown: "g", label: "go…", bar: Bar::Right, narrow: Bar::Off },
        Binding { keys: &[("G", Action::Last)], shown: "G", label: "last row", bar: Bar::Off, narrow: Bar::Off },
        Binding { keys: &[("ctrl-d", Action::HalfPageDown), ("ctrl-u", Action::HalfPageUp)], shown: "ctrl-d/u", label: "half a page", bar: Bar::Off, narrow: Bar::Off },
        Binding { keys: &[("/", Action::Search)], shown: "/", label: "search", bar: Bar::Off, narrow: Bar::Off },
        Binding { keys: &[(":", Action::Commands)], shown: ":", label: "commands", bar: Bar::Off, narrow: Bar::Off },
        Binding { keys: &[("?", Action::Help)], shown: "?", label: "help", bar: Bar::Off, narrow: Bar::Short(Side::Right, "more") },
        Binding { keys: &[("q", Action::Quit)], shown: "q", label: "quit", bar: Bar::Off, narrow: Bar::Off },
    ]
}

/// The day pane stepped to a day that is not today.
pub fn home_other_day() -> (rows: &'static [Binding])
    ensures
        rows@ == home_other_day_rows(),
{
    &[
        Binding { keys: &[("[", Action::PrevDay), ("]", Action::NextDay)], shown: "[/]", label: "prev/next day", bar: Bar::Short(Side::Left, "day"), narrow: Bar::Short(Side::Left, "day") },
        Binding { keys: &[], shown: "gt", label: "today", bar: Bar::Left, narrow: Bar::Short(Side::Left, "back") },
        Binding { keys: &[], shown: "gd", label: "go to date", bar: Bar::Left, narrow: Bar::Off },
        Binding { keys: &[("space", Action::Close)], shown: "space", label: "done", bar: Bar::Left, narrow: Bar::Left },
        Binding { keys: &[("t", Action::ToToday)], shown: "t", label: "to today", bar: Bar::Left, narrow: Bar::Short(Side::Left, "today") },
        Binding { keys: &[("b", Action::ToBacklog)], shown: "b", label: "to backlog", bar: Bar::Left, narrow: Bar::Off },
        Binding { keys: &[("m", Action::MoveToDay)], shown: "m", label: "move to day…", bar: Bar::Short(Side::Left, "move…"), narrow: Bar::Off },
        Binding { keys: &[("enter", Action::Confirm)], shown: "⏎", label: "follow moved", bar: Bar::Left, narrow: Bar::Off },
        Binding { keys: &[("a", Action::Add)], shown: "a", label: "add", bar: Bar::Off, narrow: Bar::Off },
        Binding { keys: &[("e", Action::Edit)], shown: "e", label: "edit", bar: Bar::Off, narrow: Bar::Off },
        Binding { keys: &[("x", Action::Delete)], shown: "x", label: "delete", bar: Bar::Off, narrow: Bar::Short(Side::Left, "del") },
        Binding { keys: &[("y", Action::CopyTask)], shown: "y", label: "copy task", bar: Bar::Off, narrow: Bar::Off },
        Binding { keys: &[("h", Action::PaneLeft), ("l", Action::PaneRight)], shown: "h/l", label: "pane", bar: Bar::Right, narrow: Bar::Off },
        Binding { keys: &[("j", Action::Down), ("k", Action::Up), ("down", Action::Down), ("up", Action::Up)], shown: "j/k", label: "move", bar: Bar::Off, narrow: Bar::Off },
        Binding { keys: &[("u", Action::Undo)], shown: "u", label: "undo", bar: Bar::Off, narrow: Bar::Off },
        Binding { keys: &[("g", Action::Go)], shown: "g", label: "go…", bar: Bar::Right, narrow: Bar::Off },
        Binding { keys: &[("G", Action::Last)], shown: "G", label: "last row", bar: Bar::Off, narrow: Bar::Off },
        Binding { keys: &[("ctrl-d", Action::HalfPageDown), ("ctrl-u", Action::HalfPageUp)], shown: "ctrl-d/u", label: "half a page", bar: Bar::Off, narrow: Bar::Off },
        Binding { keys: &[("/", Action::Search)], shown: "/", label: "search", bar: Bar::Off, narrow: Bar::Off },
        Binding { keys: &[(":", Action::Commands)], shown: ":", label: "commands", bar: Bar::Off, narrow: Bar::Off },
        Binding { keys: &[("?", Action::Help)], shown: "?", label: "help", bar: Bar::Off, narrow: Bar::Short(Side::Right, "more") },
        Binding { keys: &[("q", Action::Quit)], shown: "q", label: "quit", bar: Bar::Off, narrow: Bar::Off },
    ]
}

/// A day that is not today, the window collapsed to tabs.
pub open spec fn home_other_day_narrow_rows() -> Seq<Binding> {
    seq![
        Binding { keys: &[("[", Action::PrevDay), ("]", Action::NextDay)], shown: "[/]", label: "prev/next day", bar: Bar::Short(Side::Left, "day"), narrow: Bar::Short(Side::Left, "day") },
        Binding { keys: &[], shown: "gt", label: "today", bar: Bar::Left, narrow: Bar::Short(Side::Left, "back") },
        Binding { keys: &[], shown: "gd", label: "go to date", bar: Bar::Left, narrow: Bar::Off },
        Binding { keys: &[("space", Action::Close)], shown: "space", label: "done", bar: Bar::Left, narrow: Bar::Left },
        Binding { keys: &[("t", Action::ToToday)], shown: "t", label: "to today", bar: Bar::Left, narrow: Bar::Short(Side::Left, "today") },
        Binding { keys: &[("b", Action::ToBacklog)], shown: "b", label: "to backlog", bar: Bar::Left, narrow: Bar::Off },
        Binding { keys: &[("m", Action::MoveToDay)], shown: "m", label: "move to day…", bar: Bar::Short(Side::Left, "move…"), narrow: Bar::Off },
        Binding { keys: &[("enter", Action::Confirm)], shown: "⏎", label: "follow moved", bar: Bar::Left, narrow: Bar::Off },
        Binding { keys: &[("a", Action::Add)], shown: "a", label: "add", bar: Bar::Off, narrow: Bar::Off },
        Binding { keys: &[("e", Action::Edit)], shown: "e", label: "edit", bar: Bar::Off, narrow: Bar::Off },
        Binding { keys: &[("x", Action::Delete)], shown: "x", label: "delete", bar: Bar::Off, narrow: Bar::Short(Side::Left, "del") },
        Binding { keys: &[("y", Action::CopyTask)], shown: "y", label: "copy task", bar: Bar::Off, narrow: Bar::Off },
        Binding { keys: &[("tab", Action::NextTab)], shown: "tab", label: "next tab", bar: Bar::Off, narrow: Bar::Off },
        Binding { keys: &[("j", Action::Down), ("k", Action::Up), ("down", Action::Down), ("up", Action::Up)], shown: "j/k", label: "move", bar: Bar::Off, narrow: Bar::Off },
        Binding { keys: &[("u", Action::Undo)], shown: "u", label: "undo", bar: Bar::Off, narrow: Bar::Off },
        Binding { keys: &[("g", Action::Go)], shown: "g", label: "go…", bar: Bar::Right, narrow: Bar::Off },
        Binding { keys: &[("G", Action::Last)], shown: "G", label: "last row", bar: Bar::Off, narrow: Bar::Off },
        Binding { keys: &[("ctrl-d", Action::HalfPageDown), ("ctrl-u", Action::HalfPageUp)], shown: "ctrl-d/u", label: "half a page", bar: Bar::Off, narrow: Bar::Off },
        Binding { keys: &[("/", Action::Search)], shown: "/", label: "search", bar: Bar::Off, narrow: Bar::Off },
        Binding { keys: &[(":", Action::Commands)], shown: ":", label: "commands", bar: Bar::Off, narrow: Bar::Off },
        Binding { keys: &[("?", Action::Help)], shown: "?", label: "help", bar: Bar::Off, narrow: Bar::Short(Side::Right, "more") },
        Binding { keys: &[("q", Action::Quit)], shown: "q", label: "quit", bar: Bar::Off, narrow: Bar::Off },
    ]
}

/// A day that is not today, the window collapsed to tabs.
pub fn home_other_day_narrow() -> (rows: &'static [Binding])
    ensures
        rows@ == home_other_day_narrow_rows(),
{
    &[
        Binding { keys: &[("[", Action::PrevDay), ("]", Action::NextDay)], shown: "[/]", label: "prev/next day", bar: Bar::Short(Side::Left, "day"), narrow: Bar::Short(Side::Left, "day") },
        Binding { keys: &[], shown: "gt", label: "today", bar: Bar::Left, narrow: Bar::Short(Side::Left, "back") },
        Binding { keys: &[], shown: "gd", label: "go to date", bar: Bar::Left, narrow: Bar::Off },
        Binding { keys: &[("space", Action::Close)], shown: "space", label: "done", bar: Bar::Left, narrow: Bar::Left },
        Binding { keys: &[("t", Action::ToToday)], shown: "t", label: "to today", bar: Bar::Left, narrow: Bar::Short(Side::Left, "today") },
        Binding { keys: &[("b", Action::ToBacklog)], shown: "b", label: "to backlog", bar: Bar::Left, narrow: Bar::Off },
        Binding { keys: &[("m", Action::MoveToDay)], shown: "m", label: "move to day…", bar: Bar::Short(Side::Left, "move…"), narrow: Bar::Off },
        Binding { keys: &[("enter", Action::Confirm)], shown: "⏎", label: "follow moved", bar: Bar::Left, narrow: Bar::Off },
        Binding { keys: &[("a", Action::Add)], shown: "a", label: "add", bar: Bar::Off, narrow: Bar::Off },
        Binding { keys: &[("e", Action::Edit)], shown: "e", label: "edit", bar: Bar::Off, narrow: Bar::Off },
        Binding { keys: &[("x", Action::Delete)], shown: "x", label: "delete", bar: Bar::Off, narrow: Bar::Short(Side::Left, "del") },
        Binding { keys: &[("y", Action::CopyTask)], shown: "y", label: "copy task", bar: Bar::Off, narrow: Bar::Off },
        Binding { keys: &[("tab", Action::NextTab)], shown: "tab", label: "next tab", bar: Bar::Off, narrow: Bar::Off },
        Binding { keys: &[("j", Action::Down), ("k", Action::Up), ("down", Action::Down), ("up", Action::Up)], shown: "j/k", label: "move", bar: Bar::Off, narrow: Bar::Off },
        Binding { keys: &[("u", Action::Undo)], shown: "u", label: "undo", bar: Bar::Off, narrow: Bar::Off },
        Binding { keys: &[("g", Action::Go)], shown: "g", label: "go…", bar: Bar::Right, narrow: Bar::Off },
        Binding { keys: &[("G", Action::Last)], shown: "G", label: "last row", bar: Bar::Off, narrow: Bar::Off },
        Binding { keys: &[("ctrl-d", Action::HalfPageDown), ("ctrl-u", Action::HalfPageUp)], shown: "ctrl-d/u", label: "half a page", bar: Bar::Off, narrow: Bar::Off },
        Binding { keys: &[("/", Action::Search)], shown: "/", label: "search", bar: Bar::Off, narrow: Bar::Off },
        Binding { keys: &[(":", Action::Commands)], shown: ":", label: "commands", bar: Bar::Off, narrow: Bar::Off },
        Binding { keys: &[("?", Action::Help)], shown: "?", label: "help", bar: Bar::Off, narrow: Bar::Short(Side::Right, "more") },
        Binding { keys: &[("q", Action::Quit)], shown: "q", label: "quit", bar: Bar::Off, narrow: Bar::Off },
    ]
}

/// The backlog beside today.
pub open spec fn home_backlog_rows() -> Seq<Binding> {
    seq![
        Binding { keys: &[("[", Action::PrevDay), ("]", Action::NextDay)], shown: "[/]", label: "prev/next day", bar: Bar::Off, narrow: Bar::Off },
        Binding { keys: &[("J", Action::MoveDown), ("K", Action::MoveUp)], shown: "J/K", label: "reorder", bar: Bar::Off, narrow: Bar::Off },
        Binding { keys: &[("space", Action::Close)], shown: "space", label: "done", bar: Bar::Off, narrow: Bar::Left },
        Binding { keys: &[("t", Action::ToToday)], shown: "t", label: "to today", bar: Bar::Left, narrow: Bar::Short(Side::Left, "today") },
        Binding { keys: &[("m", Action::MoveToDay)], shown: "m", label: "move to day…", bar: Bar::Short(Side::Left, "move…"), narrow: Bar::Off },
        Binding { keys: &[("d", Action::DueBy)], shown: "d", label: "due by", bar: Bar::Left, narrow: Bar::Off },
        Binding { keys: &[("r", Action::RemindOn)], shown: "r", label: "remind on", bar: Bar::Left, narrow: Bar::Off },
        Binding { keys: &[("w", Action::Waiting)], shown: "w", label: "waiting", bar: Bar::Left, narrow: Bar::Off },
        Binding { keys: &[("R", Action::Repeat)], shown: "R", label: "repeat", bar: Bar::Left, narrow: Bar::Off },
        Binding { keys: &[("a", Action::Add)], shown: "a", label: "add", bar: Bar::Left, narrow: Bar::Left },
        Binding { keys: &[("e", Action::Edit)], shown: "e", label: "edit", bar: Bar::Left, narrow: Bar::Off },
        Binding { keys: &[("x", Action::Delete)], shown: "x", label: "delete", bar: Bar::Left, narrow: Bar::Short(Side::Left, "del") },
        Binding { keys: &[("y", Action::CopyTask)], shown: "y", label: "copy task", bar: Bar::Off, narrow: Bar::Off },
        Binding { keys: &[("h", Action::PaneLeft), ("l", Action::PaneRight)], shown: "h/l", label: "pane", bar: Bar::Right, narrow: Bar::Off },
        Binding { keys: &[("j", Action::Down), ("k", Action::Up), ("down", Action::Down), ("up", Action::Up)], shown: "j/k", label: "move", bar: Bar::Off, narrow: Bar::Off },
        Binding { keys: &[("u", Action::Undo)], shown: "u", label: "undo", bar: Bar::Off, narrow: Bar::Off },
        Binding { keys: &[("g", Action::Go)], shown: "g", label: "go…", bar: Bar::Right, narrow: Bar::Off },
        Binding { keys: &[("G", Action::Last)], shown: "G", label: "last row", bar: Bar::Off, narrow: Bar::Off },
        Binding { keys: &[("ctrl-d", Action::HalfPageDown), ("ctrl-u", Action::HalfPageUp)], shown: "ctrl-d/u", label: "half a page", bar: Bar::Off, narrow: Bar::Off },
        Binding { keys: &[("/", Action::Search)], shown: "/", label: "search", bar: Bar::Off, narrow: Bar::Off },
        Binding { keys: &[(":", Action::Commands)], shown: ":", label: "commands", bar: Bar::Off, narrow: Bar::Off },
        Binding { keys: &[("?", Action::Help)], shown: "?", label: "help", bar: Bar::Off, narrow: Bar::Short(Side::Right, "more") },
        Binding { keys: &[("q", Action::Quit)], shown: "q", label: "quit", bar: Bar::Off, narrow: Bar::Off },
    ]
}

/// The backlog beside today.
pub fn home_backlog() -> (rows: &'static [Binding])
    ensures
        rows@ == home_backlog_rows(),
{
    &[
        Binding { keys: &[("[", Action::PrevDay), ("]", Action::NextDay)], shown: "[/]", label: "prev/next day", bar: Bar::Off, narrow: Bar::Off },
        Binding { keys: &[("J", Action::MoveDown), ("K", Action::MoveUp)], shown: "J/K", label: "reorder", bar: Bar::Off, narrow: Bar::Off },
        Binding { keys: &[("space", Action::Close)], shown: "space", label: "done", bar: Bar::Off, narrow: Bar::Left },
        Binding { keys: &[("t", Action::ToToday)], shown: "t", label: "to today", bar: Bar::Left, narrow: Bar::Short(Side::Left, "today") },
        Binding { keys: &[("m", Action::MoveToDay)], shown: "m", label: "move to day…", bar: Bar::Short(Side::Left, "move…"), narrow: Bar::Off },
        Binding { keys: &[("d", Action::DueBy)], shown: "d", label: "due by", bar: Bar::Left, narrow: Bar::Off },
        Binding { keys: &[("r", Action::RemindOn)], shown: "r", label: "remind on", bar: Bar::Left, narrow: Bar::Off },
        Binding { keys: &[("w", Action::Waiting)], shown: "w", label: "waiting", bar: Bar::Left, narrow: Bar::Off },
        Binding { keys: &[("R", Action::Repeat)], shown: "R", label: "repeat", bar: Bar::Left, narrow: Bar::Off },
        Binding { keys: &[("a", Action::Add)], shown: "a", label: "add", bar: Bar::Left, narrow: Bar::Left },
        Binding { keys: &[("e", Action::Edit)], shown: "e", label: "edit", bar: Bar::Left, narrow: Bar::Off },
        Binding { keys: &[("x", Action::Delete)], shown: "x", label: "delete", bar: Bar::Left, narrow: Bar::Short(Side::Left, "del") },
        Binding { keys: &[("y", Action::CopyTask)], shown: "y", label: "copy task", bar: Bar::Off, narrow: Bar::Off },
        Binding { keys: &[("h", Action::PaneLeft), ("l", Action::PaneRight)], shown: "h/l", label: "pane", bar: Bar::Right, narrow: Bar::Off },
        Binding { keys: &[("j", Action::Down), ("k", Action::Up), ("down", Action::Down), ("up", Action::Up)], shown: "j/k", label: "move", bar: Bar::Off, narrow: Bar::Off },
        Binding { keys: &[("u", Action::Undo)], shown: "u", label: "undo", bar: Bar::Off, narrow: Bar::Off },
        Binding { keys: &[("g", Action::Go)], shown: "g", label: "go…", bar: Bar::Right, narrow: Bar::Off },
        Binding { keys: &[("G", Action::Last)], shown: "G", label: "last row", bar: Bar::Off, narrow: Bar::Off },
        Binding { keys: &[("ctrl-d", Action::HalfPageDown), ("ctrl-u", Action::HalfPageUp)], shown: "ctrl-d/u", label: "half a page", bar: Bar::Off, narrow: Bar::Off },
        Binding { keys: &[("/", Action::Search)], shown: "/", label: "search", bar: Bar::Off, narrow: Bar::Off },
        Binding { keys: &[(":", Action::Commands)], shown: ":", label: "commands", bar: Bar::Off, narrow: Bar::Off },
        Binding { keys: &[("?", Action::Help)], shown: "?", label: "help", bar: Bar::Off, narrow: Bar::Short(Side::Right, "more") },
        Binding { keys: &[("q", Action::Quit)], shown: "q", label: "quit", bar: Bar::Off, narrow: Bar::Off },
    ]
}

/// The backlog, the window collapsed to tabs.
pub open spec fn home_backlog_narrow_rows() -> Seq<Binding> {
    seq![
        Binding { keys: &[("[", Action::PrevDay), ("]", Action::NextDay)], shown: "[/]", label: "prev/next day", bar: Bar::Off, narrow: Bar::Off },
        Binding { keys: &[("J", Action::MoveDown), ("K", Action::MoveUp)], shown: "J/K", label: "reorder", bar: Bar::Off, narrow: Bar::Off },
        Binding { keys: &[("space", Action::Close)], shown: "space", label: "done", bar: Bar::Off, narrow: Bar::Left },
        Binding { keys: &[("t", Action::ToToday)], shown: "t", label: "to today", bar: Bar::Left, narrow: Bar::Short(Side::Left, "today") },
        Binding { keys: &[("m", Action::MoveToDay)], shown: "m", label: "move to day…", bar: Bar::Short(Side::Left, "move…"), narrow: Bar::Off },
        Binding { keys: &[("d", Action::DueBy)], shown: "d", label: "due by", bar: Bar::Left, narrow: Bar::Off },
        Binding { keys: &[("r", Action::RemindOn)], shown: "r", label: "remind on", bar: Bar::Left, narrow: Bar::Off },
        Binding { keys: &[("w", Action::Waiting)], shown: "w", label: "waiting", bar: Bar::Left, narrow: Bar::Off },
        Binding { keys: &[("R", Action::Repeat)], shown: "R", label: "repeat", bar: Bar::Left, narrow: Bar::Off },
        Binding { keys: &[("a", Action::Add)], shown: "a", label: "add", bar: Bar::Left, narrow: Bar::Left },
        Binding { keys: &[("e", Action::Edit)], shown: "e", label: "edit", bar: Bar::Left, narrow: Bar::Off },
        Binding { keys: &[("x", Action::Delete)], shown: "x", label: "delete", bar: Bar::Left, narrow: Bar::Short(Side::Left, "del") },
        Binding { keys: &[("y", Action::CopyTask)], shown: "y", label: "copy task", bar: Bar::Off, narrow: Bar::Off },
        Binding { keys: &[("tab", Action::NextTab)], shown: "tab", label: "next tab", bar: Bar::Off, narrow: Bar::Off },
        Binding { keys: &[("j", Action::Down), ("k", Action::Up), ("down", Action::Down), ("up", Action::Up)], shown: "j/k", label: "move", bar: Bar::Off, narrow: Bar::Off },
        Binding { keys: &[("u", Action::Undo)], shown: "u", label: "undo", bar: Bar::Off, narrow: Bar::Off },
        Binding { keys: &[("g", Action::Go)], shown: "g", label: "go…", bar: Bar::Right, narrow: Bar::Off },
        Binding { keys: &[("G", Action::Last)], shown: "G", label: "last row", bar: Bar::Off, narrow: Bar::Off },
        Binding { keys: &[("ctrl-d", Action::HalfPageDown), ("ctrl-u", Action::HalfPageUp)], shown: "ctrl-d/u", label: "half a page", bar: Bar::Off, narrow: Bar::Off },
        Binding { keys: &[("/", Action::Search)], shown: "/", label: "search", bar: Bar::Off, narrow: Bar::Off },
        Binding { keys: &[(":", Action::Commands)], shown: ":", label: "commands", bar: Bar::Off, narrow: Bar::Off },
        Binding { keys: &[("?", Action::Help)], shown: "?", label: "help", bar: Bar::Off, narrow: Bar::Short(Side::Right, "more") },
        Binding { keys: &[("q", Action::Quit)], shown: "q", label: "quit", bar: Bar::Off, narrow: Bar::Off },
    ]
}

/// The backlog, the window collapsed to tabs.
pub fn home_backlog_narrow() -> (rows: &'static [Binding])
    ensures
        rows@ == home_backlog_narrow_rows(),
{
    &[
        Binding { keys: &[("[", Action::PrevDay), ("]", Action::NextDay)], shown: "[/]", label: "prev/next day", bar: Bar::Off, narrow: Bar::Off },
        Binding { keys: &[("J", Action::MoveDown), ("K", Action::MoveUp)], shown: "J/K", label: "reorder", bar: Bar::Off, narrow: Bar::Off },
        Binding { keys: &[("space", Action::Close)], shown: "space", label: "done", bar: Bar::Off, narrow: Bar::Left },
        Binding { keys: &[("t", Action::ToToday)], shown: "t", label: "to today", bar: Bar::Left, narrow: Bar::Short(Side::Left, "today") },
        Binding { keys: &[("m", Action::MoveToDay)], shown: "m", label: "move to day…", bar: Bar::Short(Side::Left, "move…"), narrow: Bar::Off },
        Binding { keys: &[("d", Action::DueBy)], shown: "d", label: "due by", bar: Bar::Left, narrow: Bar::Off },
        Binding { keys: &[("r", Action::RemindOn)], shown: "r", label: "remind on", bar: Bar::Left, narrow: Bar::Off },
        Binding { keys: &[("w", Action::Waiting)], shown: "w", label: "waiting", bar: Bar::Left, narrow: Bar::Off },
        Binding { keys: &[("R", Action::Repeat)], shown: "R", label: "repeat", bar: Bar::Left, narrow: Bar::Off },
        Binding { keys: &[("a", Action::Add)], shown: "a", label: "add", bar: Bar::Left, narrow: Bar::Left },
        Binding { keys: &[("e", Action::Edit)], shown: "e", label: "edit", bar: Bar::Left, narrow: Bar::Off },
        Binding { keys: &[("x", Action::Delete)], shown: "x", label: "delete", bar: Bar::Left, narrow: Bar::Short(Side::Left, "del") },
        Binding { keys: &[("y", Action::CopyTask)], shown: "y", label: "copy task", bar: Bar::Off, narrow: Bar::Off },
        Binding { keys: &[("tab", Action::NextTab)], shown: "tab", label: "next tab", bar: Bar::Off, narrow: Bar::Off },
        Binding { keys: &[("j", Action::Down), ("k", Action::Up), ("down", Action::Down), ("up", Action::Up)], shown: "j/k", label: "move", bar: Bar::Off, narrow: Bar::Off },
        Binding { keys: &[("u", Action::Undo)], shown: "u", label: "undo", bar: Bar::Off, narrow: Bar::Off },
        Binding { keys: &[("g", Action::Go)], shown: "g", label: "go…", bar: Bar::Right, narrow: Bar::Off },
        Binding { keys: &[("G", Action::Last)], shown: "G", label: "last row", bar: Bar::Off, narrow: Bar::Off },
        Binding { keys: &[("ctrl-d", Action::HalfPageDown), ("ctrl-u", Action::HalfPageUp)], shown: "ctrl-d/u", label: "half a page", bar: Bar::Off, narrow: Bar::Off },
        Binding { keys: &[("/", Action::Search)], shown: "/", label: "search", bar: Bar::Off, narrow: Bar::Off },
        Binding { keys: &[(":", Action::Commands)], shown: ":", label: "commands", bar: Bar::Off, narrow: Bar::Off },
        Binding { keys: &[("?", Action::Help)], shown: "?", label: "help", bar: Bar::Off, narrow: Bar::Short(Side::Right, "more") },
        Binding { keys: &[("q", Action::Quit)], shown: "q", label: "quit", bar: Bar::Off, narrow: Bar::Off },
    ]
}

/// The list of days the backlog pane becomes while history is browsed.
pub open spec fn home_days_rows() -> Seq<Binding> {
    seq![
        Binding { keys: &[("[", Action::PrevDay), ("]", Action::NextDay)], shown: "[/]", label: "prev/next day", bar: Bar::Short(Side::Left, "day"), narrow: Bar::Short(Side::Left, "day") },
        Binding { keys: &[], shown: "gt", label: "today", bar: Bar::Left, narrow: Bar::Short(Side::Left, "back") },
        Binding { keys: &[], shown: "gd", label: "go to date", bar: Bar::Left, narrow: Bar::Off },
        Binding { keys: &[("enter", Action::Confirm)], shown: "⏎", label: "go to that day", bar: Bar::Left, narrow: Bar::Left },
        Binding { keys: &[("h", Action::PaneLeft), ("l", Action::PaneRight)], shown: "h/l", label: "pane", bar: Bar::Right, narrow: Bar::Off },
        Binding { keys: &[("j", Action::Down), ("k", Action::Up), ("down", Action::Down), ("up", Action::Up)], shown: "j/k", label: "move", bar: Bar::Off, narrow: Bar::Off },
        Binding { keys: &[("u", Action::Undo)], shown: "u", label: "undo", bar: Bar::Off, narrow: Bar::Off },
        Binding { keys: &[("g", Action::Go)], shown: "g", label: "go…", bar: Bar::Right, narrow: Bar::Off },
        Binding { keys: &[("G", Action::Last)], shown: "G", label: "last row", bar: Bar::Off, narrow: Bar::Off },
        Binding { keys: &[("ctrl-d", Action::HalfPageDown), ("ctrl-u", Action::HalfPageUp)], shown: "ctrl-d/u", label: "half a page", bar: Bar::Off, narrow: Bar::Off },
        Binding { keys: &[("/", Action::Search)], shown: "/", label: "search", bar: Bar::Off, narrow: Bar::Off },
        Binding { keys: &[(":", Action::Commands)], shown: ":", label: "commands", bar: Bar::Off, narrow: Bar::Off },
        Binding { keys: &[("?", Action::Help)], shown: "?", label: "help", bar: Bar::Off, narrow: Bar::Short(Side::Right, "more") },
        Binding { keys: &[("q", Action::Quit)], shown: "q", label: "quit", bar: Bar::Off, narrow: Bar::Off },
    ]
}

/// The list of days the backlog pane becomes while history is browsed.
pub fn home_days() -> (rows: &'static [Binding])
    ensures
        rows@ == home_days_rows(),
{
    &[
        Binding { keys: &[("[", Action::PrevDay), ("]", Action::NextDay)], shown: "[/]", label: "prev/next day", bar: Bar::Short(Side::Left, "day"), narrow: Bar::Short(Side::Left, "day") },
        Binding { keys: &[], shown: "gt", label: "today", bar: Bar::Left, narrow: Bar::Short(Side::Left, "back") },
        Binding { keys: &[], shown: "gd", label: "go to date", bar: Bar::Left, narrow: Bar::Off },
        Binding { keys: &[("enter", Action::Confirm)], shown: "⏎", label: "go to that day", bar: Bar::Left, narrow: Bar::Left },
        Binding { keys: &[("h", Action::PaneLeft), ("l", Action::PaneRight)], shown: "h/l", label: "pane", bar: Bar::Right, narrow: Bar::Off },
        Binding { keys: &[("j", Action::Down), ("k", Action::Up), ("down", Action::Down), ("up", Action::Up)], shown: "j/k", label: "move", bar: Bar::Off, narrow: Bar::Off },
        Binding { keys: &[("u", Action::Undo)], shown: "u", label: "undo", bar: Bar::Off, narrow: Bar::Off },
        Binding { keys: &[("g", Action::Go)], shown: "g", label: "go…", bar: Bar::Right, narrow: Bar::Off },
        Binding { keys: &[("G", Action::Last)], shown: "G", label: "last row", bar: Bar::Off, narrow: Bar::Off },
        Binding { keys: &[("ctrl-d", Action::HalfPageDown), ("ctrl-u", Action::HalfPageUp)], shown: "ctrl-d/u", label: "half a page", bar: Bar::Off, narrow: Bar::Off },
        Binding { keys: &[("/", Action::Search)], shown: "/", label: "search", bar: Bar::Off, narrow: Bar::Off },
        Binding { keys: &[(":", Action::Commands)], shown: ":", label: "commands", bar: Bar::Off, narrow: Bar::Off },
        Binding { keys: &[("?", Action::Help)], shown: "?", label: "help", bar: Bar::Off, narrow: Bar::Short(Side::Right, "more") },
        Binding { keys: &[("q", Action::Quit)], shown: "q", label: "quit", bar: Bar::Off, narrow: Bar::Off },
    ]
}

/// The list of days, the window collapsed to tabs.
pub open spec fn home_days_narrow_rows() -> Seq<Binding> {
    seq![
        Binding { keys: &[("[", Action::PrevDay), ("]", Action::NextDay)], shown: "[/]", label: "prev/next day", bar: Bar::Short(Side::Left, "day"), narrow: Bar::Short(Side::Left, "day") },
        Binding { keys: &[], shown: "gt", label: "today", bar: Bar::Left, narrow: Bar::Short(Side::Left, "back") },
        Binding { keys: &[], shown: "gd", label: "go to date", bar: Bar::Left, narrow: Bar::Off },
        Binding { keys: &[("enter", Action::Confirm)], shown: "⏎", label: "go to that day", bar: Bar::Left, narrow: Bar::Left },
        Binding { keys: &[("tab", Action::NextTab)], shown: "tab", label: "next tab", bar: Bar::Off, narrow: Bar::Off },
        Binding { keys: &[("j", Action::Down), ("k", Action::Up), ("down", Action::Down), ("up", Action::Up)], shown: "j/k", label: "move", bar: Bar::Off, narrow: Bar::Off },
        Binding { keys: &[("u", Action::Undo)], shown: "u", label: "undo", bar: Bar::Off, narrow: Bar::Off },
        Binding { keys: &[("g", Action::Go)], shown: "g", label: "go…", bar: Bar::Right, narrow: Bar::Off },
        Binding { keys: &[("G", Action::Last)], shown: "G", label: "last row", bar: Bar::Off, narrow: Bar::Off },
        Binding { keys: &[("ctrl-d", Action::HalfPageDown), ("ctrl-u", Action::HalfPageUp)], shown: "ctrl-d/u", label: "half a page", bar: Bar::Off, narrow: Bar::Off },
        Binding { keys: &[("/", Action::Search)], shown: "/", label: "search", bar: Bar::Off, narrow: Bar::Off },
        Binding { keys: &[(":", Action::Commands)], shown: ":", label: "commands", bar: Bar::Off, narrow: Bar::Off },
        Binding { keys: &[("?", Action::Help)], shown: "?", label: "help", bar: Bar::Off, narrow: Bar::Short(Side::Right, "more") },
        Binding { keys: &[("q", Action::Quit)], shown: "q", label: "quit", bar: Bar::Off, narrow: Bar::Off },
    ]
}

/// The list of days, the window collapsed to tabs.
pub fn home_days_narrow() -> (rows: &'static [Binding])
    ensures
        rows@ == home_days_narrow_rows(),
{
    &[
        Binding { keys: &[("[", Action::PrevDay), ("]", Action::NextDay)], shown: "[/]", label: "prev/next day", bar: Bar::Short(Side::Left, "day"), narrow: Bar::Short(Side::Left, "day") },
        Binding { keys: &[], shown: "gt", label: "today", bar: Bar::Left, narrow: Bar::Short(Side::Left, "back") },
        Binding { keys: &[], shown: "gd", label: "go to date", bar: Bar::Left, narrow: Bar::Off },
        Binding { keys: &[("enter", Action::Confirm)], shown: "⏎", label: "go to that day", bar: Bar::Left, narrow: Bar::Left },
        Binding { keys: &[("tab", Action::NextTab)], shown: "tab", label: "next tab", bar: Bar::Off, narrow: Bar::Off },
        Binding { keys: &[("j", Action::Down), ("k", Action::Up), ("down", Action::Down), ("up", Action::Up)], shown: "j/k", label: "move", bar: Bar::Off, narrow: Bar::Off },
        Binding { keys: &[("u", Action::Undo)], shown: "u", label: "undo", bar: Bar::Off, narrow: Bar::Off },
        Binding { keys: &[("g", Action::Go)], shown: "g", label: "go…", bar: Bar::Right, narrow: Bar::Off },
        Binding { keys: &[("G", Action::Last)], shown: "G", label: "last row", bar: Bar::Off, narrow: Bar::Off },
        Binding { keys: &[("ctrl-d", Action::HalfPageDown), ("ctrl-u", Action::HalfPageUp)], shown: "ctrl-d/u", label: "half a page", bar: Bar::Off, narrow: Bar::Off },
        Binding { keys: &[("/", Action::Search)], shown: "/", label: "search", bar: Bar::Off, narrow: Bar::Off },
        Binding { keys: &[(":", Action::Commands)], shown: ":", label: "commands", bar: Bar::Off, narrow: Bar::Off },
        Binding { keys: &[("?", Action::Help)], shown: "?", label: "help", bar: Bar::Off, narrow: Bar::Short(Side::Right, "more") },
        Binding { keys: &[("q", Action::Quit)], shown: "q", label: "quit", bar: Bar::Off, narrow: Bar::Off },
    ]
}

/// The list of notes.
pub open spec fn notes_list_rows() -> Seq<Binding> {
    seq![
        Binding { keys: &[("y", Action::CopyNote), ("alt-y", Action::CopyNote)], shown: "y/alt-y", label: "copy note", bar: Bar::Left, narrow: Bar::Left },
        Binding { keys: &[("enter", Action::Confirm)], shown: "⏎", label: "open", bar: Bar::Left, narrow: Bar::Left },
        Binding { keys: &[("a", Action::Add)], shown: "a", label: "add", bar: Bar::Left, narrow: Bar::Left },
        Binding { keys: &[("A", Action::Archive)], shown: "A", label: "archive note", bar: Bar::Short(Side::Left, "archive"), narrow: Bar::Off },
        Binding { keys: &[("x", Action::Delete)], shown: "x", label: "delete", bar: Bar::Left, narrow: Bar::Short(Side::Left, "del") },
        Binding { keys: &[("esc", Action::Cancel)], shown: "esc", label: "back to tasks", bar: Bar::Left, narrow: Bar::Short(Side::Left, "back") },
        Binding { keys: &[("tab", Action::NextTab)], shown: "tab", label: "archive", bar: Bar::Right, narrow: Bar::Off },
        Binding { keys: &[("h", Action::PaneLeft), ("l", Action::PaneRight)], shown: "h/l", label: "pane", bar: Bar::Right, narrow: Bar::Off },
        Binding { keys: &[("j", Action::Down), ("k", Action::Up), ("down", Action::Down), ("up", Action::Up)], shown: "j/k", label: "move", bar: Bar::Off, narrow: Bar::Off },
        Binding { keys: &[("u", Action::Undo)], shown: "u", label: "undo", bar: Bar::Off, narrow: Bar::Off },
        Binding { keys: &[("g", Action::Go)], shown: "g", label: "go…", bar: Bar::Right, narrow: Bar::Off },
        Binding { keys: &[("G", Action::Last)], shown: "G", label: "last row", bar: Bar::Off, narrow: Bar::Off },
        Binding { keys: &[("ctrl-d", Action::HalfPageDown), ("ctrl-u", Action::HalfPageUp)], shown: "ctrl-d/u", label: "half a page", bar: Bar::Off, narrow: Bar::Off },
        Binding { keys: &[("/", Action::Filter)], shown: "/", label: "filter", bar: Bar::Off, narrow: Bar::Off },
        Binding { keys: &[(":", Action::Commands)], shown: ":", label: "commands", bar: Bar::Off, narrow: Bar::Off },
        Binding { keys: &[("?", Action::Help)], shown: "?", label: "help", bar: Bar::Off, narrow: Bar::Short(Side::Right, "more") },
        Binding { keys: &[("q", Action::Quit)], shown: "q", label: "quit", bar: Bar::Off, narrow: Bar::Off },
    ]
}

/// The list of notes.
pub fn notes_list() -> (rows: &'static [Binding])
    ensures
        rows@ == notes_list_rows(),
{
    &[
        Binding { keys: &[("y", Action::CopyNote), ("alt-y", Action::CopyNote)], shown: "y/alt-y", label: "copy note", bar: Bar::Left, narrow: Bar::Left },
        Binding { keys: &[("enter", Action::Confirm)], shown: "⏎", label: "open", bar: Bar::Left, narrow: Bar::Left },
        Binding { keys: &[("a", Action::Add)], shown: "a", label: "add", bar: Bar::Left, narrow: Bar::Left },
        Binding { keys: &[("A", Action::Archive)], shown: "A", label: "archive note", bar: Bar::Short(Side::Left, "archive"), narrow: Bar::Off },
        Binding { keys: &[("x", Action::Delete)], shown: "x", label: "delete", bar: Bar::Left, narrow: Bar::Short(Side::Left, "del") },
        Binding { keys: &[("esc", Action::Cancel)], shown: "esc", label: "back to tasks", bar: Bar::Left, narrow: Bar::Short(Side::Left, "back") },
        Binding { keys: &[("tab", Action::NextTab)], shown: "tab", label: "archive", bar: Bar::Right, narrow: Bar::Off },
        Binding { keys: &[("h", Action::PaneLeft), ("l", Action::PaneRight)], shown: "h/l", label: "pane", bar: Bar::Right, narrow: Bar::Off },
        Binding { keys: &[("j", Action::Down), ("k", Action::Up), ("down", Action::Down), ("up", Action::Up)], shown: "j/k", label: "move", bar: Bar::Off, narrow: Bar::Off },
        Binding { keys: &[("u", Action::Undo)], shown: "u", label: "undo", bar: Bar::Off, narrow: Bar::Off },
        Binding { keys: &[("g", Action::Go)], shown: "g", label: "go…", bar: Bar::Right, narrow: Bar::Off },
        Binding { keys: &[("G", Action::Last)], shown: "G", label: "last row", bar: Bar::Off, narrow: Bar::Off },
        Binding { keys: &[("ctrl-d", Action::HalfPageDown), ("ctrl-u", Action::HalfPageUp)], shown: "ctrl-d/u", label: "half a page", bar: Bar::Off, narrow: Bar::Off },
        Binding { keys: &[("/", Action::Filter)], shown: "/", label: "filter", bar: Bar::Off, narrow: Bar::Off },
        Binding { keys: &[(":", Action::Commands)], shown: ":", label: "commands", bar: Bar::Off, narrow: Bar::Off },
        Binding { keys: &[("?", Action::Help)], shown: "?", label: "help", bar: Bar::Off, narrow: Bar::Short(Side::Right, "more") },
        Binding { keys: &[("q", Action::Quit)], shown: "q", label: "quit", bar: Bar::Off, narrow: Bar::Off },
    ]
}

/// The archive, both panes on screen.
pub open spec fn archive_list_rows() -> Seq<Binding> {
    seq![
        Binding { keys: &[("y", Action::CopyNote), ("alt-y", Action::CopyNote)], shown: "y/alt-y", label: "copy note", bar: Bar::Left, narrow: Bar::Left },
        Binding { keys: &[("enter", Action::Confirm)], shown: "⏎", label: "open", bar: Bar::Left, narrow: Bar::Left },
        Binding { keys: &[("a", Action::Add)], shown: "a", label: "add", bar: Bar::Left, narrow: Bar::Left },
        Binding { keys: &[("A", Action::Archive)], shown: "A", label: "unarchive note", bar: Bar::Short(Side::Left, "unarchive"), narrow: Bar::Off },
        Binding { keys: &[("x", Action::Delete)], shown: "x", label: "delete", bar: Bar::Left, narrow: Bar::Short(Side::Left, "del") },
        Binding { keys: &[("esc", Action::Cancel)], shown: "esc", label: "back to tasks", bar: Bar::Left, narrow: Bar::Short(Side::Left, "back") },
        Binding { keys: &[("tab", Action::NextTab)], shown: "tab", label: "notes", bar: Bar::Right, narrow: Bar::Off },
        Binding { keys: &[("h", Action::PaneLeft), ("l", Action::PaneRight)], shown: "h/l", label: "pane", bar: Bar::Right, narrow: Bar::Off },
        Binding { keys: &[("j", Action::Down), ("k", Action::Up), ("down", Action::Down), ("up", Action::Up)], shown: "j/k", label: "move", bar: Bar::Off, narrow: Bar::Off },
        Binding { keys: &[("u", Action::Undo)], shown: "u", label: "undo", bar: Bar::Off, narrow: Bar::Off },
        Binding { keys: &[("g", Action::Go)], shown: "g", label: "go…", bar: Bar::Right, narrow: Bar::Off },
        Binding { keys: &[("G", Action::Last)], shown: "G", label: "last row", bar: Bar::Off, narrow: Bar::Off },
        Binding { keys: &[("ctrl-d", Action::HalfPageDown), ("ctrl-u", Action::HalfPageUp)], shown: "ctrl-d/u", label: "half a page", bar: Bar::Off, narrow: Bar::Off },
        Binding { keys: &[("/", Action::Filter)], shown: "/", label: "filter", bar: Bar::Off, narrow: Bar::Off },
        Binding { keys: &[(":", Action::Commands)], shown: ":", label: "commands", bar: Bar::Off, narrow: Bar::Off },
        Binding { keys: &[("?", Action::Help)], shown: "?", label: "help", bar: Bar::Off, narrow: Bar::Short(Side::Right, "more") },
        Binding { keys: &[("q", Action::Quit)], shown: "q", label: "quit", bar: Bar::Off, narrow: Bar::Off },
    ]
}

/// The archive, both panes on screen.
pub fn archive_list() -> (rows: &'static [Binding])
    ensures
        rows@ == archive_list_rows(),
{
    &[
        Binding { keys: &[("y", Action::CopyNote), ("alt-y", Action::CopyNote)], shown: "y/alt-y", label: "copy note", bar: Bar::Left, narrow: Bar::Left },
        Binding { keys: &[("enter", Action::Confirm)], shown: "⏎", label: "open", bar: Bar::Left, narrow: Bar::Left },
        Binding { keys: &[("a", Action::Add)], shown: "a", label: "add", bar: Bar::Left, narrow: Bar::Left },
        Binding { keys: &[("A", Action::Archive)], shown: "A", label: "unarchive note", bar: Bar::Short(Side::Left, "unarchive"), narrow: Bar::Off },
        Binding { keys: &[("x", Action::Delete)], shown: "x", label: "delete", bar: Bar::Left, narrow: Bar::Short(Side::Left, "del") },
        Binding { keys: &[("esc", Action::Cancel)], shown: "esc", label: "back to tasks", bar: Bar::Left, narrow: Bar::Short(Side::Left, "back") },
        Binding { keys: &[("tab", Action::NextTab)], shown: "tab", label: "notes", bar: Bar::Right, narrow: Bar::Off },
        Binding { keys: &[("h", Action::PaneLeft), ("l", Action::PaneRight)], shown: "h/l", label: "pane", bar: Bar::Right, narrow: Bar::Off },
        Binding { keys: &[("j", Action::Down), ("k", Action::Up), ("down", Action::Down), ("up", Action::Up)], shown: "j/k", label: "move", bar: Bar::Off, narrow: Bar::Off },
        Binding { keys: &[("u", Action::Undo)], shown: "u", label: "undo", bar: Bar::Off, narrow: Bar::Off },
        Binding { keys: &[("g", Action::Go)], shown: "g", label: "go…", bar: Bar::Right, narrow: Bar::Off },
        Binding { keys: &[("G", Action::Last)], shown: "G", label: "last row", bar: Bar::Off, narrow: Bar::Off },
        Binding { keys: &[("ctrl-d", Action::HalfPageDown), ("ctrl-u", Action::HalfPageUp)], shown: "ctrl-d/u", label: "half a page", bar: Bar::Off, narrow: Bar::Off },
        Binding { keys: &[("/", Action::Filter)], shown: "/", label: "filter", bar: Bar::Off, narrow: Bar::Off },
        Binding { keys: &[(":", Action::Commands)], shown: ":", label: "commands", bar: Bar::Off, narrow: Bar::Off },
        Binding { keys: &[("?", Action::Help)], shown: "?", label: "help", bar: Bar::Off, narrow: Bar::Short(Side::Right, "more") },
        Binding { keys: &[("q", Action::Quit)], shown: "q", label: "quit", bar: Bar::Off, narrow: Bar::Off },
    ]
}

/// The archive, the window collapsed to tabs.
pub open spec fn archive_list_narrow_rows() -> Seq<Binding> {
    seq![
        Binding { keys: &[("y", Action::CopyNote), ("alt-y", Action::CopyNote)], shown: "y/alt-y", label: "copy note", bar: Bar::Left, narrow: Bar::Left },
        Binding { keys: &[("enter", Action::Confirm)], shown: "⏎", label: "open", bar: Bar::Left, narrow: Bar::Left },
        Binding { keys: &[("a", Action::Add)], shown: "a", label: "add", bar: Bar::Left, narrow: Bar::Left },
        Binding { keys: &[("A", Action::Archive)], shown: "A", label: "unarchive note", bar: Bar::Short(Side::Left, "unarchive"), narrow: Bar::Off },
        Binding { keys: &[("x", Action::Delete)], shown: "x", label: "delete", bar: Bar::Left, narrow: Bar::Short(Side::Left, "del") },
        Binding { keys: &[("esc", Action::Cancel)], shown: "esc", label: "back to tasks", bar: Bar::Left, narrow: Bar::Short(Side::Left, "back") },
        Binding { keys: &[("tab", Action::NextTab)], shown: "tab", label: "next tab", bar: Bar::Off, narrow: Bar::Off },
        Binding { keys: &[("h", Action::PaneLeft), ("l", Action::PaneRight)], shown: "h/l", label: "pane", bar: Bar::Right, narrow: Bar::Off },
        Binding { keys: &[("j", Action::Down), ("k", Action::Up), ("down", Action::Down), ("up", Action::Up)], shown: "j/k", label: "move", bar: Bar::Off, narrow: Bar::Off },
        Binding { keys: &[("u", Action::Undo)], shown: "u", label: "undo", bar: Bar::Off, narrow: Bar::Off },
        Binding { keys: &[("g", Action::Go)], shown: "g", label: "go…", bar: Bar::Right, narrow: Bar::Off },
        Binding { keys: &[("G", Action::Last)], shown: "G", label: "last row", bar: Bar::Off, narrow: Bar::Off },
        Binding { keys: &[("ctrl-d", Action::HalfPageDown), ("ctrl-u", Action::HalfPageUp)], shown: "ctrl-d/u", label: "half a page", bar: Bar::Off, narrow: Bar::Off },
        Binding { keys: &[("/", Action::Filter)], shown: "/", label: "filter", bar: Bar::Off, narrow: Bar::Off },
        Binding { keys: &[(":", Action::Commands)], shown: ":", label: "commands", bar: Bar::Off, narrow: Bar::Off },
        Binding { keys: &[("?", Action::Help)], shown: "?", label: "help", bar: Bar::Off, narrow: Bar::Short(Side::Right, "more") },
        Binding { keys: &[("q", Action::Quit)], shown: "q", label: "quit", bar: Bar::Off, narrow: Bar::Off },
    ]
}

/// The archive, the window collapsed to tabs.
pub fn archive_list_narrow() -> (rows: &'static [Binding])
    ensures
        rows@ == archive_list_narrow_rows(),
{
    &[
        Binding { keys: &[("y", Action::CopyNote), ("alt-y", Action::CopyNote)], shown: "y/alt-y", label: "copy note", bar: Bar::Left, narrow: Bar::Left },
        Binding { keys: &[("enter", Action::Confirm)], shown: "⏎", label: "open", bar: Bar::Left, narrow: Bar::Left },
        Binding { keys: &[("a", Action::Add)], shown: "a", label: "add", bar: Bar::Left, narrow: Bar::Left },
        Binding { keys: &[("A", Action::Archive)], shown: "A", label: "unarchive note", bar: Bar::Short(Side::Left, "unarchive"), narrow: Bar::Off },
        Binding { keys: &[("x", Action::Delete)], shown: "x", label: "delete", bar: Bar::Left, narrow: Bar::Short(Side::Left, "del") },
        Binding { keys: &[("esc", Action::Cancel)], shown: "esc", label: "back to tasks", bar: Bar::Left, narrow: Bar::Short(Side::Left, "back") },
        Binding { keys: &[("tab", Action::NextTab)], shown: "tab", label: "next tab", bar: Bar::Off, narrow: Bar::Off },
        Binding { keys: &[("h", Action::PaneLeft), ("l", Action::PaneRight)], shown: "h/l", label: "pane", bar: Bar::Right, narrow: Bar::Off },
        Binding { keys: &[("j", Action::Down), ("k", Action::Up), ("down", Action::Down), ("up", Action::Up)], shown: "j/k", label: "move", bar: Bar::Off, narrow: Bar::Off },
        Binding { keys: &[("u", Action::Undo)], shown: "u", label: "undo", bar: Bar::Off, narrow: Bar::Off },
        Binding { keys: &[("g", Action::Go)], shown: "g", label: "go…", bar: Bar::Right, narrow: Bar::Off },
        Binding { keys: &[("G", Action::Last)], shown: "G", label: "last row", bar: Bar::Off, narrow: Bar::Off },
        Binding { keys: &[("ctrl-d", Action::HalfPageDown), ("ctrl-u", Action::HalfPageUp)], shown: "ctrl-d/u", label: "half a page", bar: Bar::Off, narrow: Bar::Off },
        Binding { keys: &[("/", Action::Filter)], shown: "/", label: "filter", bar: Bar::Off, narrow: Bar::Off },
        Binding { keys: &[(":", Action::Commands)], shown: ":", label: "commands", bar: Bar::Off, narrow: Bar::Off },
        Binding { keys: &[("?", Action::Help)], shown: "?", label: "help", bar: Bar::Off, narrow: Bar::Short(Side::Right, "more") },
        Binding { keys: &[("q", Action::Quit)], shown: "q", label: "quit", bar: Bar::Off, narrow: Bar::Off },
    ]
}

/// The note open beside the list.
pub open spec fn notes_note_rows() -> Seq<Binding> {
    seq![
        Binding { keys: &[("esc", Action::Cancel)], shown: "esc", label: "back to the list", bar: Bar::Left, narrow: Bar::Short(Side::Left, "back") },
        Binding { keys: &[("ctrl-z", Action::UndoText)], shown: "ctrl-z", label: "undo edit", bar: Bar::Left, narrow: Bar::Left },
        Binding { keys: &[("ctrl-y", Action::RedoText)], shown: "ctrl-y", label: "redo edit", bar: Bar::Left, narrow: Bar::Off },
        Binding { keys: &[("alt-h", Action::Help)], shown: "alt-h", label: "help", bar: Bar::Off, narrow: Bar::Off },
        Binding { keys: &[("alt-y", Action::CopyNote)], shown: "alt-y", label: "copy note", bar: Bar::Left, narrow: Bar::Left },
        Binding { keys: &[("alt-s", Action::FixSpelling)], shown: "alt-s", label: "fix spelling…", bar: Bar::Left, narrow: Bar::Short(Side::Left, "spelling") },
        Binding { keys: &[], shown: "type", label: "to edit", bar: Bar::Left, narrow: Bar::Left },
        Binding { keys: &[("enter", Action::Insert('\n'))], shown: "⏎", label: "new line", bar: Bar::Off, narrow: Bar::Off },
        Binding { keys: &[("up", Action::Up), ("down", Action::Down)], shown: "↑/↓", label: "move", bar: Bar::Off, narrow: Bar::Off },
    ]
}

/// The note open beside the list.
pub fn notes_note() -> (rows: &'static [Binding])
    ensures
        rows@ == notes_note_rows(),
{
    &[
        Binding { keys: &[("esc", Action::Cancel)], shown: "esc", label: "back to the list", bar: Bar::Left, narrow: Bar::Short(Side::Left, "back") },
        Binding { keys: &[("ctrl-z", Action::UndoText)], shown: "ctrl-z", label: "undo edit", bar: Bar::Left, narrow: Bar::Left },
        Binding { keys: &[("ctrl-y", Action::RedoText)], shown: "ctrl-y", label: "redo edit", bar: Bar::Left, narrow: Bar::Off },
        Binding { keys: &[("alt-h", Action::Help)], shown: "alt-h", label: "help", bar: Bar::Off, narrow: Bar::Off },
        Binding { keys: &[("alt-y", Action::CopyNote)], shown: "alt-y", label: "copy note", bar: Bar::Left, narrow: Bar::Left },
        Binding { keys: &[("alt-s", Action::FixSpelling)], shown: "alt-s", label: "fix spelling…", bar: Bar::Left, narrow: Bar::Short(Side::Left, "spelling") },
        Binding { keys: &[], shown: "type", label: "to edit", bar: Bar::Left, narrow: Bar::Left },
        Binding { keys: &[("enter", Action::Insert('\n'))], shown: "⏎", label: "new line", bar: Bar::Off, narrow: Bar::Off },
        Binding { keys: &[("up", Action::Up), ("down", Action::Down)], shown: "↑/↓", label: "move", bar: Bar::Off, narrow: Bar::Off },
    ]
}

/// The filter typed at the top of the notes list.
pub open spec fn notes_filter_rows() -> Seq<Binding> {
    seq![
        Binding { keys: &[], shown: "type", label: "to filter", bar: Bar::Left, narrow: Bar::Left },
        Binding { keys: &[("up", Action::Up), ("down", Action::Down)], shown: "↑/↓", label: "move", bar: Bar::Left, narrow: Bar::Off },
        Binding { keys: &[("enter", Action::Confirm)], shown: "⏎", label: "open", bar: Bar::Left, narrow: Bar::Left },
        Binding { keys: &[("tab", Action::NextPane)], shown: "tab", label: "to the list", bar: Bar::Left, narrow: Bar::Short(Side::Left, "list") },
        Binding { keys: &[("esc", Action::Cancel)], shown: "esc", label: "clear", bar: Bar::Left, narrow: Bar::Left },
    ]
}

/// The filter typed at the top of the notes list.
pub fn notes_filter() -> (rows: &'static [Binding])
    ensures
        rows@ == notes_filter_rows(),
{
    &[
        Binding { keys: &[], shown: "type", label: "to filter", bar: Bar::Left, narrow: Bar::Left },
        Binding { keys: &[("up", Action::Up), ("down", Action::Down)], shown: "↑/↓", label: "move", bar: Bar::Left, narrow: Bar::Off },
        Binding { keys: &[("enter", Action::Confirm)], shown: "⏎", label: "open", bar: Bar::Left, narrow: Bar::Left },
        Binding { keys: &[("tab", Action::NextPane)], shown: "tab", label: "to the list", bar: Bar::Left, narrow: Bar::Short(Side::Left, "list") },
        Binding { keys: &[("esc", Action::Cancel)], shown: "esc", label: "clear", bar: Bar::Left, narrow: Bar::Left },
    ]
}

/// A step of the review that asks nothing.
pub open spec fn review_information_rows() -> Seq<Binding> {
    seq![
        Binding { keys: &[("enter", Action::Confirm)], shown: "⏎", label: "start the day", bar: Bar::Right, narrow: Bar::Right },
        Binding { keys: &[("esc", Action::Cancel)], shown: "esc", label: "skip", bar: Bar::Short(Side::Right, "skip"), narrow: Bar::Short(Side::Right, "skip") },
        Binding { keys: &[("j", Action::Down), ("k", Action::Up), ("down", Action::Down), ("up", Action::Up)], shown: "j/k ↑/↓", label: "move", bar: Bar::Off, narrow: Bar::Off },
        Binding { keys: &[("g", Action::Go)], shown: "g", label: "go…", bar: Bar::Off, narrow: Bar::Off },
        Binding { keys: &[("G", Action::Last)], shown: "G", label: "last row", bar: Bar::Off, narrow: Bar::Off },
        Binding { keys: &[("ctrl-d", Action::HalfPageDown), ("ctrl-u", Action::HalfPageUp)], shown: "ctrl-d/u", label: "half a page", bar: Bar::Off, narrow: Bar::Off },
        Binding { keys: &[("/", Action::Search)], shown: "/", label: "search", bar: Bar::Off, narrow: Bar::Off },
        Binding { keys: &[(":", Action::Commands)], shown: ":", label: "commands", bar: Bar::Off, narrow: Bar::Off },
        Binding { keys: &[("?", Action::Help)], shown: "?", label: "help", bar: Bar::Off, narrow: Bar::Off },
        Binding { keys: &[("q", Action::Quit)], shown: "q", label: "quit", bar: Bar::Off, narrow: Bar::Off },
    ]
}

/// A step of the review that asks nothing.
pub fn review_information() -> (rows: &'static [Binding])
    ensures
        rows@ == review_information_rows(),
{
    &[
        Binding { keys: &[("enter", Action::Confirm)], shown: "⏎", label: "start the day", bar: Bar::Right, narrow: Bar::Right },
        Binding { keys: &[("esc", Action::Cancel)], shown: "esc", label: "skip", bar: Bar::Short(Side::Right, "skip"), narrow: Bar::Short(Side::Right, "skip") },
        Binding { keys: &[("j", Action::Down), ("k", Action::Up), ("down", Action::Down), ("up", Action::Up)], shown: "j/k ↑/↓", label: "move", bar: Bar::Off, narrow: Bar::Off },
        Binding { keys: &[("g", Action::Go)], shown: "g", label: "go…", bar: Bar::Off, narrow: Bar::Off },
        Binding { keys: &[("G", Action::Last)], shown: "G", label: "last row", bar: Bar::Off, narrow: Bar::Off },
        Binding { keys: &[("ctrl-d", Action::HalfPageDown), ("ctrl-u", Action::HalfPageUp)], shown: "ctrl-d/u", label: "half a page", bar: Bar::Off, narrow: Bar::Off },
        Binding { keys: &[("/", Action::Search)], shown: "/", label: "search", bar: Bar::Off, narrow: Bar::Off },
        Binding { keys: &[(":", Action::Commands)], shown: ":", label: "commands", bar: Bar::Off, narrow: Bar::Off },
        Binding { keys: &[("?", Action::Help)], shown: "?", label: "help", bar: Bar::Off, narrow: Bar::Off },
        Binding { keys: &[("q", Action::Quit)], shown: "q", label: "quit", bar: Bar::Off, narrow: Bar::Off },
    ]
}

/// The pile, while a step is still to come.
pub open spec fn review_pile_rows() -> Seq<Binding> {
    seq![
        Binding { keys: &[("space", Action::Close)], shown: "space", label: "done", bar: Bar::Left, narrow: Bar::Left },
        Binding { keys: &[("t", Action::ToToday)], shown: "t", label: "to today", bar: Bar::Short(Side::Left, "today"), narrow: Bar::Short(Side::Left, "today") },
        Binding { keys: &[("b", Action::ToBacklog)], shown: "b", label: "to backlog", bar: Bar::Short(Side::Left, "backlog"), narrow: Bar::Short(Side::Left, "backlog") },
        Binding { keys: &[("m", Action::MoveToDay)], shown: "m", label: "move to day…", bar: Bar::Short(Side::Left, "move…"), narrow: Bar::Off },
        Binding { keys: &[("x", Action::Delete)], shown: "x", label: "delete", bar: Bar::Left, narrow: Bar::Short(Side::Left, "del") },
        Binding { keys: &[("u", Action::Undo)], shown: "u", label: "undo", bar: Bar::Left, narrow: Bar::Off },
        Binding { keys: &[("e", Action::Edit)], shown: "e", label: "edit", bar: Bar::Left, narrow: Bar::Off },
        Binding { keys: &[("enter", Action::Confirm)], shown: "⏎", label: "next step", bar: Bar::Right, narrow: Bar::Right },
        Binding { keys: &[("esc", Action::Cancel)], shown: "esc", label: "skip for now", bar: Bar::Short(Side::Right, "skip"), narrow: Bar::Short(Side::Right, "skip") },
        Binding { keys: &[("j", Action::Down), ("k", Action::Up), ("down", Action::Down), ("up", Action::Up)], shown: "j/k ↑/↓", label: "move", bar: Bar::Off, narrow: Bar::Off },
        Binding { keys: &[("g", Action::Go)], shown: "g", label: "go…", bar: Bar::Off, narrow: Bar::Off },
        Binding { keys: &[("G", Action::Last)], shown: "G", label: "last row", bar: Bar::Off, narrow: Bar::Off },
        Binding { keys: &[("ctrl-d", Action::HalfPageDown), ("ctrl-u", Action::HalfPageUp)], shown: "ctrl-d/u", label: "half a page", bar: Bar::Off, narrow: Bar::Off },
        Binding { keys: &[("/", Action::Search)], shown: "/", label: "search", bar: Bar::Off, narrow: Bar::Off },
        Binding { keys: &[(":", Action::Commands)], shown: ":", label: "commands", bar: Bar::Off, narrow: Bar::Off },
        Binding { keys: &[("?", Action::Help)], shown: "?", label: "help", bar: Bar::Off, narrow: Bar::Off },
        Binding { keys: &[("q", Action::Quit)], shown: "q", label: "quit", bar: Bar::Off, narrow: Bar::Off },
    ]
}

/// The pile, while a step is still to come.
pub fn review_pile() -> (rows: &'static [Binding])
    ensures
        rows@ == review_pile_rows(),
{
    &[
        Binding { keys: &[("space", Action::Close)], shown: "space", label: "done", bar: Bar::Left, narrow: Bar::Left },
        Binding { keys: &[("t", Action::ToToday)], shown: "t", label: "to today", bar: Bar::Short(Side::Left, "today"), narrow: Bar::Short(Side::Left, "today") },
        Binding { keys: &[("b", Action::ToBacklog)], shown: "b", label: "to backlog", bar: Bar::Short(Side::Left, "backlog"), narrow: Bar::Short(Side::Left, "backlog") },
        Binding { keys: &[("m", Action::MoveToDay)], shown: "m", label: "move to day…", bar: Bar::Short(Side::Left, "move…"), narrow: Bar::Off },
        Binding { keys: &[("x", Action::Delete)], shown: "x", label: "delete", bar: Bar::Left, narrow: Bar::Short(Side::Left, "del") },
        Binding { keys: &[("u", Action::Undo)], shown: "u", label: "undo", bar: Bar::Left, narrow: Bar::Off },
        Binding { keys: &[("e", Action::Edit)], shown: "e", label: "edit", bar: Bar::Left, narrow: Bar::Off },
        Binding { keys: &[("enter", Action::Confirm)], shown: "⏎", label: "next step", bar: Bar::Right, narrow: Bar::Right },
        Binding { keys: &[("esc", Action::Cancel)], shown: "esc", label: "skip for now", bar: Bar::Short(Side::Right, "skip"), narrow: Bar::Short(Side::Right, "skip") },
        Binding { keys: &[("j", Action::Down), ("k", Action::Up), ("down", Action::Down), ("up", Action::Up)], shown: "j/k ↑/↓", label: "move", bar: Bar::Off, narrow: Bar::Off },
        Binding { keys: &[("g", Action::Go)], shown: "g", label: "go…", bar: Bar::Off, narrow: Bar::Off },
        Binding { keys: &[("G", Action::Last)], shown: "G", label: "last row", bar: Bar::Off, narrow: Bar::Off },
        Binding { keys: &[("ctrl-d", Action::HalfPageDown), ("ctrl-u", Action::HalfPageUp)], shown: "ctrl-d/u", label: "half a page", bar: Bar::Off, narrow: Bar::Off },
        Binding { keys: &[("/", Action::Search)], shown: "/", label: "search", bar: Bar::Off, narrow: Bar::Off },
        Binding { keys: &[(":", Action::Commands)], shown: ":", label: "commands", bar: Bar::Off, narrow: Bar::Off },
        Binding { keys: &[("?", Action::Help)], shown: "?", label: "help", bar: Bar::Off, narrow: Bar::Off },
        Binding { keys: &[("q", Action::Quit)], shown: "q", label: "quit", bar: Bar::Off, narrow: Bar::Off },
    ]
}

/// The pile as the last step with something in it.
pub open spec fn review_pile_last_rows() -> Seq<Binding> {
    seq![
        Binding { keys: &[("space", Action::Close)], shown: "space", label: "done", bar: Bar::Left, narrow: Bar::Left },
        Binding { keys: &[("t", Action::ToToday)], shown: "t", label: "to today", bar: Bar::Short(Side::Left, "today"), narrow: Bar::Short(Side::Left, "today") },
        Binding { keys: &[("b", Action::ToBacklog)], shown: "b", label: "to backlog", bar: Bar::Short(Side::Left, "backlog"), narrow: Bar::Short(Side::Left, "backlog") },
        Binding { keys: &[("m", Action::MoveToDay)], shown: "m", label: "move to day…", bar: Bar::Short(Side::Left, "move…"), narrow: Bar::Off },
        Binding { keys: &[("x", Action::Delete)], shown: "x", label: "delete", bar: Bar::Left, narrow: Bar::Short(Side::Left, "del") },
        Binding { keys: &[("u", Action::Undo)], shown: "u", label: "undo", bar: Bar::Left, narrow: Bar::Off },
        Binding { keys: &[("e", Action::Edit)], shown: "e", label: "edit", bar: Bar::Left, narrow: Bar::Off },
        Binding { keys: &[("enter", Action::Confirm)], shown: "⏎", label: "start the day", bar: Bar::Right, narrow: Bar::Right },
        Binding { keys: &[("esc", Action::Cancel)], shown: "esc", label: "skip for now", bar: Bar::Short(Side::Right, "skip"), narrow: Bar::Short(Side::Right, "skip") },
        Binding { keys: &[("j", Action::Down), ("k", Action::Up), ("down", Action::Down), ("up", Action::Up)], shown: "j/k ↑/↓", label: "move", bar: Bar::Off, narrow: Bar::Off },
        Binding { keys: &[("g", Action::Go)], shown: "g", label: "go…", bar: Bar::Off, narrow: Bar::Off },
        Binding { keys: &[("G", Action::Last)], shown: "G", label: "last row", bar: Bar::Off, narrow: Bar::Off },
        Binding { keys: &[("ctrl-d", Action::HalfPageDown), ("ctrl-u", Action::HalfPageUp)], shown: "ctrl-d/u", label: "half a page", bar: Bar::Off, narrow: Bar::Off },
        Binding { keys: &[("/", Action::Search)], shown: "/", label: "search", bar: Bar::Off, narrow: Bar::Off },
        Binding { keys: &[(":", Action::Commands)], shown: ":", label: "commands", bar: Bar::Off, narrow: Bar::Off },
        Binding { keys: &[("?", Action::Help)], shown: "?", label: "help", bar: Bar::Off, narrow: Bar::Off },
        Binding { keys: &[("q", Action::Quit)], shown: "q", label: "quit", bar: Bar::Off, narrow: Bar::Off },
    ]
}

/// The pile as the last step with something in it.
pub fn review_pile_last() -> (rows: &'static [Binding])
    ensures
        rows@ == review_pile_last_rows(),
{
    &[
        Binding { keys: &[("space", Action::Close)], shown: "space", label: "done", bar: Bar::Left, narrow: Bar::Left },
        Binding { keys: &[("t", Action::ToToday)], shown: "t", label: "to today", bar: Bar::Short(Side::Left, "today"), narrow: Bar::Short(Side::Left, "today") },
        Binding { keys: &[("b", Action::ToBacklog)], shown: "b", label: "to backlog", bar: Bar::Short(Side::Left, "backlog"), narrow: Bar::Short(Side::Left, "backlog") },
        Binding { keys: &[("m", Action::MoveToDay)], shown: "m", label: "move to day…", bar: Bar::Short(Side::Left, "move…"), narrow: Bar::Off },
        Binding { keys: &[("x", Action::Delete)], shown: "x", label: "delete", bar: Bar::Left, narrow: Bar::Short(Side::Left, "del") },
        Binding { keys: &[("u", Action::Undo)], shown: "u", label: "undo", bar: Bar::Left, narrow: Bar::Off },
        Binding { keys: &[("e", Action::Edit)], shown: "e", label: "edit", bar: Bar::Left, narrow: Bar::Off },
        Binding { keys: &[("enter", Action::Confirm)], shown: "⏎", label: "start the day", bar: Bar::Right, narrow: Bar::Right },
        Binding { keys: &[("esc", Action::Cancel)], shown: "esc", label: "skip for now", bar: Bar::Short(Side::Right, "skip"), narrow: Bar::Short(Side::Right, "skip") },
        Binding { keys: &[("j", Action::Down), ("k", Action::Up), ("down", Action::Down), ("up", Action::Up)], shown: "j/k ↑/↓", label: "move", bar: Bar::Off, narrow: Bar::Off },
        Binding { keys: &[("g", Action::Go)], shown: "g", label: "go…", bar: Bar::Off, narrow: Bar::Off },
        Binding { keys: &[("G", Action::Last)], shown: "G", label: "last row", bar: Bar::Off, narrow: Bar::Off },
        Binding { keys: &[("ctrl-d", Action::HalfPageDown), ("ctrl-u", Action::HalfPageUp)], shown: "ctrl-d/u", label: "half a page", bar: Bar::Off, narrow: Bar::Off },
        Binding { keys: &[("/", Action::Search)], shown: "/", label: "search", bar: Bar::Off, narrow: Bar::Off },
        Binding { keys: &[(":", Action::Commands)], shown: ":", label: "commands", bar: Bar::Off, narrow: Bar::Off },
        Binding { keys: &[("?", Action::Help)], shown: "?", label: "help", bar: Bar::Off, narrow: Bar::Off },
        Binding { keys: &[("q", Action::Quit)], shown: "q", label: "quit", bar: Bar::Off, narrow: Bar::Off },
    ]
}

/// The surfaced tasks of the review.
pub open spec fn review_surfaced_rows() -> Seq<Binding> {
    seq![
        Binding { keys: &[("t", Action::ToToday)], shown: "t", label: "to today", bar: Bar::Short(Side::Left, "today"), narrow: Bar::Short(Side::Left, "today") },
        Binding { keys: &[("s", Action::Keep)], shown: "s", label: "leave in backlog", bar: Bar::Left, narrow: Bar::Left },
        Binding { keys: &[("d", Action::DueBy)], shown: "d", label: "due by", bar: Bar::Short(Side::Left, "due…"), narrow: Bar::Off },
        Binding { keys: &[("r", Action::RemindOn)], shown: "r", label: "remind on", bar: Bar::Short(Side::Left, "remind…"), narrow: Bar::Off },
        Binding { keys: &[("w", Action::Waiting)], shown: "w", label: "waiting", bar: Bar::Left, narrow: Bar::Off },
        Binding { keys: &[("space", Action::Close)], shown: "space", label: "done", bar: Bar::Left, narrow: Bar::Left },
        Binding { keys: &[("u", Action::Undo)], shown: "u", label: "undo", bar: Bar::Off, narrow: Bar::Off },
        Binding { keys: &[("enter", Action::Confirm)], shown: "⏎", label: "start the day", bar: Bar::Right, narrow: Bar::Right },
        Binding { keys: &[("esc", Action::Cancel)], shown: "esc", label: "skip for now", bar: Bar::Short(Side::Right, "skip"), narrow: Bar::Short(Side::Right, "skip") },
        Binding { keys: &[("j", Action::Down), ("k", Action::Up), ("down", Action::Down), ("up", Action::Up)], shown: "j/k ↑/↓", label: "move", bar: Bar::Off, narrow: Bar::Off },
        Binding { keys: &[("g", Action::Go)], shown: "g", label: "go…", bar: Bar::Off, narrow: Bar::Off },
        Binding { keys: &[("G", Action::Last)], shown: "G", label: "last row", bar: Bar::Off, narrow: Bar::Off },
        Binding { keys: &[("ctrl-d", Action::HalfPageDown), ("ctrl-u", Action::HalfPageUp)], shown: "ctrl-d/u", label: "half a page", bar: Bar::Off, narrow: Bar::Off },
        Binding { keys: &[("/", Action::Search)], shown: "/", label: "search", bar: Bar::Off, narrow: Bar::Off },
        Binding { keys: &[(":", Action::Commands)], shown: ":", label: "commands", bar: Bar::Off, narrow: Bar::Off },
        Binding { keys: &[("?", Action::Help)], shown: "?", label: "help", bar: Bar::Off, narrow: Bar::Off },
        Binding { keys: &[("q", Action::Quit)], shown: "q", label: "quit", bar: Bar::Off, narrow: Bar::Off },
    ]
}

/// The surfaced tasks of the review.
pub fn review_surfaced() -> (rows: &'static [Binding])
    ensures
        rows@ == review_surfaced_rows(),
{
    &[
        Binding { keys: &[("t", Action::ToToday)], shown: "t", label: "to today", bar: Bar::Short(Side::Left, "today"), narrow: Bar::Short(Side::Left, "today") },
        Binding { keys: &[("s", Action::Keep)], shown: "s", label: "leave in backlog", bar: Bar::Left, narrow: Bar::Left },
        Binding { keys: &[("d", Action::DueBy)], shown: "d", label: "due by", bar: Bar::Short(Side::Left, "due…"), narrow: Bar::Off },
        Binding { keys: &[("r", Action::RemindOn)], shown: "r", label: "remind on", bar: Bar::Short(Side::Left, "remind…"), narrow: Bar::Off },
        Binding { keys: &[("w", Action::Waiting)], shown: "w", label: "waiting", bar: Bar::Left, narrow: Bar::Off },
        Binding { keys: &[("space", Action::Close)], shown: "space", label: "done", bar: Bar::Left, narrow: Bar::Left },
        Binding { keys: &[("u", Action::Undo)], shown: "u", label: "undo", bar: Bar::Off, narrow: Bar::Off },
        Binding { keys: &[("enter", Action::Confirm)], shown: "⏎", label: "start the day", bar: Bar::Right, narrow: Bar::Right },
        Binding { keys: &[("esc", Action::Cancel)], shown: "esc", label: "skip for now", bar: Bar::Short(Side::Right, "skip"), narrow: Bar::Short(Side::Right, "skip") },
        Binding { keys: &[("j", Action::Down), ("k", Action::Up), ("down", Action::Down), ("up", Action::Up)], shown: "j/k ↑/↓", label: "move", bar: Bar::Off, narrow: Bar::Off },
        Binding { keys: &[("g", Action::Go)], shown: "g", label: "go…", bar: Bar::Off, narrow: Bar::Off },
        Binding { keys: &[("G", Action::Last)], shown: "G", label: "last row", bar: Bar::Off, narrow: Bar::Off },
        Binding { keys: &[("ctrl-d", Action::HalfPageDown), ("ctrl-u", Action::HalfPageUp)], shown: "ctrl-d/u", label: "half a page", bar: Bar::Off, narrow: Bar::Off },
        Binding { keys: &[("/", Action::Search)], shown: "/", label: "search", bar: Bar::Off, narrow: Bar::Off },
        Binding { keys: &[(":", Action::Commands)], shown: ":", label: "commands", bar: Bar::Off, narrow: Bar::Off },
        Binding { keys: &[("?", Action::Help)], shown: "?", label: "help", bar: Bar::Off, narrow: Bar::Off },
        Binding { keys: &[("q", Action::Quit)], shown: "q", label: "quit", bar: Bar::Off, narrow: Bar::Off },
    ]
}

/// The command palette.
pub open spec fn palette_box_rows() -> Seq<Binding> {
    seq![
        Binding { keys: &[], shown: "type", label: "to filter", bar: Bar::Left, narrow: Bar::Left },
        Binding { keys: &[("up", Action::Up), ("down", Action::Down)], shown: "↑/↓", label: "move", bar: Bar::Left, narrow: Bar::Left },
        Binding { keys: &[("enter", Action::Confirm)], shown: "⏎", label: "run", bar: Bar::Off, narrow: Bar::Off },
        Binding { keys: &[("ctrl-d", Action::HalfPageDown), ("ctrl-u", Action::HalfPageUp)], shown: "ctrl-d/u", label: "half a page", bar: Bar::Off, narrow: Bar::Off },
        Binding { keys: &[("esc", Action::Cancel)], shown: "esc", label: "close", bar: Bar::Off, narrow: Bar::Off },
    ]
}

/// The command palette.
pub fn palette_box() -> (rows: &'static [Binding])
    ensures
        rows@ == palette_box_rows(),
{
    &[
        Binding { keys: &[], shown: "type", label: "to filter", bar: Bar::Left, narrow: Bar::Left },
        Binding { keys: &[("up", Action::Up), ("down", Action::Down)], shown: "↑/↓", label: "move", bar: Bar::Left, narrow: Bar::Left },
        Binding { keys: &[("enter", Action::Confirm)], shown: "⏎", label: "run", bar: Bar::Off, narrow: Bar::Off },
        Binding { keys: &[("ctrl-d", Action::HalfPageDown), ("ctrl-u", Action::HalfPageUp)], shown: "ctrl-d/u", label: "half a page", bar: Bar::Off, narrow: Bar::Off },
        Binding { keys: &[("esc", Action::Cancel)], shown: "esc", label: "close", bar: Bar::Off, narrow: Bar::Off },
    ]
}

/// The search box.
pub open spec fn search_box_rows() -> Seq<Binding> {
    seq![
        Binding { keys: &[], shown: "type", label: "to filter", bar: Bar::Left, narrow: Bar::Left },
        Binding { keys: &[("up", Action::Up), ("down", Action::Down)], shown: "↑/↓", label: "move", bar: Bar::Left, narrow: Bar::Left },
        Binding { keys: &[("enter", Action::Confirm)], shown: "⏎", label: "go to that day", bar: Bar::Off, narrow: Bar::Off },
        Binding { keys: &[("alt-t", Action::ToToday)], shown: "alt-t", label: "re-add to today as a new task", bar: Bar::Off, narrow: Bar::Off },
        Binding { keys: &[("ctrl-d", Action::HalfPageDown), ("ctrl-u", Action::HalfPageUp)], shown: "ctrl-d/u", label: "half a page", bar: Bar::Off, narrow: Bar::Off },
        Binding { keys: &[("esc", Action::Cancel)], shown: "esc", label: "close", bar: Bar::Off, narrow: Bar::Off },
    ]
}

/// The search box.
pub fn search_box() -> (rows: &'static [Binding])
    ensures
        rows@ == search_box_rows(),
{
    &[
        Binding { keys: &[], shown: "type", label: "to filter", bar: Bar::Left, narrow: Bar::Left },
        Binding { keys: &[("up", Action::Up), ("down", Action::Down)], shown: "↑/↓", label: "move", bar: Bar::Left, narrow: Bar::Left },
        Binding { keys: &[("enter", Action::Confirm)], shown: "⏎", label: "go to that day", bar: Bar::Off, narrow: Bar::Off },
        Binding { keys: &[("alt-t", Action::ToToday)], shown: "alt-t", label: "re-add to today as a new task", bar: Bar::Off, narrow: Bar::Off },
        Binding { keys: &[("ctrl-d", Action::HalfPageDown), ("ctrl-u", Action::HalfPageUp)], shown: "ctrl-d/u", label: "half a page", bar: Bar::Off, narrow: Bar::Off },
        Binding { keys: &[("esc", Action::Cancel)], shown: "esc", label: "close", bar: Bar::Off, narrow: Bar::Off },
    ]
}

/// The help overlay.
pub open spec fn help_overlay_rows() -> Seq<Binding> {
    seq![
        Binding { keys: &[("?", Action::Cancel), ("esc", Action::Cancel)], shown: "? or esc", label: "close", bar: Bar::Left, narrow: Bar::Left },
        Binding { keys: &[("j", Action::Down), ("k", Action::Up), ("down", Action::Down), ("up", Action::Up)], shown: "↑/↓", label: "scroll", bar: Bar::Left, narrow: Bar::Left },
        Binding { keys: &[("tab", Action::NextPane)], shown: "tab", label: "current/all keys", bar: Bar::Left, narrow: Bar::Left },
        Binding { keys: &[("g", Action::Go)], shown: "g", label: "go…", bar: Bar::Off, narrow: Bar::Off },
        Binding { keys: &[("G", Action::Last)], shown: "G", label: "last row", bar: Bar::Off, narrow: Bar::Off },
        Binding { keys: &[("ctrl-d", Action::HalfPageDown), ("ctrl-u", Action::HalfPageUp)], shown: "ctrl-d/u", label: "half a page", bar: Bar::Off, narrow: Bar::Off },
    ]
}

/// The help overlay.
pub fn help_overlay() -> (rows: &'static [Binding])
    ensures
        rows@ == help_overlay_rows(),
{
    &[
        Binding { keys: &[("?", Action::Cancel), ("esc", Action::Cancel)], shown: "? or esc", label: "close", bar: Bar::Left, narrow: Bar::Left },
        Binding { keys: &[("j", Action::Down), ("k", Action::Up), ("down", Action::Down), ("up", Action::Up)], shown: "↑/↓", label: "scroll", bar: Bar::Left, narrow: Bar::Left },
        Binding { keys: &[("tab", Action::NextPane)], shown: "tab", label: "current/all keys", bar: Bar::Left, narrow: Bar::Left },
        Binding { keys: &[("g", Action::Go)], shown: "g", label: "go…", bar: Bar::Off, narrow: Bar::Off },
        Binding { keys: &[("G", Action::Last)], shown: "G", label: "last row", bar: Bar::Off, narrow: Bar::Off },
        Binding { keys: &[("ctrl-d", Action::HalfPageDown), ("ctrl-u", Action::HalfPageUp)], shown: "ctrl-d/u", label: "half a page", bar: Bar::Off, narrow: Bar::Off },
    ]
}

/// The move card: the day a task is sent to.
pub open spec fn move_card_rows() -> Seq<Binding> {
    seq![
        Binding { keys: &[("t", Action::ToToday)], shown: "t", label: "Today", bar: Bar::Off, narrow: Bar::Off },
        Binding { keys: &[("1", Action::Tomorrow)], shown: "1", label: "Tomorrow", bar: Bar::Off, narrow: Bar::Off },
        Binding { keys: &[("2", Action::NextWorkDay)], shown: "2", label: "Next work day", bar: Bar::Off, narrow: Bar::Off },
        Binding { keys: &[("w", Action::EndOfWeek)], shown: "w", label: "End of week", bar: Bar::Off, narrow: Bar::Off },
        Binding { keys: &[("3", Action::NextMonday)], shown: "3", label: "Next Monday", bar: Bar::Off, narrow: Bar::Off },
        Binding { keys: &[("4", Action::InAWeek)], shown: "4", label: "In a week", bar: Bar::Off, narrow: Bar::Off },
        Binding { keys: &[("5", Action::EndOfMonth)], shown: "5", label: "End of month", bar: Bar::Off, narrow: Bar::Off },
        Binding { keys: &[("g", Action::GoToDate)], shown: "g", label: "Pick a date…", bar: Bar::Off, narrow: Bar::Off },
        Binding { keys: &[("b", Action::ToBacklog)], shown: "b", label: "Backlog", bar: Bar::Off, narrow: Bar::Off },
        Binding { keys: &[("j", Action::Down), ("k", Action::Up), ("down", Action::Down), ("up", Action::Up)], shown: "j/k", label: "move", bar: Bar::Left, narrow: Bar::Left },
        Binding { keys: &[("G", Action::Last)], shown: "G", label: "last row", bar: Bar::Off, narrow: Bar::Off },
        Binding { keys: &[("ctrl-d", Action::HalfPageDown), ("ctrl-u", Action::HalfPageUp)], shown: "ctrl-d/u", label: "half a page", bar: Bar::Off, narrow: Bar::Off },
        Binding { keys: &[("enter", Action::Confirm)], shown: "⏎", label: "move it there", bar: Bar::Left, narrow: Bar::Short(Side::Left, "move") },
        Binding { keys: &[("esc", Action::Cancel)], shown: "esc", label: "cancel", bar: Bar::Left, narrow: Bar::Left },
    ]
}

/// The move card: the day a task is sent to.
pub fn move_card() -> (rows: &'static [Binding])
    ensures
        rows@ == move_card_rows(),
{
    &[
        Binding { keys: &[("t", Action::ToToday)], shown: "t", label: "Today", bar: Bar::Off, narrow: Bar::Off },
        Binding { keys: &[("1", Action::Tomorrow)], shown: "1", label: "Tomorrow", bar: Bar::Off, narrow: Bar::Off },
        Binding { keys: &[("2", Action::NextWorkDay)], shown: "2", label: "Next work day", bar: Bar::Off, narrow: Bar::Off },
        Binding { keys: &[("w", Action::EndOfWeek)], shown: "w", label: "End of week", bar: Bar::Off, narrow: Bar::Off },
        Binding { keys: &[("3", Action::NextMonday)], shown: "3", label: "Next Monday", bar: Bar::Off, narrow: Bar::Off },
        Binding { keys: &[("4", Action::InAWeek)], shown: "4", label: "In a week", bar: Bar::Off, narrow: Bar::Off },
        Binding { keys: &[("5", Action::EndOfMonth)], shown: "5", label: "End of month", bar: Bar::Off, narrow: Bar::Off },
        Binding { keys: &[("g", Action::GoToDate)], shown: "g", label: "Pick a date…", bar: Bar::Off, narrow: Bar::Off },
        Binding { keys: &[("b", Action::ToBacklog)], shown: "b", label: "Backlog", bar: Bar::Off, narrow: Bar::Off },
        Binding { keys: &[("j", Action::Down), ("k", Action::Up), ("down", Action::Down), ("up", Action::Up)], shown: "j/k", label: "move", bar: Bar::Left, narrow: Bar::Left },
        Binding { keys: &[("G", Action::Last)], shown: "G", label: "last row", bar: Bar::Off, narrow: Bar::Off },
        Binding { keys: &[("ctrl-d", Action::HalfPageDown), ("ctrl-u", Action::HalfPageUp)], shown: "ctrl-d/u", label: "half a page", bar: Bar::Off, narrow: Bar::Off },
        Binding { keys: &[("enter", Action::Confirm)], shown: "⏎", label: "move it there", bar: Bar::Left, narrow: Bar::Short(Side::Left, "move") },
        Binding { keys: &[("esc", Action::Cancel)], shown: "esc", label: "cancel", bar: Bar::Left, narrow: Bar::Left },
    ]
}

/// The question a recurring copy's new title asks.
pub open spec fn copy_question_rows() -> Seq<Binding> {
    seq![
        Binding { keys: &[("1", Action::ThisCopy)], shown: "1", label: "this copy", bar: Bar::Left, narrow: Bar::Left },
        Binding { keys: &[("2", Action::ThisAndFuture)], shown: "2", label: "this and future copies", bar: Bar::Left, narrow: Bar::Short(Side::Left, "and future") },
        Binding { keys: &[("esc", Action::Cancel)], shown: "esc", label: "cancel", bar: Bar::Left, narrow: Bar::Left },
    ]
}

/// The question a recurring copy's new title asks.
pub fn copy_question() -> (rows: &'static [Binding])
    ensures
        rows@ == copy_question_rows(),
{
    &[
        Binding { keys: &[("1", Action::ThisCopy)], shown: "1", label: "this copy", bar: Bar::Left, narrow: Bar::Left },
        Binding { keys: &[("2", Action::ThisAndFuture)], shown: "2", label: "this and future copies", bar: Bar::Left, narrow: Bar::Short(Side::Left, "and future") },
        Binding { keys: &[("esc", Action::Cancel)], shown: "esc", label: "cancel", bar: Bar::Left, narrow: Bar::Left },
    ]
}

/// The question a delete asks while deletes are confirmed.
pub open spec fn delete_question_rows() -> Seq<Binding> {
    seq![
        Binding { keys: &[("enter", Action::Confirm)], shown: "⏎", label: "delete", bar: Bar::Left, narrow: Bar::Left },
        Binding { keys: &[("esc", Action::Cancel)], shown: "esc", label: "keep", bar: Bar::Left, narrow: Bar::Left },
    ]
}

/// The question a delete asks while deletes are confirmed.
pub fn delete_question() -> (rows: &'static [Binding])
    ensures
        rows@ == delete_question_rows(),
{
    &[
        Binding { keys: &[("enter", Action::Confirm)], shown: "⏎", label: "delete", bar: Bar::Left, narrow: Bar::Left },
        Binding { keys: &[("esc", Action::Cancel)], shown: "esc", label: "keep", bar: Bar::Left, narrow: Bar::Left },
    ]
}

/// The date card with the date being typed.
pub open spec fn date_field_rows() -> Seq<Binding> {
    seq![
        Binding { keys: &[("enter", Action::Confirm)], shown: "⏎", label: "set", bar: Bar::Left, narrow: Bar::Left },
        Binding { keys: &[("esc", Action::Cancel)], shown: "esc", label: "cancel", bar: Bar::Left, narrow: Bar::Left },
        Binding { keys: &[("tab", Action::NextPane)], shown: "tab", label: "calendar", bar: Bar::Left, narrow: Bar::Left },
        Binding { keys: &[("alt-1", Action::Tomorrow)], shown: "alt-1", label: "Tomorrow", bar: Bar::Off, narrow: Bar::Off },
        Binding { keys: &[("alt-2", Action::EndOfWeek)], shown: "alt-2", label: "End of week", bar: Bar::Off, narrow: Bar::Off },
        Binding { keys: &[("alt-3", Action::NextMonday)], shown: "alt-3", label: "Next Monday", bar: Bar::Off, narrow: Bar::Off },
        Binding { keys: &[("alt-4", Action::InAWeek)], shown: "alt-4", label: "In a week", bar: Bar::Off, narrow: Bar::Off },
        Binding { keys: &[("alt-5", Action::EndOfMonth)], shown: "alt-5", label: "End of month", bar: Bar::Off, narrow: Bar::Off },
        Binding { keys: &[("alt-0", Action::ClearDate)], shown: "alt-0", label: "Clear date", bar: Bar::Off, narrow: Bar::Off },
        Binding { keys: &[("alt-d", Action::DueBy)], shown: "alt-d", label: "due by", bar: Bar::Off, narrow: Bar::Off },
    ]
}

/// The date card with the date being typed.
pub fn date_field() -> (rows: &'static [Binding])
    ensures
        rows@ == date_field_rows(),
{
    &[
        Binding { keys: &[("enter", Action::Confirm)], shown: "⏎", label: "set", bar: Bar::Left, narrow: Bar::Left },
        Binding { keys: &[("esc", Action::Cancel)], shown: "esc", label: "cancel", bar: Bar::Left, narrow: Bar::Left },
        Binding { keys: &[("tab", Action::NextPane)], shown: "tab", label: "calendar", bar: Bar::Left, narrow: Bar::Left },
        Binding { keys: &[("alt-1", Action::Tomorrow)], shown: "alt-1", label: "Tomorrow", bar: Bar::Off, narrow: Bar::Off },
        Binding { keys: &[("alt-2", Action::EndOfWeek)], shown: "alt-2", label: "End of week", bar: Bar::Off, narrow: Bar::Off },
        Binding { keys: &[("alt-3", Action::NextMonday)], shown: "alt-3", label: "Next Monday", bar: Bar::Off, narrow: Bar::Off },
        Binding { keys: &[("alt-4", Action::InAWeek)], shown: "alt-4", label: "In a week", bar: Bar::Off, narrow: Bar::Off },
        Binding { keys: &[("alt-5", Action::EndOfMonth)], shown: "alt-5", label: "End of month", bar: Bar::Off, narrow: Bar::Off },
        Binding { keys: &[("alt-0", Action::ClearDate)], shown: "alt-0", label: "Clear date", bar: Bar::Off, narrow: Bar::Off },
        Binding { keys: &[("alt-d", Action::DueBy)], shown: "alt-d", label: "due by", bar: Bar::Off, narrow: Bar::Off },
    ]
}

/// The date card with the calendar.
pub open spec fn date_calendar_rows() -> Seq<Binding> {
    seq![
        Binding { keys: &[("enter", Action::Confirm)], shown: "⏎", label: "set", bar: Bar::Left, narrow: Bar::Left },
        Binding { keys: &[("esc", Action::Cancel)], shown: "esc", label: "cancel", bar: Bar::Left, narrow: Bar::Left },
        Binding { keys: &[("tab", Action::NextPane)], shown: "tab", label: "type it", bar: Bar::Left, narrow: Bar::Left },
        Binding { keys: &[("h", Action::Left), ("l", Action::Right), ("j", Action::Down), ("k", Action::Up), ("left", Action::Left), ("right", Action::Right), ("down", Action::Down), ("up", Action::Up)], shown: "h/l/j/k", label: "day", bar: Bar::Left, narrow: Bar::Off },
        Binding { keys: &[("<", Action::PrevMonth), (">", Action::NextMonth)], shown: "</>", label: "month", bar: Bar::Left, narrow: Bar::Off },
        Binding { keys: &[("alt-1", Action::Tomorrow)], shown: "alt-1", label: "Tomorrow", bar: Bar::Off, narrow: Bar::Off },
        Binding { keys: &[("alt-2", Action::EndOfWeek)], shown: "alt-2", label: "End of week", bar: Bar::Off, narrow: Bar::Off },
        Binding { keys: &[("alt-3", Action::NextMonday)], shown: "alt-3", label: "Next Monday", bar: Bar::Off, narrow: Bar::Off },
        Binding { keys: &[("alt-4", Action::InAWeek)], shown: "alt-4", label: "In a week", bar: Bar::Off, narrow: Bar::Off },
        Binding { keys: &[("alt-5", Action::EndOfMonth)], shown: "alt-5", label: "End of month", bar: Bar::Off, narrow: Bar::Off },
        Binding { keys: &[("alt-0", Action::ClearDate)], shown: "alt-0", label: "Clear date", bar: Bar::Off, narrow: Bar::Off },
        Binding { keys: &[("alt-d", Action::DueBy)], shown: "alt-d", label: "due by", bar: Bar::Off, narrow: Bar::Off },
    ]
}

/// The date card with the calendar.
pub fn date_calendar() -> (rows: &'static [Binding])
    ensures
        rows@ == date_calendar_rows(),
{
    &[
        Binding { keys: &[("enter", Action::Confirm)], shown: "⏎", label: "set", bar: Bar::Left, narrow: Bar::Left },
        Binding { keys: &[("esc", Action::Cancel)], shown: "esc", label: "cancel", bar: Bar::Left, narrow: Bar::Left },
        Binding { keys: &[("tab", Action::NextPane)], shown: "tab", label: "type it", bar: Bar::Left, narrow: Bar::Left },
        Binding { keys: &[("h", Action::Left), ("l", Action::Right), ("j", Action::Down), ("k", Action::Up), ("left", Action::Left), ("right", Action::Right), ("down", Action::Down), ("up", Action::Up)], shown: "h/l/j/k", label: "day", bar: Bar::Left, narrow: Bar::Off },
        Binding { keys: &[("<", Action::PrevMonth), (">", Action::NextMonth)], shown: "</>", label: "month", bar: Bar::Left, narrow: Bar::Off },
        Binding { keys: &[("alt-1", Action::Tomorrow)], shown: "alt-1", label: "Tomorrow", bar: Bar::Off, narrow: Bar::Off },
        Binding { keys: &[("alt-2", Action::EndOfWeek)], shown: "alt-2", label: "End of week", bar: Bar::Off, narrow: Bar::Off },
        Binding { keys: &[("alt-3", Action::NextMonday)], shown: "alt-3", label: "Next Monday", bar: Bar::Off, narrow: Bar::Off },
        Binding { keys: &[("alt-4", Action::InAWeek)], shown: "alt-4", label: "In a week", bar: Bar::Off, narrow: Bar::Off },
        Binding { keys: &[("alt-5", Action::EndOfMonth)], shown: "alt-5", label: "End of month", bar: Bar::Off, narrow: Bar::Off },
        Binding { keys: &[("alt-0", Action::ClearDate)], shown: "alt-0", label: "Clear date", bar: Bar::Off, narrow: Bar::Off },
        Binding { keys: &[("alt-d", Action::DueBy)], shown: "alt-d", label: "due by", bar: Bar::Off, narrow: Bar::Off },
    ]
}

/// The repeat card.
pub open spec fn repeat_card_rows() -> Seq<Binding> {
    seq![
        Binding { keys: &[("1", Action::EveryWorkDay)], shown: "1", label: "Every work day", bar: Bar::Off, narrow: Bar::Off },
        Binding { keys: &[("2", Action::EveryDay)], shown: "2", label: "Every day", bar: Bar::Off, narrow: Bar::Off },
        Binding { keys: &[("3", Action::EveryWeek)], shown: "3", label: "Every week on", bar: Bar::Off, narrow: Bar::Off },
        Binding { keys: &[("4", Action::EveryMonth)], shown: "4", label: "Every month on the", bar: Bar::Off, narrow: Bar::Off },
        Binding { keys: &[("5", Action::EveryFewWeeks)], shown: "5", label: "Every", bar: Bar::Off, narrow: Bar::Off },
        Binding { keys: &[("0", Action::StopRepeat)], shown: "0", label: "Stop repeating", bar: Bar::Off, narrow: Bar::Off },
        Binding { keys: &[("enter", Action::Confirm)], shown: "⏎", label: "save", bar: Bar::Left, narrow: Bar::Left },
        Binding { keys: &[("esc", Action::Cancel)], shown: "esc", label: "cancel", bar: Bar::Left, narrow: Bar::Left },
        Binding { keys: &[("h", Action::Left), ("l", Action::Right), ("left", Action::Left), ("right", Action::Right)], shown: "h/l", label: "adjust", bar: Bar::Left, narrow: Bar::Left },
        Binding { keys: &[("space", Action::Pick)], shown: "space", label: "pick a day", bar: Bar::Left, narrow: Bar::Off },
        Binding { keys: &[("j", Action::Down), ("k", Action::Up), ("down", Action::Down), ("up", Action::Up)], shown: "j/k", label: "move", bar: Bar::Off, narrow: Bar::Off },
        Binding { keys: &[("g", Action::Go)], shown: "g", label: "go…", bar: Bar::Off, narrow: Bar::Off },
        Binding { keys: &[("G", Action::Last)], shown: "G", label: "last row", bar: Bar::Off, narrow: Bar::Off },
        Binding { keys: &[("ctrl-d", Action::HalfPageDown), ("ctrl-u", Action::HalfPageUp)], shown: "ctrl-d/u", label: "half a page", bar: Bar::Off, narrow: Bar::Off },
    ]
}

/// The repeat card.
pub fn repeat_card() -> (rows: &'static [Binding])
    ensures
        rows@ == repeat_card_rows(),
{
    &[
        Binding { keys: &[("1", Action::EveryWorkDay)], shown: "1", label: "Every work day", bar: Bar::Off, narrow: Bar::Off },
        Binding { keys: &[("2", Action::EveryDay)], shown: "2", label: "Every day", bar: Bar::Off, narrow: Bar::Off },
        Binding { keys: &[("3", Action::EveryWeek)], shown: "3", label: "Every week on", bar: Bar::Off, narrow: Bar::Off },
        Binding { keys: &[("4", Action::EveryMonth)], shown: "4", label: "Every month on the", bar: Bar::Off, narrow: Bar::Off },
        Binding { keys: &[("5", Action::EveryFewWeeks)], shown: "5", label: "Every", bar: Bar::Off, narrow: Bar::Off },
        Binding { keys: &[("0", Action::StopRepeat)], shown: "0", label: "Stop repeating", bar: Bar::Off, narrow: Bar::Off },
        Binding { keys: &[("enter", Action::Confirm)], shown: "⏎", label: "save", bar: Bar::Left, narrow: Bar::Left },
        Binding { keys: &[("esc", Action::Cancel)], shown: "esc", label: "cancel", bar: Bar::Left, narrow: Bar::Left },
        Binding { keys: &[("h", Action::Left), ("l", Action::Right), ("left", Action::Left), ("right", Action::Right)], shown: "h/l", label: "adjust", bar: Bar::Left, narrow: Bar::Left },
        Binding { keys: &[("space", Action::Pick)], shown: "space", label: "pick a day", bar: Bar::Left, narrow: Bar::Off },
        Binding { keys: &[("j", Action::Down), ("k", Action::Up), ("down", Action::Down), ("up", Action::Up)], shown: "j/k", label: "move", bar: Bar::Off, narrow: Bar::Off },
        Binding { keys: &[("g", Action::Go)], shown: "g", label: "go…", bar: Bar::Off, narrow: Bar::Off },
        Binding { keys: &[("G", Action::Last)], shown: "G", label: "last row", bar: Bar::Off, narrow: Bar::Off },
        Binding { keys: &[("ctrl-d", Action::HalfPageDown), ("ctrl-u", Action::HalfPageUp)], shown: "ctrl-d/u", label: "half a page", bar: Bar::Off, narrow: Bar::Off },
    ]
}

/// The spelling card.
pub open spec fn spelling_card_rows() -> Seq<Binding> {
    seq![
        Binding { keys: &[("j", Action::Down), ("k", Action::Up), ("down", Action::Down), ("up", Action::Up)], shown: "j/k", label: "move", bar: Bar::Left, narrow: Bar::Left },
        Binding { keys: &[("enter", Action::Confirm)], shown: "⏎", label: "choose", bar: Bar::Left, narrow: Bar::Left },
        Binding { keys: &[("esc", Action::Cancel)], shown: "esc", label: "cancel", bar: Bar::Left, narrow: Bar::Left },
        Binding { keys: &[("g", Action::Go)], shown: "g", label: "go…", bar: Bar::Off, narrow: Bar::Off },
        Binding { keys: &[("G", Action::Last)], shown: "G", label: "last row", bar: Bar::Off, narrow: Bar::Off },
        Binding { keys: &[("ctrl-d", Action::HalfPageDown), ("ctrl-u", Action::HalfPageUp)], shown: "ctrl-d/u", label: "half a page", bar: Bar::Off, narrow: Bar::Off },
    ]
}

/// The spelling card.
pub fn spelling_card() -> (rows: &'static [Binding])
    ensures
        rows@ == spelling_card_rows(),
{
    &[
        Binding { keys: &[("j", Action::Down), ("k", Action::Up), ("down", Action::Down), ("up", Action::Up)], shown: "j/k", label: "move", bar: Bar::Left, narrow: Bar::Left },
        Binding { keys: &[("enter", Action::Confirm)], shown: "⏎", label: "choose", bar: Bar::Left, narrow: Bar::Left },
        Binding { keys: &[("esc", Action::Cancel)], shown: "esc", label: "cancel", bar: Bar::Left, narrow: Bar::Left },
        Binding { keys: &[("g", Action::Go)], shown: "g", label: "go…", bar: Bar::Off, narrow: Bar::Off },
        Binding { keys: &[("G", Action::Last)], shown: "G", label: "last row", bar: Bar::Off, narrow: Bar::Off },
        Binding { keys: &[("ctrl-d", Action::HalfPageDown), ("ctrl-u", Action::HalfPageUp)], shown: "ctrl-d/u", label: "half a page", bar: Bar::Off, narrow: Bar::Off },
    ]
}

/// The personal dictionary with a word being typed.
pub open spec fn dictionary_field_rows() -> Seq<Binding> {
    seq![
        Binding { keys: &[("enter", Action::Confirm)], shown: "⏎", label: "save", bar: Bar::Left, narrow: Bar::Left },
        Binding { keys: &[("esc", Action::Cancel)], shown: "esc", label: "cancel", bar: Bar::Left, narrow: Bar::Left },
    ]
}

/// The personal dictionary with a word being typed.
pub fn dictionary_field() -> (rows: &'static [Binding])
    ensures
        rows@ == dictionary_field_rows(),
{
    &[
        Binding { keys: &[("enter", Action::Confirm)], shown: "⏎", label: "save", bar: Bar::Left, narrow: Bar::Left },
        Binding { keys: &[("esc", Action::Cancel)], shown: "esc", label: "cancel", bar: Bar::Left, narrow: Bar::Left },
    ]
}

/// The personal dictionary's list of words.
pub open spec fn dictionary_list_rows() -> Seq<Binding> {
    seq![
        Binding { keys: &[("up", Action::Up), ("down", Action::Down)], shown: "↑/↓", label: "move", bar: Bar::Left, narrow: Bar::Left },
        Binding { keys: &[("a", Action::Add)], shown: "a", label: "add a word", bar: Bar::Left, narrow: Bar::Short(Side::Left, "add") },
        Binding { keys: &[("e", Action::Edit), ("enter", Action::Confirm)], shown: "e ⏎", label: "change", bar: Bar::Left, narrow: Bar::Left },
        Binding { keys: &[("x", Action::Delete)], shown: "x", label: "remove", bar: Bar::Left, narrow: Bar::Short(Side::Left, "del") },
        Binding { keys: &[("esc", Action::Cancel)], shown: "esc", label: "back to settings", bar: Bar::Left, narrow: Bar::Short(Side::Left, "back") },
        Binding { keys: &[("j", Action::Down), ("k", Action::Up)], shown: "j/k", label: "move", bar: Bar::Off, narrow: Bar::Off },
        Binding { keys: &[("g", Action::Go)], shown: "g", label: "go…", bar: Bar::Off, narrow: Bar::Off },
        Binding { keys: &[("G", Action::Last)], shown: "G", label: "last row", bar: Bar::Off, narrow: Bar::Off },
        Binding { keys: &[("ctrl-d", Action::HalfPageDown), ("ctrl-u", Action::HalfPageUp)], shown: "ctrl-d/u", label: "half a page", bar: Bar::Off, narrow: Bar::Off },
    ]
}

/// The personal dictionary's list of words.
pub fn dictionary_list() -> (rows: &'static [Binding])
    ensures
        rows@ == dictionary_list_rows(),
{
    &[
        Binding { keys: &[("up", Action::Up), ("down", Action::Down)], shown: "↑/↓", label: "move", bar: Bar::Left, narrow: Bar::Left },
        Binding { keys: &[("a", Action::Add)], shown: "a", label: "add a word", bar: Bar::Left, narrow: Bar::Short(Side::Left, "add") },
        Binding { keys: &[("e", Action::Edit), ("enter", Action::Confirm)], shown: "e ⏎", label: "change", bar: Bar::Left, narrow: Bar::Left },
        Binding { keys: &[("x", Action::Delete)], shown: "x", label: "remove", bar: Bar::Left, narrow: Bar::Short(Side::Left, "del") },
        Binding { keys: &[("esc", Action::Cancel)], shown: "esc", label: "back to settings", bar: Bar::Left, narrow: Bar::Short(Side::Left, "back") },
        Binding { keys: &[("j", Action::Down), ("k", Action::Up)], shown: "j/k", label: "move", bar: Bar::Off, narrow: Bar::Off },
        Binding { keys: &[("g", Action::Go)], shown: "g", label: "go…", bar: Bar::Off, narrow: Bar::Off },
        Binding { keys: &[("G", Action::Last)], shown: "G", label: "last row", bar: Bar::Off, narrow: Bar::Off },
        Binding { keys: &[("ctrl-d", Action::HalfPageDown), ("ctrl-u", Action::HalfPageUp)], shown: "ctrl-d/u", label: "half a page", bar: Bar::Off, narrow: Bar::Off },
    ]
}

/// The settings page with a value being typed.
pub open spec fn settings_field_rows() -> Seq<Binding> {
    seq![
        Binding { keys: &[("enter", Action::Confirm)], shown: "⏎", label: "save", bar: Bar::Left, narrow: Bar::Left },
        Binding { keys: &[("esc", Action::Cancel)], shown: "esc", label: "cancel", bar: Bar::Left, narrow: Bar::Left },
    ]
}

/// The settings page with a value being typed.
pub fn settings_field() -> (rows: &'static [Binding])
    ensures
        rows@ == settings_field_rows(),
{
    &[
        Binding { keys: &[("enter", Action::Confirm)], shown: "⏎", label: "save", bar: Bar::Left, narrow: Bar::Left },
        Binding { keys: &[("esc", Action::Cancel)], shown: "esc", label: "cancel", bar: Bar::Left, narrow: Bar::Left },
    ]
}

/// The settings page.
pub open spec fn settings_list_rows() -> Seq<Binding> {
    seq![
        Binding { keys: &[("h", Action::Left), ("l", Action::Right), ("left", Action::Left), ("right", Action::Right)], shown: "h/l", label: "adjust", bar: Bar::Left, narrow: Bar::Left },
        Binding { keys: &[("space", Action::Pick), ("enter", Action::Confirm)], shown: "space ⏎", label: "change", bar: Bar::Left, narrow: Bar::Short(Side::Left, "change") },
        Binding { keys: &[("esc", Action::Cancel)], shown: "esc", label: "back", bar: Bar::Left, narrow: Bar::Left },
        Binding { keys: &[("j", Action::Down), ("k", Action::Up), ("down", Action::Down), ("up", Action::Up)], shown: "j/k", label: "move", bar: Bar::Off, narrow: Bar::Off },
        Binding { keys: &[("g", Action::Go)], shown: "g", label: "go…", bar: Bar::Right, narrow: Bar::Off },
        Binding { keys: &[("G", Action::Last)], shown: "G", label: "last row", bar: Bar::Off, narrow: Bar::Off },
        Binding { keys: &[("ctrl-d", Action::HalfPageDown), ("ctrl-u", Action::HalfPageUp)], shown: "ctrl-d/u", label: "half a page", bar: Bar::Off, narrow: Bar::Off },
        Binding { keys: &[("/", Action::Search)], shown: "/", label: "search", bar: Bar::Off, narrow: Bar::Off },
        Binding { keys: &[(":", Action::Commands)], shown: ":", label: "commands", bar: Bar::Off, narrow: Bar::Off },
        Binding { keys: &[("?", Action::Help)], shown: "?", label: "help", bar: Bar::Right, narrow: Bar::Short(Side::Right, "more") },
        Binding { keys: &[("q", Action::Quit)], shown: "q", label: "quit", bar: Bar::Off, narrow: Bar::Off },
    ]
}

/// The settings page.
pub fn settings_list() -> (rows: &'static [Binding])
    ensures
        rows@ == settings_list_rows(),
{
    &[
        Binding { keys: &[("h", Action::Left), ("l", Action::Right), ("left", Action::Left), ("right", Action::Right)], shown: "h/l", label: "adjust", bar: Bar::Left, narrow: Bar::Left },
        Binding { keys: &[("space", Action::Pick), ("enter", Action::Confirm)], shown: "space ⏎", label: "change", bar: Bar::Left, narrow: Bar::Short(Side::Left, "change") },
        Binding { keys: &[("esc", Action::Cancel)], shown: "esc", label: "back", bar: Bar::Left, narrow: Bar::Left },
        Binding { keys: &[("j", Action::Down), ("k", Action::Up), ("down", Action::Down), ("up", Action::Up)], shown: "j/k", label: "move", bar: Bar::Off, narrow: Bar::Off },
        Binding { keys: &[("g", Action::Go)], shown: "g", label: "go…", bar: Bar::Right, narrow: Bar::Off },
        Binding { keys: &[("G", Action::Last)], shown: "G", label: "last row", bar: Bar::Off, narrow: Bar::Off },
        Binding { keys: &[("ctrl-d", Action::HalfPageDown), ("ctrl-u", Action::HalfPageUp)], shown: "ctrl-d/u", label: "half a page", bar: Bar::Off, narrow: Bar::Off },
        Binding { keys: &[("/", Action::Search)], shown: "/", label: "search", bar: Bar::Off, narrow: Bar::Off },
        Binding { keys: &[(":", Action::Commands)], shown: ":", label: "commands", bar: Bar::Off, narrow: Bar::Off },
        Binding { keys: &[("?", Action::Help)], shown: "?", label: "help", bar: Bar::Right, narrow: Bar::Short(Side::Right, "more") },
        Binding { keys: &[("q", Action::Quit)], shown: "q", label: "quit", bar: Bar::Off, narrow: Bar::Off },
    ]
}

/// Where the leader leads from a page.
pub open spec fn after_g_rows() -> Seq<Binding> {
    seq![
        Binding { keys: &[("g", Action::First)], shown: "g", label: "first row", bar: Bar::Left, narrow: Bar::Off },
        Binding { keys: &[("t", Action::Today)], shown: "t", label: "today", bar: Bar::Left, narrow: Bar::Left },
        Binding { keys: &[("b", Action::BacklogPane)], shown: "b", label: "backlog", bar: Bar::Left, narrow: Bar::Left },
        Binding { keys: &[("d", Action::GoToDate)], shown: "d", label: "go to date", bar: Bar::Left, narrow: Bar::Short(Side::Left, "date") },
        Binding { keys: &[("n", Action::NotesPage)], shown: "n", label: "notes", bar: Bar::Left, narrow: Bar::Left },
        Binding { keys: &[("a", Action::ArchivePage)], shown: "a", label: "archive", bar: Bar::Left, narrow: Bar::Off },
        Binding { keys: &[("s", Action::SettingsPage)], shown: "s", label: "settings", bar: Bar::Left, narrow: Bar::Off },
        Binding { keys: &[("r", Action::OpenReview)], shown: "r", label: "morning review", bar: Bar::Left, narrow: Bar::Off },
        Binding { keys: &[("esc", Action::Cancel)], shown: "esc", label: "cancel", bar: Bar::Right, narrow: Bar::Right },
    ]
}

/// Where the leader leads from a page.
pub fn after_g() -> (rows: &'static [Binding])
    ensures
        rows@ == after_g_rows(),
{
    &[
        Binding { keys: &[("g", Action::First)], shown: "g", label: "first row", bar: Bar::Left, narrow: Bar::Off },
        Binding { keys: &[("t", Action::Today)], shown: "t", label: "today", bar: Bar::Left, narrow: Bar::Left },
        Binding { keys: &[("b", Action::BacklogPane)], shown: "b", label: "backlog", bar: Bar::Left, narrow: Bar::Left },
        Binding { keys: &[("d", Action::GoToDate)], shown: "d", label: "go to date", bar: Bar::Left, narrow: Bar::Short(Side::Left, "date") },
        Binding { keys: &[("n", Action::NotesPage)], shown: "n", label: "notes", bar: Bar::Left, narrow: Bar::Left },
        Binding { keys: &[("a", Action::ArchivePage)], shown: "a", label: "archive", bar: Bar::Left, narrow: Bar::Off },
        Binding { keys: &[("s", Action::SettingsPage)], shown: "s", label: "settings", bar: Bar::Left, narrow: Bar::Off },
        Binding { keys: &[("r", Action::OpenReview)], shown: "r", label: "morning review", bar: Bar::Left, narrow: Bar::Off },
        Binding { keys: &[("esc", Action::Cancel)], shown: "esc", label: "cancel", bar: Bar::Right, narrow: Bar::Right },
    ]
}

/// Where the leader leads in the move card.
pub open spec fn after_g_on_the_move_card_rows() -> Seq<Binding> {
    seq![
        Binding { keys: &[("g", Action::First)], shown: "g", label: "first row", bar: Bar::Left, narrow: Bar::Off },
        Binding { keys: &[("d", Action::GoToDate)], shown: "d", label: "go to date", bar: Bar::Left, narrow: Bar::Short(Side::Left, "date") },
        Binding { keys: &[("esc", Action::Cancel)], shown: "esc", label: "cancel", bar: Bar::Right, narrow: Bar::Right },
    ]
}

/// Where the leader leads in the move card.
pub fn after_g_on_the_move_card() -> (rows: &'static [Binding])
    ensures
        rows@ == after_g_on_the_move_card_rows(),
{
    &[
        Binding { keys: &[("g", Action::First)], shown: "g", label: "first row", bar: Bar::Left, narrow: Bar::Off },
        Binding { keys: &[("d", Action::GoToDate)], shown: "d", label: "go to date", bar: Bar::Left, narrow: Bar::Short(Side::Left, "date") },
        Binding { keys: &[("esc", Action::Cancel)], shown: "esc", label: "cancel", bar: Bar::Right, narrow: Bar::Right },
    ]
}

/// Where the leader leads in a card that is a list.
pub open spec fn after_g_in_a_list_rows() -> Seq<Binding> {
    seq![
        Binding { keys: &[("g", Action::First)], shown: "g", label: "first row", bar: Bar::Left, narrow: Bar::Off },
        Binding { keys: &[("esc", Action::Cancel)], shown: "esc", label: "cancel", bar: Bar::Right, narrow: Bar::Right },
    ]
}

/// Where the leader leads in a card that is a list.
pub fn after_g_in_a_list() -> (rows: &'static [Binding])
    ensures
        rows@ == after_g_in_a_list_rows(),
{
    &[
        Binding { keys: &[("g", Action::First)], shown: "g", label: "first row", bar: Bar::Left, narrow: Bar::Off },
        Binding { keys: &[("esc", Action::Cancel)], shown: "esc", label: "cancel", bar: Bar::Right, narrow: Bar::Right },
    ]
}

} // verus!
