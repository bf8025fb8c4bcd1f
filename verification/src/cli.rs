//! The command line: arguments in, what the program is to do out.
//!
//! Nothing here reads a file, a clock or the database, so every form of
//! the command line is a function of its words.

use vstd::prelude::*;

pub mod help;
pub mod answer;
pub mod json;
pub mod parse;
pub mod reading;
pub mod render;
pub mod request;
pub mod table;

pub use self::json::{Json, JsonView};
pub use self::parse::format_hint;
pub use self::request::{Body, Extras, Source, Spec};

verus! {

/// The shape an answer is written in.
#[derive(Clone, Copy, Debug, PartialEq, Eq, Structural)]
pub enum Format {
    Text,
    Json,
}

/// What happens after the answer is written.
#[derive(Clone, Copy, Debug, PartialEq, Eq, Structural)]
pub enum Then {
    Nothing,
    /// The note the answer carries goes to the clipboard.
    CopyNote,
}

/// Why a command line is not answered: the code a caller matches on, the
/// sentence a person reads, and the status the process leaves with.
#[derive(Clone, Debug, PartialEq, Eq)]
pub struct Failure {
    pub code: String,
    pub message: String,
    pub exit_code: u8,
}

impl Failure {
    /// A command line that could not be read, which leaves with status 2.
    pub fn usage(message: String) -> (failure: Failure)
        ensures
            failure.code@ == "usage"@,
            failure.message@ == message@,
            failure.exit_code == 2,
    {
        Failure { code: crate::text::string_of(crate::text::chars_of("usage").as_slice()), message, exit_code: 2 }
    }

    /// Something that went wrong past the command line, which leaves with
    /// status 1.
    pub fn runtime(code: &str, message: String) -> (failure: Failure)
        ensures
            failure.code@ == code@,
            failure.message@ == message@,
            failure.exit_code == 1,
    {
        Failure { code: crate::text::string_of(crate::text::chars_of(code).as_slice()), message, exit_code: 1 }
    }
}

/// One operation: the request it sends, how its answer is read out, what
/// happens afterwards, and the text it still needs read from somewhere.
#[derive(Debug)]
pub struct Operation {
    pub request: Json,
    pub view: render::View,
    pub after: Then,
    pub body: Option<Body>,
    pub input: Option<Source>,
}

/// What the program is to do.
#[derive(Debug)]
pub enum Plan {
    /// Open the app.
    Run,
    Help(String),
    Version,
    Skill,
    /// Write the window rule: floating, tiled or as it is, and a size in
    /// logical pixels where one was given.
    Desktop { floating: Option<bool>, size: Option<(i64, i64)> },
    Operate(Operation),
}

/// A command line, read.
#[derive(Debug)]
pub struct Parsed {
    pub plan: Plan,
    pub format: Format,
    /// The database directory, as it was written.
    pub data_dir: Option<String>,
}

} // verus!
