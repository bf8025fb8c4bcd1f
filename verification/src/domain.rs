//! The rules of the program: the settings, repeat rules, fuzzy matching
//! and the personal dictionary.

use vstd::prelude::*;

pub mod date;
pub mod dictionary;
pub mod fuzzy;
pub mod rule;
pub mod command;
pub mod model;
pub mod settings;
pub mod time;
pub mod laws;
pub mod system;
pub mod view;

pub use self::dictionary::dictionary_key;
pub use self::rule::Weekday;
pub use self::settings::{DateOrder, DateStyle, Settings, WeekStart, WindowSize, WorkDays};

verus! {

/// Why a command was refused, as the sentence the hint bar shows.
#[derive(Clone, Debug, PartialEq, Eq)]
pub struct Rejected(pub String);

impl Rejected {
    /// The sentence, which is what the hint bar shows.
    pub fn message(&self) -> (r: &str)
        ensures
            r@ == self.0@,
    {
        self.0.as_str()
    }
}

/// What storage can fail with: another window got to the same row first,
/// or anything else, in its own words.
#[derive(Clone, Debug, PartialEq, Eq)]
pub enum StoreError {
    /// A unique or primary key violation: another window got there first.
    Conflict,
    Other(String),
}

impl StoreError {
    /// The sentence a person reads.
    pub fn message(&self) -> (r: String)
        ensures
            r@ == match self {
                StoreError::Conflict => "another window changed the same thing"@,
                StoreError::Other(m) => m@,
            },
    {
        match self {
            StoreError::Conflict => "another window changed the same thing".to_owned(),
            StoreError::Other(message) => message.clone(),
        }
    }
}

} // verus!
