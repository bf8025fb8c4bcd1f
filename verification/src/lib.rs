//! jobsdone: a keyboard-first daily task manager for the terminal, as the
//! rules it keeps.

pub mod text;
pub mod domain;
pub mod input;
pub mod desktop;
pub mod cli;
pub mod service;
pub mod launch;
