//! The built-in command shell used by the terminal.
//!
//! A command line is split into words; [`plan::builtin`] says what a
//! built-in command has to do, [`report`] what it prints once that is done.

pub mod decide;
pub mod help;
pub mod ping;
pub mod plan;
pub mod report;
pub mod tree;
pub mod words;
