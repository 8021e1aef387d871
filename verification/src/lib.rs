//! Turns a table of employment records into a chronological, fixed-layout
//! text report.
//!
//! The crate is organised as a chain of small stages: rows of text are
//! decoded into typed entries, the entries are put in reverse chronological
//! order, and the ordered entries are rendered as numbered blocks of text.
//! Every stage carries a contract that pins its result down in terms of a
//! mathematical model of its input.

pub mod cli;
pub mod date;
pub mod decoder;
pub mod entry;
pub mod location;
pub mod renderer;
pub mod report;
pub mod sorter;
pub mod table;
pub mod text;
