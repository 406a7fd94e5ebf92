//! A single-user task manager's core: the command grammar and the
//! prioritised ordering of tasks.
pub mod text;
pub mod command;
pub mod parse;
pub mod chain;
pub mod error;
pub mod status;
pub mod content;
pub mod board;
pub mod laws;
pub mod grammar_laws;
pub mod session;
pub mod mode;
