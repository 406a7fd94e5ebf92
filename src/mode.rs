//! What the command line of the interface is in the middle of.
use vstd::prelude::*;
use crate::command::HomeCommand;

verus! {

/// Whether a command has been read and waits to be carried out.
pub enum ParsingMode<T> {
    Idle,
    Parsing(T),
}

impl<T> Default for ParsingMode<T> {
    fn default() -> (r: ParsingMode<T>)
        ensures
            r is Idle,
    {
        ParsingMode::Idle
    }
}

/// The view the command line serves, with its parsing state.
pub enum CommandMode {
    Home(ParsingMode<HomeCommand>),
}

/// The text typed so far and the mode of the command line.
pub struct CommandState {
    pub text: String,
    pub command_mode: CommandMode,
}

impl Default for CommandState {
    fn default() -> (r: CommandState)
        ensures
            r.text@.len() == 0,
            r.command_mode matches CommandMode::Home(ParsingMode::Idle),
    {
        CommandState {
            text: String::new(),
            command_mode: CommandMode::Home(ParsingMode::default()),
        }
    }
}

} // verus!
