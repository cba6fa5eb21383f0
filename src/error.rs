//! Error conditions of the task store.

use vstd::prelude::*;

verus! {

/// The condition raised when the dispatcher is handed a command it does not know.
#[derive(Debug, Clone, Copy, PartialEq, Eq, Structural)]
pub struct TaskerRunError {}

impl TaskerRunError {
    /// The diagnostic shown for this condition.
    pub fn message(&self) -> (r: String)
        ensures
            r@ == unknown_command_text(),
    {
        String::from_str("Error while running the Tasker - Unknown command provided!!")
    }
}

/// The diagnostic text of an unknown command.
pub open spec fn unknown_command_text() -> Seq<char> {
    "Error while running the Tasker - Unknown command provided!!"@
}

/// Why a store operation failed.
#[derive(Debug, Clone, Copy, PartialEq, Eq, Structural)]
pub enum TaskerError {
    /// `add` was given no name, or an empty one.
    MissingName,
    /// `set` or `clear` was given no id and no `all` flag.
    MissingId,
    /// An id, in a record or an option, is not an unsigned 16-bit number.
    MalformedId,
    /// The width record holds an unknown tag or a value that is not a number.
    MalformedMetadata,
    /// The store already holds the largest id, so no next id exists.
    IdExhausted,
    /// The command is none of `add`, `set`, `list`, `clear`.
    UnknownCommand,
}

} // verus!
