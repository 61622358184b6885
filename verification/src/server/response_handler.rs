//! The text sent back for the result of a command.
use super::command_registry::{command_error_text, CommandError, CommandResult};
use crate::text::concat2;
use vstd::prelude::*;

verus! {

/// The reply to a command: its text, or `Error: ` and the error (an
/// execution error by its own message).
pub open spec fn response_text(r: CommandResult) -> Seq<char> {
    match r {
        Ok(m) => m@,
        Err(CommandError::ExecutionError(m)) => "Error: "@ + m@,
        Err(e) => "Error: "@ + command_error_text(e),
    }
}

/// The reply to the result of a command.
pub fn format_response(result: CommandResult) -> (s: String)
    ensures
        s@ == response_text(result),
{
    match result {
        Ok(msg) => msg,
        Err(CommandError::ExecutionError(m)) => concat2("Error: ", m.as_str()),
        Err(e) => {
            let t = e.message();
            concat2("Error: ", t.as_str())
        },
    }
}

} // verus!
