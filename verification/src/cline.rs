//! Vocabulary of the agent task loop: tool names, ask responses, and the
//! short error texts the loop hands back.

use vstd::prelude::*;

verus! {

/// The tools the loop can be asked to run.
#[derive(Clone, Copy, PartialEq, Eq, Structural, Debug)]
pub enum ToolUseName {
    ExecuteCommand,
    WriteToFile,
    ReadFile,
}

impl ToolUseName {
    /// The tool's readable name.
    pub fn to_text(&self) -> (r: String)
        ensures
            r@ == match self {
                ToolUseName::ExecuteCommand => "execute command"@,
                ToolUseName::WriteToFile => "write to file"@,
                ToolUseName::ReadFile => "read file"@,
            },
    {
        match self {
            ToolUseName::ExecuteCommand => String::from_str("execute command"),
            ToolUseName::WriteToFile => String::from_str("write to file"),
            ToolUseName::ReadFile => String::from_str("read file"),
        }
    }
}

/// How the user answered an ask.
#[derive(Clone, Copy, PartialEq, Eq, Structural, Debug)]
pub enum AskResponse {
    YesButtonClicked,
    NoButtonClicked,
    MessageResponse,
}

/// A tool failure, prefixed for the model.
pub fn tool_error(msg: String) -> (r: String)
    ensures
        r@ == "Tool execution error: "@ + msg@,
{
    String::from_str("Tool execution error: ").concat(msg.as_str())
}

/// A missing required parameter, named for the model.
pub fn missing_tool_parameter_error(param_name: &str) -> (r: String)
    ensures
        r@ == "Missing required parameter: "@ + param_name@,
{
    String::from_str("Missing required parameter: ").concat(param_name)
}

} // verus!
