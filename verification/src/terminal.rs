//! Terminal management: the interface an editor integration implements,
//! and the plain data it trades in.

use vstd::prelude::*;

verus! {

/// What a terminal integration offers the agent loop. Implementations
/// live with the embedding editor; errors travel as text.
pub trait TerminalManager {
    fn dispose_all(&mut self);

    fn get_or_create_terminal(&mut self, workspace_path: String) -> Result<TerminalInfo, String>;

    fn run_command(&mut self, terminal_info: TerminalInfo, command: String) -> Result<
        Process,
        String,
    >;

    fn get_unretrieved_output(&mut self, terminal_id: u32) -> Option<String>;

    fn is_process_hot(&self, process_id: u32) -> bool;

    fn get_terminals(&self, busy_only: bool) -> Vec<TerminalInfo>;
}

/// One terminal the integration manages.
#[derive(Debug)]
pub struct TerminalInfo {
    pub id: u32,
    pub last_command: String,
    pub busy: bool,
}

/// One process running in a terminal.
#[derive(Debug)]
pub struct Process {
    pub id: u32,
    pub command: String,
}

} // verus!
