//! External tool-server configuration and resource types: plain data the
//! hub reads from its settings file and hands around.

use vstd::prelude::*;

verus! {

/// Connection state of a server.
#[derive(Clone, Copy, PartialEq, Eq, Structural, Debug)]
pub enum McpServerStatus {
    Connecting,
    Connected,
    Disconnected,
}

/// A resource a server offers, with its fetched content.
#[derive(Debug)]
pub struct McpResource {
    pub uri: String,
    pub name: String,
    pub description: String,
    pub content: String,
}

/// A parameterized resource a server offers.
#[derive(Debug)]
pub struct McpResourceTemplate {
    pub uri_template: String,
    pub name: String,
    pub description: String,
}

/// How a server process is started: its command, arguments, environment
/// (as key/value pairs in order), and limits.
#[derive(Debug)]
pub struct StdioConfig {
    pub command: String,
    pub args: Option<Vec<String>>,
    pub env: Option<Vec<(String, String)>>,
    pub always_allow: Option<Vec<String>>,
    pub disabled: Option<bool>,
    pub timeout: Option<u32>,
}

/// The settings file's content: servers by name, in order, each name
/// standing once.
#[derive(Debug)]
pub struct McpSettings {
    pub mcp_servers: Vec<(String, StdioConfig)>,
}

} // verus!
