//! What the tool-description renderers consume: the caller's working
//! directory and the plain parts of its tool configuration.

use vstd::prelude::*;

verus! {

/// The user's preferred language for custom instructions.
#[derive(Debug)]
pub struct PreferredLanguage {
    pub preferred_language: Option<String>,
}

/// The plain context a tool description is rendered against.
#[derive(Debug)]
pub struct ToolArgs {
    pub cwd: String,
    pub supports_computer_use: bool,
    pub browser_viewport_size: Option<String>,
}

} // verus!
