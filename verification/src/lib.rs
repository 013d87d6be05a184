//! A patch-application engine for coding agents: strategies that take a
//! proposed textual edit in one of several diff dialects plus the current
//! file contents and produce a new file body, together with a quantified
//! confidence and a diagnostic on failure — and the vocabulary the
//! surrounding agent loop trades in.

pub mod ai;
pub mod anthropic;
pub mod cline;
pub mod diagnostics;
pub mod distance;
pub mod edit;
pub mod git;
pub mod mcp;
pub mod mentions;
pub mod messages;
pub mod model;
pub mod modes;
pub mod new_unified;
pub mod prompts;
pub mod responses;
pub mod search;
pub mod strategy;
pub mod search_replace;
pub mod terminal;
pub mod text;
pub mod unified;
