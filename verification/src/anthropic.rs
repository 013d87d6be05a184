//! The model client's message shape.

use vstd::prelude::*;

verus! {

/// One chat message: its role and its text.
#[derive(Debug)]
pub struct Message {
    pub role: String,
    pub content: String,
}

} // verus!
