//! The strategy facade: the closed set of diff dialects behind one
//! capability interface, selected at construction time by caller
//! configuration.

use vstd::prelude::*;

verus! {

use crate::model::DiffResult;
use crate::new_unified::{NewUnifiedDiffStrategy, diff_has_hunks, no_hunks_text};
use crate::prompts::ToolArgs;
use crate::search_replace::{SearchReplaceDiffStrategy, sr_parse};
use crate::unified::{UnifiedDiffStrategy, unified_patch};

/// One of the diff dialects the engine speaks.
#[derive(Debug)]
pub enum DiffStrategy {
    SearchReplace(SearchReplaceDiffStrategy),
    Unified(UnifiedDiffStrategy),
    NewUnified(NewUnifiedDiffStrategy),
}

/// The strategy a caller's configuration selects: the content-locating
/// unified dialect when the experimental engine is asked for, the marked
/// block-replace dialect otherwise.
pub fn get_diff_strategy(
    model: &str,
    fuzzy_match_threshold: Option<u32>,
    experimental_diff_strategy: bool,
) -> (r: DiffStrategy)
    ensures
        experimental_diff_strategy ==> (r matches DiffStrategy::NewUnified(s)
            && s.confidence_threshold == match fuzzy_match_threshold {
            Some(t) => if t >= 800 {
                t as int
            } else {
                800
            },
            None => 1000,
        }),
        !experimental_diff_strategy ==> (r matches DiffStrategy::SearchReplace(s)
            && s.fuzzy_threshold == match fuzzy_match_threshold {
            Some(t) => t as int,
            None => 1000,
        } && s.buffer_lines == crate::search_replace::BUFFER_LINES),
{
    if experimental_diff_strategy {
        DiffStrategy::NewUnified(NewUnifiedDiffStrategy::new(fuzzy_match_threshold))
    } else {
        DiffStrategy::SearchReplace(
            SearchReplaceDiffStrategy::new(fuzzy_match_threshold, None),
        )
    }
}

impl DiffStrategy {
    /// Apply a diff in this dialect; each dialect keeps its own contract,
    /// and two of its promises surface here: a marked block that does not
    /// parse is the exact diagnosed failure, and the strict dialect
    /// succeeds exactly when the patch routine accepts its input.
    pub fn apply_diff(
        &self,
        original_content: &str,
        diff_content: &str,
        start_line: Option<usize>,
        end_line: Option<usize>,
    ) -> (r: DiffResult)
        ensures
            (self is SearchReplace && sr_parse(diff_content@) is None) ==> (r matches
                DiffResult::Failure { error, details } && error@
                == "Invalid diff format - missing required SEARCH/REPLACE sections"@),
            self is Unified ==> (r is Success <==> unified_patch(
                original_content@,
                diff_content@,
            ) is Some),
            self is NewUnified ==> (!diff_has_hunks(diff_content@) <==> (r matches
                DiffResult::Failure { error, details } && error@ == no_hunks_text()
                && details is None)),
    {
        match self {
            DiffStrategy::SearchReplace(s) => s.apply_diff(
                original_content,
                diff_content,
                start_line,
                end_line,
            ),
            DiffStrategy::Unified(s) => s.apply_diff(
                original_content,
                diff_content,
                start_line,
                end_line,
            ),
            DiffStrategy::NewUnified(s) => s.apply_diff(
                original_content,
                diff_content,
                start_line,
                end_line,
            ),
        }
    }

    /// The usage text of the selected dialect.
    pub fn get_tool_description(&self, args: &ToolArgs) -> (r: String)
    {
        match self {
            DiffStrategy::SearchReplace(s) => s.get_tool_description(args),
            DiffStrategy::Unified(s) => s.get_tool_description(args),
            DiffStrategy::NewUnified(s) => s.get_tool_description(args),
        }
    }
}

} // verus!
