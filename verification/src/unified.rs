//! The minimal unified-diff strategy: strictly well-formed unified diffs
//! with correct line numbers, delegated to an off-the-shelf patch routine.
//! It is the low-fidelity fallback dialect beside the content-locating
//! strategies.

use vstd::prelude::*;

verus! {

use crate::model::DiffResult;

/// Why the patch routine rejected its input: the diff text did not parse,
/// or the parsed patch did not apply to the original. Each side carries the
/// routine's own message.
#[derive(Debug)]
pub enum PatchError {
    Parse(String),
    Apply(String),
}

/// What the patch routine produces for a given original text and diff
/// text, when it accepts them: the result depends on those two texts
/// alone.
pub uninterp spec fn unified_patch(original: Seq<char>, diff: Seq<char>) -> Option<Seq<char>>;

/// Whether the diff text parses as a patch at all; parsing depends on the
/// diff text alone.
pub uninterp spec fn unified_parse_ok(diff: Seq<char>) -> bool;

/// Relies on `diffy::Patch::from_str` and `diffy::apply`, one patch
/// routine taken as a unit: both compute from their text arguments alone,
/// so the parse outcome is named by `unified_parse_ok` and the routine's
/// outcome by `unified_patch`. The error texts come from the same crate's
/// error types.
#[verifier::external_body]
fn diffy_apply(original: &str, diff: &str) -> (r: Result<String, PatchError>)
    ensures
        match r {
            Ok(s) => unified_parse_ok(diff@) && unified_patch(original@, diff@) == Some(s@),
            Err(e) => unified_patch(original@, diff@) is None && (e is Parse <==> !unified_parse_ok(
                diff@,
            )),
        },
{
    match diffy::Patch::from_str(diff) {
        Err(e) => Err(PatchError::Parse(e.to_string())),
        Ok(patch) => match diffy::apply(original, &patch) {
            Err(e) => Err(PatchError::Apply(e.to_string())),
            Ok(s) => Ok(s),
        },
    }
}

/// `p` stands at the front of `s`.
pub open spec fn text_starts_with(s: Seq<char>, p: Seq<char>) -> bool {
    s.len() >= p.len() && s.subrange(0, p.len() as int) == p
}

/// The strategy that applies a strict unified diff as-is.
#[derive(Debug)]
pub struct UnifiedDiffStrategy {}

impl UnifiedDiffStrategy {
    pub fn new() -> (r: Self) {
        UnifiedDiffStrategy {  }
    }

    /// The usage text shown to the model for this strategy.
    pub fn get_tool_description(&self, args: &crate::prompts::ToolArgs) -> (r: String)
        ensures
            r@ == "## apply_diff\nDescription: Apply a unified diff to a file at the specified path. This tool is useful when you need to make specific modifications to a file based on a set of changes provided in unified diff format (diff -U3).\n\nParameters:\n- path: (required) The path of the file to apply the diff to (relative to the current working directory "@
                + args.cwd@
                + ")\n- diff: (required) The diff content in unified format to apply to the file.\n\nFormat Requirements:\n\n1. Header (REQUIRED):\n    ```\n    --- path/to/original/file\n    +++ path/to/modified/file\n    ```\n    - Must include both lines exactly as shown\n    - Use actual file paths\n    - NO timestamps after paths\n\n2. Hunks:\n    ```\n    @@ -lineStart,lineCount +lineStart,lineCount @@\n    -removed line\n    +added line\n    ```\n    - Each hunk starts with @@ showing line numbers for changes\n    - Format: @@ -originalStart,originalCount +newStart,newCount @@\n    - Use - for removed/changed lines\n    - Use + for new/modified lines\n    - Indentation must match exactly"@,
    {
        String::from_str(
            "## apply_diff\nDescription: Apply a unified diff to a file at the specified path. This tool is useful when you need to make specific modifications to a file based on a set of changes provided in unified diff format (diff -U3).\n\nParameters:\n- path: (required) The path of the file to apply the diff to (relative to the current working directory ",
        ).concat(args.cwd.as_str()).concat(
            ")\n- diff: (required) The diff content in unified format to apply to the file.\n\nFormat Requirements:\n\n1. Header (REQUIRED):\n    ```\n    --- path/to/original/file\n    +++ path/to/modified/file\n    ```\n    - Must include both lines exactly as shown\n    - Use actual file paths\n    - NO timestamps after paths\n\n2. Hunks:\n    ```\n    @@ -lineStart,lineCount +lineStart,lineCount @@\n    -removed line\n    +added line\n    ```\n    - Each hunk starts with @@ showing line numbers for changes\n    - Format: @@ -originalStart,originalCount +newStart,newCount @@\n    - Use - for removed/changed lines\n    - Use + for new/modified lines\n    - Indentation must match exactly",
        )
    }

    /// Apply a strict unified diff: success exactly when the patch routine
    /// accepts the diff against the original, with its output as the new
    /// content. The line hints play no part in this dialect.
    pub fn apply_diff(
        &self,
        original_content: &str,
        diff_content: &str,
        start_line: Option<usize>,
        end_line: Option<usize>,
    ) -> (r: DiffResult)
        ensures
            r is Success <==> unified_patch(original_content@, diff_content@) is Some,
            r is Success ==> Some(r->content@) == unified_patch(original_content@, diff_content@),
            r matches DiffResult::Failure { error, details } ==> details is None && (
            !unified_parse_ok(diff_content@) ==> text_starts_with(
                error@,
                "Failed to parse unified diff: "@,
            )) && (unified_parse_ok(diff_content@) ==> text_starts_with(
                error@,
                "Failed to apply unified diff: "@,
            )),
    {
        match diffy_apply(original_content, diff_content) {
            Ok(s) => DiffResult::Success { content: s },
            Err(PatchError::Parse(e)) => {
                let msg = String::from_str("Failed to parse unified diff: ").concat(e.as_str());
                proof {
                    assert(msg@.subrange(0, "Failed to parse unified diff: "@.len() as int)
                        =~= "Failed to parse unified diff: "@);
                }
                DiffResult::Failure { error: msg, details: None }
            },
            Err(PatchError::Apply(e)) => {
                let msg = String::from_str("Failed to apply unified diff: ").concat(e.as_str());
                proof {
                    assert(msg@.subrange(0, "Failed to apply unified diff: "@.len() as int)
                        =~= "Failed to apply unified diff: "@);
                }
                DiffResult::Failure { error: msg, details: None }
            },
        }
    }
}

impl Default for UnifiedDiffStrategy {
    fn default() -> (r: Self)
        ensures
            r == (UnifiedDiffStrategy {  }),
    {
        UnifiedDiffStrategy {  }
    }
}

} // verus!
