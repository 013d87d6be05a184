// The diff engine end to end: the three strategies, the search and edit
// pipeline, and the merge-backend escalation.

use cline_core::distance::CONFIDENCE_SCALE;
use cline_core::edit::{apply_context_matching, apply_edit, MergeBackend, NoMerge};
use cline_core::model::{Change, ChangeType, DiffResult, Hunk};
use cline_core::new_unified::NewUnifiedDiffStrategy;
use cline_core::search_replace::SearchReplaceDiffStrategy;
use cline_core::unified::UnifiedDiffStrategy;

fn lines_of(s: &str) -> Vec<String> {
    s.lines().map(String::from).collect()
}

#[test]
fn test_search_replace_exact_window() {
    // a search block whose text matches a window exactly: the replacement
    // stands verbatim in its place, everything around unchanged
    let strategy = SearchReplaceDiffStrategy::new(None, None);
    let diff = "<<<<<<< SEARCH\nb\n=======\nB\n>>>>>>> REPLACE";
    let result = strategy.apply_diff("a\nb\nc\n", diff, None, None);
    match result {
        DiffResult::Success { content } => assert_eq!(content, "a\nB\nc"),
        DiffResult::Failure { error, .. } => panic!("expected success, got: {}", error),
    }
}

#[test]
fn test_search_replace_normalized_window() {
    // whitespace differences collapse away before scoring
    let strategy = SearchReplaceDiffStrategy::new(None, None);
    let diff = "<<<<<<< SEARCH\nlet  x =  1;\n=======\nlet x = 2;\n>>>>>>> REPLACE";
    let result = strategy.apply_diff("start\nlet x = 1;\nend\n", diff, None, None);
    match result {
        DiffResult::Success { content } => assert_eq!(content, "start\nlet x = 2;\nend"),
        DiffResult::Failure { error, .. } => panic!("expected success, got: {}", error),
    }
}

#[test]
fn test_search_replace_missing_separator() {
    // a malformed block is a diagnosed failure, never a panic or success
    let strategy = SearchReplaceDiffStrategy::new(None, None);
    let diff = "<<<<<<< SEARCH\nb\n>>>>>>> REPLACE";
    let result = strategy.apply_diff("a\nb\nc\n", diff, None, None);
    match result {
        DiffResult::Failure { error, details } => {
            assert_eq!(
                error,
                "Invalid diff format - missing required SEARCH/REPLACE sections"
            );
            assert!(error.contains("SEARCH/REPLACE sections"));
            assert!(details.is_none());
        }
        DiffResult::Success { .. } => panic!("malformed block must not succeed"),
    }
}

#[test]
fn test_search_replace_empty_search_range_mismatch() {
    // an empty search with differing line hints names the exact rule
    let strategy = SearchReplaceDiffStrategy::new(None, None);
    let diff = "<<<<<<< SEARCH\n\n=======\nX\n>>>>>>> REPLACE";
    let result = strategy.apply_diff("a\nb\n", diff, Some(2), Some(5));
    match result {
        DiffResult::Failure { error, .. } => {
            assert_eq!(
                error,
                "Empty search content requires start_line and end_line to be the same (got 2-5)"
            );
        }
        DiffResult::Success { .. } => panic!("mismatched hints must not succeed"),
    }
}

#[test]
fn test_search_replace_empty_search_no_start() {
    let strategy = SearchReplaceDiffStrategy::new(None, None);
    let diff = "<<<<<<< SEARCH\n\n=======\nX\n>>>>>>> REPLACE";
    let result = strategy.apply_diff("a\nb\n", diff, None, None);
    match result {
        DiffResult::Failure { error, .. } => {
            assert_eq!(
                error,
                "Empty search content requires start_line to be specified"
            );
        }
        DiffResult::Success { .. } => panic!("missing hints must not succeed"),
    }
}

#[test]
fn test_search_replace_empty_search_insertion() {
    // equal hints insert the replacement at that line
    let strategy = SearchReplaceDiffStrategy::new(None, None);
    let diff = "<<<<<<< SEARCH\n\n=======\nX\n>>>>>>> REPLACE";
    let result = strategy.apply_diff("a\nb\nc\n", diff, Some(2), Some(2));
    match result {
        DiffResult::Success { content } => assert_eq!(content, "a\nX\nb\nc"),
        DiffResult::Failure { error, .. } => panic!("expected insertion, got: {}", error),
    }
}

#[test]
fn test_search_replace_invalid_range() {
    let strategy = SearchReplaceDiffStrategy::new(None, None);
    let diff = "<<<<<<< SEARCH\nb\n=======\nB\n>>>>>>> REPLACE";
    let result = strategy.apply_diff("a\nb\n", diff, Some(9), Some(9));
    match result {
        DiffResult::Failure { error, .. } => {
            assert_eq!(error, "Line range 9-9 is invalid (file has 2 lines)");
        }
        DiffResult::Success { .. } => panic!("out-of-range hints must not succeed"),
    }
}

#[test]
fn test_search_replace_no_match_details() {
    let strategy = SearchReplaceDiffStrategy::new(None, None);
    let diff = "<<<<<<< SEARCH\nzebra\n=======\nZ\n>>>>>>> REPLACE";
    let result = strategy.apply_diff("a\nb\nc\n", diff, None, None);
    match result {
        DiffResult::Failure { error, details } => {
            assert!(error.starts_with("No sufficiently similar match found ("));
            assert!(error.ends_with("% similar, needs 100%)"));
            let d = details.expect("no-match failure carries details");
            assert_eq!(d.threshold, Some(CONFIDENCE_SCALE));
            assert_eq!(d.search_content.as_deref(), Some("zebra"));
        }
        DiffResult::Success { .. } => panic!("unrelated search must not succeed"),
    }
}

#[test]
fn test_get_similarity_values() {
    // identical normalized strings score the whole scale; a known pair
    // scores the exact normalized Levenshtein value; the measure is
    // symmetric and stays on the scale
    assert_eq!(SearchReplaceDiffStrategy::get_similarity("a \t b", "a b"), 1000);
    assert_eq!(SearchReplaceDiffStrategy::get_similarity("", ""), 1000);
    // lev("kitten", "sitting") = 3, max length 7: (7-3)*1000/7 = 571
    assert_eq!(SearchReplaceDiffStrategy::get_similarity("kitten", "sitting"), 571);
    let ab = SearchReplaceDiffStrategy::get_similarity("alpha beta", "beta alpha");
    let ba = SearchReplaceDiffStrategy::get_similarity("beta alpha", "alpha beta");
    assert_eq!(ab, ba);
    assert!(ab <= 1000);
}

#[test]
fn test_new_unified_exact_application() {
    // a diff whose pre-image stands verbatim applies at full confidence
    let strategy = NewUnifiedDiffStrategy::new(None);
    let original = "alpha\nbeta\ngamma\ndelta\n";
    let diff = "--- a\n+++ b\n@@ ... @@\n alpha\n-beta\n+BETA\n gamma\n";
    let result = strategy.apply_diff(original, diff, None, None);
    match result {
        DiffResult::Success { content } => assert_eq!(content, "alpha\nBETA\ngamma\ndelta"),
        DiffResult::Failure { error, .. } => panic!("expected success, got: {}", error),
    }
}

#[test]
fn test_new_unified_reapply_does_not_corrupt() {
    // re-applying the same diff to its own output, where the hunk is now
    // absent, is a diagnosed failure, not a silent change
    let strategy = NewUnifiedDiffStrategy::new(None);
    let original = "alpha\nbeta\ngamma\ndelta\n";
    let diff = "--- a\n+++ b\n@@ ... @@\n alpha\n-beta\n+BETA\n gamma\n";
    let first = strategy.apply_diff(original, diff, None, None);
    let content = match first {
        DiffResult::Success { content } => content,
        DiffResult::Failure { error, .. } => panic!("expected success, got: {}", error),
    };
    let second = strategy.apply_diff(&content, diff, None, None);
    match second {
        DiffResult::Failure { .. } => {}
        DiffResult::Success { .. } => panic!("an absent hunk must not apply again"),
    }
}

#[test]
fn test_new_unified_no_hunks() {
    let strategy = NewUnifiedDiffStrategy::new(None);
    let result = strategy.apply_diff("a\n", "no markers here\n", None, None);
    match result {
        DiffResult::Failure { error, .. } => {
            assert!(error.contains("No hunks found in diff"));
        }
        DiffResult::Success { .. } => panic!("a diff without hunks must not succeed"),
    }
}

#[test]
fn test_new_unified_unique_change_large_file() {
    // 0 lines of context on a 3-line unique change in a 1000+-line file
    let mut original = String::new();
    for i in 0..500 {
        original.push_str(&format!("filler line number {}\n", i));
    }
    original.push_str("unique alpha anchor\nunique beta anchor\nunique gamma anchor\n");
    for i in 500..1100 {
        original.push_str(&format!("filler line number {}\n", i));
    }
    let diff = "@@ ... @@\n-unique alpha anchor\n-unique beta anchor\n-unique gamma anchor\n+replaced one\n+replaced two\n+replaced three\n";
    let strategy = NewUnifiedDiffStrategy::new(None);
    let result = strategy.apply_diff(&original, diff, None, None);
    match result {
        DiffResult::Success { content } => {
            assert!(content.contains("replaced one\nreplaced two\nreplaced three"));
            assert!(!content.contains("unique alpha anchor"));
            assert!(content.contains("filler line number 0"));
            assert!(content.contains("filler line number 1099"));
        }
        DiffResult::Failure { error, .. } => panic!("expected success, got: {}", error),
    }
}

#[test]
fn test_new_unified_ambiguous_change_fails() {
    // a repeated, only-approximate 1-line change with no context cannot be
    // located confidently in a large file
    let mut original = String::new();
    for i in 0..1200 {
        original.push_str(&format!("value = {}\n", i));
    }
    let diff = "@@ ... @@\n-value = 99999999\n+other\n";
    let strategy = NewUnifiedDiffStrategy::new(None);
    let result = strategy.apply_diff(&original, diff, None, None);
    match result {
        DiffResult::Failure { error, .. } => {
            assert!(error.starts_with("Failed to find a matching location in the file ("));
            assert!(error.contains("% confidence, needs 100%)"));
            assert!(error.contains("- Search Strategy Used: "));
            assert!(error.contains(" sub-hunks but still failed"));
            assert!(error.contains("- Not enough context lines to uniquely identify the location"));
        }
        DiffResult::Success { .. } => panic!("an ambiguous change must not apply"),
    }
}

#[test]
fn test_new_unified_hunk_splitting() {
    // the whole hunk fails on a drifted middle context line, but its
    // sub-hunks each match and the chained result equals applying them in
    // sequence
    let original = "\
c1\nc2\nc3\nOLD1\nm1\nm2\nm3\nm4\nMIDDLE-NEW\nm6\nm7\nm8\nm9\nOLD2\ne1\ne2\ne3\n";
    let diff = "\
@@ ... @@\n c1\n c2\n c3\n-OLD1\n+NEW1\n m1\n m2\n m3\n m4\n MIDDLE-OLD\n m6\n m7\n m8\n m9\n-OLD2\n+NEW2\n e1\n e2\n e3\n";
    let strategy = NewUnifiedDiffStrategy::new(None);
    let result = strategy.apply_diff(original, diff, None, None);
    match result {
        DiffResult::Success { content } => {
            assert_eq!(
                content,
                "c1\nc2\nc3\nNEW1\nm1\nm2\nm3\nm4\nMIDDLE-NEW\nm6\nm7\nm8\nm9\nNEW2\ne1\ne2\ne3"
            );
        }
        DiffResult::Failure { error, .. } => panic!("expected success, got: {}", error),
    }
}

struct SplicingBackend {}

impl MergeBackend for SplicingBackend {
    fn merge(
        &self,
        original: &Vec<String>,
        search: &Vec<String>,
        replace: &Vec<String>,
    ) -> Option<Vec<String>> {
        // reconcile by locating the pre-image and splicing the post-image,
        // the way a three-way merge resolves an unambiguous change
        let n = search.len();
        if n == 0 || n > original.len() {
            return None;
        }
        for i in 0..=original.len() - n {
            if original[i..i + n] == search[..] {
                let mut out: Vec<String> = original[..i].to_vec();
                out.extend(replace.iter().cloned());
                out.extend(original[i + n..].iter().cloned());
                return Some(out);
            }
        }
        None
    }
}

fn fallback_hunk() -> Hunk {
    Hunk {
        changes: vec![
            Change {
                change_type: ChangeType::Remove,
                content: String::from("beta"),
                indent: String::new(),
                original_line: Some(String::from("beta")),
            },
            Change {
                change_type: ChangeType::Add,
                content: String::from("BETA"),
                indent: String::new(),
                original_line: Some(String::from("BETA")),
            },
        ],
    }
}

#[test]
fn test_merge_backend_recovers_at_full_confidence() {
    // when match confidence is below the bar the escalation hands the hunk
    // to the merge backend; a merge that comes back carries the full
    // confidence and equals splicing the post-image in place
    let hunk = fallback_hunk();
    let content = lines_of("alpha\nbeta\ngamma\n");
    let backend = SplicingBackend {};
    let result = apply_edit(&backend, &hunk, &content, -1, 0, Some(1000));
    assert_eq!(result.strategy, "git-fallback");
    assert_eq!(result.confidence, CONFIDENCE_SCALE);
    assert_eq!(result.result, lines_of("alpha\nBETA\ngamma\n"));
}

#[test]
fn test_merge_backend_failure_leaves_content() {
    // a backend that cannot merge leaves the content unchanged at zero
    let hunk = fallback_hunk();
    let content = lines_of("alpha\ndrifted\ngamma\n");
    let backend = NoMerge {};
    let result = apply_edit(&backend, &hunk, &content, -1, 0, Some(1000));
    assert_eq!(result.strategy, "git-fallback");
    assert_eq!(result.confidence, 0);
    assert_eq!(result.result, content);
}

#[test]
fn test_context_matching_reconstruction() {
    let hunk = Hunk {
        changes: vec![
            Change {
                change_type: ChangeType::Context,
                content: String::from("alpha"),
                indent: String::new(),
                original_line: Some(String::from("alpha")),
            },
            Change {
                change_type: ChangeType::Remove,
                content: String::from("beta"),
                indent: String::new(),
                original_line: Some(String::from("beta")),
            },
            Change {
                change_type: ChangeType::Add,
                content: String::from("BETA"),
                indent: String::from("  "),
                original_line: Some(String::from("  BETA")),
            },
        ],
    };
    let content = lines_of("alpha\nbeta\ngamma\n");
    let result = apply_context_matching(&hunk, &content, 0);
    assert_eq!(result.strategy, "context");
    assert_eq!(result.confidence, CONFIDENCE_SCALE);
    assert_eq!(result.result, lines_of("alpha\n  BETA\ngamma\n"));
}

#[test]
fn test_unified_strategy_applies_strict_diff() {
    // the off-the-shelf patch routine accepts a well-formed diff with
    // correct line numbers
    let strategy = UnifiedDiffStrategy::new();
    let original = "line1\nline2\nline3\n";
    let diff = "--- a/f\n+++ b/f\n@@ -1,3 +1,3 @@\n line1\n-line2\n+LINE2\n line3\n";
    let result = strategy.apply_diff(original, diff, None, None);
    match result {
        DiffResult::Success { content } => assert_eq!(content, "line1\nLINE2\nline3\n"),
        DiffResult::Failure { error, .. } => panic!("expected success, got: {}", error),
    }
}

#[test]
fn test_unified_strategy_rejects_garbage() {
    let strategy = UnifiedDiffStrategy::new();
    let result = strategy.apply_diff(
        "a\n",
        "--- a/f\n+++ b/f\n@@ -1,1 +1,1 @@\n-zzz\n+yyy\n",
        None,
        None,
    );
    match result {
        DiffResult::Failure { error, .. } => {
            assert!(error.starts_with("Failed to apply unified diff: "));
        }
        DiffResult::Success { .. } => panic!("a mismatched patch must not apply"),
    }
}

#[test]
fn test_strategy_facade_selection() {
    let experimental = cline_core::strategy::get_diff_strategy("any-model", None, true);
    let plain = cline_core::strategy::get_diff_strategy("any-model", None, false);
    let original = "a\nb\nc\n";
    let unified_diff = "@@ ... @@\n a\n-b\n+B\n c\n";
    match experimental.apply_diff(original, unified_diff, None, None) {
        DiffResult::Success { content } => assert_eq!(content, "a\nB\nc"),
        DiffResult::Failure { error, .. } => panic!("expected success, got: {}", error),
    }
    let block = "<<<<<<< SEARCH\nb\n=======\nB\n>>>>>>> REPLACE";
    match plain.apply_diff(original, block, None, None) {
        DiffResult::Success { content } => assert_eq!(content, "a\nB\nc"),
        DiffResult::Failure { error, .. } => panic!("expected success, got: {}", error),
    }
}

#[test]
fn test_tool_descriptions_name_working_directory() {
    let args = cline_core::prompts::ToolArgs {
        cwd: "/work".to_string(),
        supports_computer_use: false,
        browser_viewport_size: None,
    };
    let sr = SearchReplaceDiffStrategy::new(None, None);
    assert!(sr.get_tool_description(&args).contains("working directory /work)"));
    let nu = NewUnifiedDiffStrategy::new(None);
    assert!(nu.get_tool_description(&args).contains("File path relative to /work"));
    let u = UnifiedDiffStrategy::new();
    assert!(u.get_tool_description(&args).contains("working directory /work)"));
}

#[test]
fn test_search_replace_hinted_window_accepted() {
    // a hinted range whose window matches is taken without scanning
    let strategy = SearchReplaceDiffStrategy::new(None, None);
    let diff = "<<<<<<< SEARCH\nb\n=======\nB\n>>>>>>> REPLACE";
    let result = strategy.apply_diff("a\nb\nc\n", diff, Some(2), Some(2));
    match result {
        DiffResult::Success { content } => assert_eq!(content, "a\nB\nc"),
        DiffResult::Failure { error, .. } => panic!("expected success, got: {}", error),
    }
}

#[test]
fn test_new_unified_apply_parsed_pipeline() {
    // the parse and apply halves compose to the same outcome
    let strategy = NewUnifiedDiffStrategy::new(None);
    let parsed = strategy.parse_unified_diff("@@ ... @@\n a\n-b\n+B\n c\n");
    assert_eq!(parsed.hunks.len(), 1);
    let backend = NoMerge {};
    let result = strategy.apply_parsed(&backend, &parsed, "a\nb\nc\n", None, None);
    match result {
        DiffResult::Success { content } => assert_eq!(content, "a\nB\nc"),
        DiffResult::Failure { error, .. } => panic!("expected success, got: {}", error),
    }
}
