// Canned responses, listings, mentions, diagnostics, modes and the
// version-control reports.

use cline_core::cline;
use cline_core::diagnostics::{Diagnostic, DiagnosticSeverity, DiagnosticsProvider};
use cline_core::git::GitService;
use cline_core::mentions::{assemble_mentions, extract_mentions, should_process_mentions};
use cline_core::modes::{builtin_modes, get_mode_by_slug, get_role_definition};
use cline_core::responses::FormatResponse;

#[test]
fn test_tool_denied() {
    assert_eq!(
        FormatResponse::tool_denied(),
        "The user denied this operation."
    );
}

#[test]
fn test_tool_denied_with_feedback() {
    assert_eq!(
        FormatResponse::tool_denied_with_feedback(Some("Test feedback")),
        "The user denied this operation and provided the following feedback:\n<feedback>\nTest feedback\n</feedback>"
    );
}

#[test]
fn test_format_files_list() {
    let absolute_path = "/test/path";
    let files = vec![
        "/test/path/dir2/file2".to_string(),
        "/test/path/dir1/".to_string(),
        "/test/path/file1".to_string(),
    ];
    let result = FormatResponse::format_files_list(absolute_path, &files, false);
    assert_eq!(result, "dir1/\ndir2/file2\nfile1");
}

#[test]
fn test_format_files_list_with_limit() {
    let absolute_path = "/test/path";
    let files = vec!["/test/path/file1".to_string()];
    let result = FormatResponse::format_files_list(absolute_path, &files, true);
    assert_eq!(
        result,
        "file1\n\n(File list truncated. Use list_files on specific subdirectories if you need to explore further.)"
    );
}

#[test]
fn test_format_files_list_case_insensitive_order() {
    // ordering goes by the lowercased components
    let files = vec!["/p/Beta".to_string(), "/p/alpha".to_string()];
    let result = FormatResponse::format_files_list("/p", &files, false);
    assert_eq!(result, "alpha\nBeta");
}

#[test]
fn test_format_files_list_empty() {
    let files: Vec<String> = Vec::new();
    let result = FormatResponse::format_files_list("/p", &files, false);
    assert_eq!(result, "No files found.");
}

#[test]
fn test_create_pretty_patch() {
    let old_str = "line1\nline2\n";
    let new_str = "line1\nline3\n";
    let result =
        FormatResponse::create_pretty_patch(Some("test.txt"), Some(old_str), Some(new_str));
    assert!(result.contains("-line2"));
    assert!(result.contains("+line3"));
}

#[test]
fn test_missing_tool_parameter_error_names_parameter() {
    let msg = FormatResponse::missing_tool_parameter_error("path");
    assert!(msg.starts_with("Missing value for required parameter 'path'."));
    assert!(msg.contains("# Reminder: Instructions for Tool Use"));
}

#[test]
fn test_extract_mentions() {
    let test_cases: Vec<(&str, Vec<&str>)> = vec![
        (
            "Check #src/main.rs and #tests/test.rs\nAlso #git and #git:abc123\nAnd https://example.com",
            vec!["#src/main.rs", "#tests/test.rs", "#git", "#git:abc123", "https://example.com"],
        ),
        (
            "No mentions here",
            vec![],
        ),
        (
            "#git #git:1234567 #problems",
            vec!["#git", "#git:1234567", "#problems"],
        ),
        (
            "Multiple #urls https://example1.com https://example2.com",
            vec!["#urls", "https://example1.com", "https://example2.com"],
        ),
        (
            "#folder/with/trailing/slash/ #file/without/slash",
            vec!["#folder/with/trailing/slash/", "#file/without/slash"],
        ),
        (
            "Text with hash# but not mention",
            vec![],
        ),
    ];

    for (input, expected) in test_cases {
        let mentions = extract_mentions(input);
        assert_eq!(mentions, expected, "Failed for input: {}", input);
    }
}

#[test]
fn test_should_process_mentions() {
    let test_cases = vec![
        ("Check #src/main.rs", true),
        ("Visit https://example.com", true),
        ("No mentions here", false),
        ("#git changes", true),
        ("Multiple #mentions #here", true),
        ("Text with hash# but not mention", false),
        ("https://multiple.com http://urls.com", true),
        ("", false),
    ];

    for (input, expected) in test_cases {
        assert_eq!(
            should_process_mentions(input),
            expected,
            "Failed for input: {}",
            input
        );
    }
}

#[test]
fn test_should_process_mentions_integration() {
    assert!(should_process_mentions("Check #test.txt"));
    assert!(should_process_mentions("Check https://example.com"));
    assert!(!should_process_mentions("No mentions here"));
    assert!(should_process_mentions("#git changes"));
    assert!(should_process_mentions("Multiple #mentions #here"));
    assert!(!should_process_mentions("Text with hash# but not mention"));
}

#[test]
fn test_assemble_mentions_weaves_content() {
    let resolved = vec![(
        "#notes.txt".to_string(),
        "the notes".to_string(),
    )];
    let out = assemble_mentions("Check #notes.txt now", &resolved);
    assert_eq!(
        out,
        "Check #notes.txt (see below for content) now\n\n#notes.txt\nthe notes\n"
    );
}

#[test]
fn test_diagnostics_provider_round_trip() {
    let mut provider = DiagnosticsProvider::new();
    assert_eq!(provider.format_diagnostics(), "(No errors detected)");
    provider.add_diagnostic(
        "src/a.rs".to_string(),
        Diagnostic {
            severity: DiagnosticSeverity::Error,
            message: "broken".to_string(),
            source: Some("checker".to_string()),
            line: 3,
        },
    );
    provider.add_diagnostic(
        "src/a.rs".to_string(),
        Diagnostic {
            severity: DiagnosticSeverity::Warning,
            message: "meh".to_string(),
            source: None,
            line: 9,
        },
    );
    let got = provider.get_diagnostics("src/a.rs").expect("entry exists");
    assert_eq!(got.len(), 2);
    assert!(provider.get_diagnostics("src/b.rs").is_none());
    assert_eq!(
        provider.format_diagnostics(),
        "## src/a.rs\n- [checker] Line 3: broken"
    );
    assert_eq!(provider.get_all_diagnostics().len(), 1);
    provider.clear();
    assert_eq!(provider.format_diagnostics(), "(No errors detected)");
}

#[test]
fn test_modes_lookup() {
    let modes = builtin_modes();
    assert_eq!(modes.len(), 3);
    let code = get_mode_by_slug("code".to_string(), None).expect("code mode exists");
    assert_eq!(code.role_definition, "A general-purpose coding assistant");
    assert!(get_mode_by_slug("nonexistent".to_string(), None).is_none());
    assert_eq!(
        get_role_definition("architect", None),
        "A software architect focused on high-level design"
    );
    assert_eq!(get_role_definition("nonexistent", None), "");
}

#[test]
fn test_cline_error_texts() {
    assert_eq!(
        cline::tool_error("boom".to_string()),
        "Tool execution error: boom"
    );
    assert_eq!(
        cline::missing_tool_parameter_error("path"),
        "Missing required parameter: path"
    );
    assert_eq!(
        cline::ToolUseName::ExecuteCommand.to_text(),
        "execute command"
    );
}

#[test]
fn test_git_working_state_report() {
    let service = GitService::new();
    assert_eq!(service.format_working_state("", ""), "No git changes");
    let report = service.format_working_state(
        " M test.txt\n?? new_file.txt\n",
        "diff body",
    );
    assert!(report.starts_with("git changes:\n\n# Changed files\n"));
    assert!(report.contains("- test.txt (Modified)\n"));
    assert!(report.contains("- new_file.txt (Untracked)\n"));
    assert!(report.ends_with("\n# Detailed changes\ndiff body"));
}

#[test]
fn test_git_commit_report() {
    let service = GitService::new();
    let show = "ffff\nf1\nInitial commit\nSomeone\n2024-01-01\nbody line\n";
    let report = service.format_commit_info(show, " 1 file changed\n", "the diff\n");
    assert!(report.starts_with("Commit: f1 (ffff)\n"));
    assert!(report.contains("Author: Someone\n"));
    assert!(report.contains("Message: Initial commit\n"));
    assert!(report.contains("\nDescription:\nbody line\n"));
    assert!(report.contains("\nFiles Changed:\n 1 file changed\n"));
    assert!(report.ends_with("\nFull Changes:\nthe diff\n"));
}
