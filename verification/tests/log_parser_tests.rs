//! Tests of the lint-log parser and the severity order.

use lazyoav::log_parser::{parse_lint_log, LintError, Severity};

#[test]
fn spectral_stylish_multi_error() {
    let input = "\
/path/to/spec.yaml
  2:6   warning  info-contact       Info object should contain `contact` object.
 10:3   error    my-rule-one        Tags must have a description.                tags[0]
  5:12  error    oas3-schema        Schema should have a description.            paths./users.get

\u{2716} 3 problems (2 errors, 1 warning, 0 infos, 0 hints)
";
    let errors = parse_lint_log(input);
    assert_eq!(errors.len(), 3);

    assert_eq!(errors[0].line, 2);
    assert_eq!(errors[0].col, 6);
    assert_eq!(errors[0].severity, Severity::Warning);
    assert_eq!(errors[0].rule, "info-contact");
    assert_eq!(errors[0].message, "Info object should contain `contact` object.");
    assert_eq!(errors[0].json_path, None);

    assert_eq!(errors[1].line, 10);
    assert_eq!(errors[1].col, 3);
    assert_eq!(errors[1].severity, Severity::Error);
    assert_eq!(errors[1].rule, "my-rule-one");
    assert_eq!(errors[1].message, "Tags must have a description.");
    assert_eq!(errors[1].json_path.as_deref(), Some("tags[0]"));

    assert_eq!(errors[2].line, 5);
    assert_eq!(errors[2].col, 12);
    assert_eq!(errors[2].severity, Severity::Error);
    assert_eq!(errors[2].json_path.as_deref(), Some("paths./users.get"));
}

#[test]
fn redocly_stylish() {
    let input = "\
/home/user/api.yaml
  1:1   warning  no-empty-servers   Servers list should not be empty.
 42:5   error    operation-summary  Operation must have a summary.              /paths/~1pets/get

\u{2716} 2 problems (1 error, 1 warning, 0 infos, 0 hints)
";
    let errors = parse_lint_log(input);
    assert_eq!(errors.len(), 2);

    assert_eq!(errors[0].severity, Severity::Warning);
    assert_eq!(errors[0].rule, "no-empty-servers");

    assert_eq!(errors[1].severity, Severity::Error);
    assert_eq!(errors[1].line, 42);
    assert_eq!(errors[1].col, 5);
    assert_eq!(errors[1].json_path.as_deref(), Some("/paths/~1pets/get"));
}

#[test]
fn line_without_json_path() {
    let input = "  3:1  warning  some-rule  This is a message without a path.\n";
    let full = format!("/spec.yaml\n{input}");
    let errors = parse_lint_log(&full);
    assert_eq!(errors.len(), 1);
    assert_eq!(errors[0].message, "This is a message without a path.");
    assert_eq!(errors[0].json_path, None);
}

#[test]
fn line_with_json_path() {
    let input = "/spec.yaml\n  7:14  error  path-rule  Must be valid.  paths./foo.bar\n";
    let errors = parse_lint_log(input);
    assert_eq!(errors.len(), 1);
    assert_eq!(errors[0].message, "Must be valid.");
    assert_eq!(errors[0].json_path.as_deref(), Some("paths./foo.bar"));
}

#[test]
fn parse_empty_input() {
    assert!(parse_lint_log("").is_empty());
}

#[test]
fn garbage_input() {
    let garbage = "this is not lint output\nrandom text\n\n";
    assert!(parse_lint_log(garbage).is_empty());
}

#[test]
fn summary_line_skipped() {
    let input = "\u{2716} 5 problems (3 errors, 2 warnings, 0 infos, 0 hints)\n";
    assert!(parse_lint_log(input).is_empty());
}

#[test]
fn severity_ordering() {
    assert!(Severity::Error > Severity::Warning);
    assert!(Severity::Warning > Severity::Info);
    assert!(Severity::Info > Severity::Hint);
    assert!(Severity::Error > Severity::Hint);
}

#[test]
fn severity_display() {
    assert_eq!(Severity::Error.as_str(), "error");
    assert_eq!(Severity::Warning.as_str(), "warning");
    assert_eq!(Severity::Info.as_str(), "info");
    assert_eq!(Severity::Hint.as_str(), "hint");
}

#[test]
fn unknown_severity_defaults_to_warning() {
    let input = "/spec.yaml\n  1:1  banana  some-rule  A message.\n";
    let errors = parse_lint_log(input);
    assert_eq!(errors.len(), 1);
    assert_eq!(errors[0].severity, Severity::Warning);
}

#[test]
fn info_and_hint_severities() {
    let input = "\
/spec.yaml
  1:1  info       info-rule   Info level finding.
  2:1  hint       hint-rule   Hint level finding.
  3:1  information info-rule2 Another info finding.
";
    let errors = parse_lint_log(input);
    assert_eq!(errors.len(), 3);
    assert_eq!(errors[0].severity, Severity::Info);
    assert_eq!(errors[1].severity, Severity::Hint);
    assert_eq!(errors[2].severity, Severity::Info);
}

// ---- the parser's totality and counting ----

#[test]
fn mixed_input_scenario() {
    // File headers, two entries (one with a trailing JSON pointer, one
    // without), a blank line, and a summary line.
    let input = "\
/work/openapi.yaml
  3:5   error    operation-summary  Operation must have a summary.  /paths/~1pets/get
  9:1   warning  info-contact       Info object should contain `contact` object.

\u{2716} 2 problems (1 error, 1 warning, 0 infos, 0 hints)
";
    let errors = parse_lint_log(input);
    assert_eq!(errors.len(), 2);
    assert_eq!(errors[0].json_path.as_deref(), Some("/paths/~1pets/get"));
    assert_eq!(errors[1].json_path, None);
}

#[test]
fn malformed_entries_are_skipped() {
    let input = "/spec.yaml\n  not-a-location  error  rule  message\n  5:5  error  ok-rule  fine\n";
    let errors = parse_lint_log(input);
    assert_eq!(errors.len(), 1);
    assert_eq!(errors[0].rule, "ok-rule");
}

#[test]
fn severity_rank_order() {
    assert_eq!(Severity::Error.rank(), 3);
    assert_eq!(Severity::Warning.rank(), 2);
    assert_eq!(Severity::Info.rank(), 1);
    assert_eq!(Severity::Hint.rank(), 0);
}

#[test]
fn severity_from_str_lossy_cases() {
    assert_eq!(Severity::from_str_lossy("ERROR"), Severity::Error);
    assert_eq!(Severity::from_str_lossy("Information"), Severity::Info);
    assert_eq!(Severity::from_str_lossy("hint"), Severity::Hint);
    assert_eq!(Severity::from_str_lossy("???"), Severity::Warning);
}

#[test]
fn entry_with_no_message() {
    let input = "/spec.yaml\n  1:2  error  lonely-rule\n";
    let errors = parse_lint_log(input);
    assert_eq!(errors.len(), 1);
    assert_eq!(
        errors[0],
        LintError {
            line: 1,
            col: 2,
            severity: Severity::Error,
            rule: "lonely-rule".to_string(),
            message: String::new(),
            json_path: None,
        }
    );
}
