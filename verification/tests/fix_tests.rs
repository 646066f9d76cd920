//! Tests of the fix engine: indent detection, block scanning, context
//! gathering, the rule generators and application.

use lazyoav::fix::{
    apply_fix, detect_child_indent, gather_context, last_child_line, propose_fix,
    propose_info_contact, propose_info_license, propose_operation_description,
    propose_operation_summary, FixProposal,
};
use lazyoav::log_parser::{LintError, Severity};
use lazyoav::specindex::parse_spec;

fn make_error(rule: &str, json_path: Option<&str>) -> LintError {
    LintError {
        line: 1,
        col: 0,
        severity: Severity::Error,
        rule: rule.into(),
        message: format!("{rule} message"),
        json_path: json_path.map(String::from),
    }
}

fn petstore_yaml() -> &'static str {
    "\
openapi: 3.0.0
info:
  title: Pet Store
  version: '1.0'
paths:
  /pets:
    get:
      operationId: listPets
      tags:
        - pets
      responses:
        '200':
          description: OK
"
}

fn to_lines(text: &str) -> Vec<String> {
    text.lines().map(String::from).collect()
}

#[test]
fn detect_child_indent_normal() {
    let lines = to_lines(petstore_yaml());
    // info: is line 2 (1-based), children are indented with 2 spaces.
    assert_eq!(detect_child_indent(&lines, 2), "  ");
}

#[test]
fn detect_child_indent_deeper() {
    let lines = to_lines(petstore_yaml());
    // get: is line 7 (1-based), children are indented with 6 spaces.
    assert_eq!(detect_child_indent(&lines, 7), "      ");
}

#[test]
fn detect_child_indent_fallback() {
    let lines = vec!["leaf_key: value".to_string()];
    // No children, so fallback = parent indent (0) + 2.
    assert_eq!(detect_child_indent(&lines, 1), "  ");
}

#[test]
fn last_child_line_info_block() {
    let lines = to_lines(petstore_yaml());
    // info: is line 2, its children are title (3) and version (4).
    assert_eq!(last_child_line(&lines, 2), 4);
}

#[test]
fn last_child_line_leaf() {
    let lines = to_lines(petstore_yaml());
    // openapi: is line 1, no children.
    assert_eq!(last_child_line(&lines, 1), 1);
}

#[test]
fn gather_context_normal() {
    let lines: Vec<String> = (1..=10).map(|i| format!("line{i}")).collect();
    let (before, after) = gather_context(&lines, 5, 2);
    assert_eq!(before, vec!["line3".to_string(), "line4".to_string()]);
    assert_eq!(after, vec!["line5".to_string(), "line6".to_string()]);
}

#[test]
fn gather_context_clamps_at_start() {
    let lines: Vec<String> = (1..=5).map(|i| format!("line{i}")).collect();
    let (before, after) = gather_context(&lines, 1, 3);
    assert_eq!(before, Vec::<String>::new());
    assert_eq!(
        after,
        vec!["line1".to_string(), "line2".to_string(), "line3".to_string()]
    );
}

#[test]
fn gather_context_clamps_at_end() {
    let lines: Vec<String> = (1..=5).map(|i| format!("line{i}")).collect();
    let (before, after) = gather_context(&lines, 5, 3);
    assert_eq!(
        before,
        vec!["line2".to_string(), "line3".to_string(), "line4".to_string()]
    );
    assert_eq!(after, vec!["line5".to_string()]);
}

#[test]
fn propose_operation_summary_generates_fix() {
    let lines = to_lines(petstore_yaml());
    let index = parse_spec(petstore_yaml());
    let error = make_error("operation-summary", Some("/paths/~1pets/get"));

    let proposal = propose_operation_summary(&error, &index, &lines).unwrap();
    assert_eq!(proposal.rule, "operation-summary");
    assert_eq!(proposal.target_line, 7); // after `get:`
    assert_eq!(proposal.inserted.len(), 1);
    assert!(proposal.inserted[0].contains("summary:"));
    assert!(proposal.inserted[0].contains("listPets"));
}

#[test]
fn propose_operation_description_generates_fix() {
    let lines = to_lines(petstore_yaml());
    let index = parse_spec(petstore_yaml());
    let error = make_error("operation-description", Some("/paths/~1pets/get"));

    let proposal = propose_operation_description(&error, &index, &lines).unwrap();
    assert_eq!(proposal.target_line, 7);
    assert!(proposal.inserted[0].contains("description:"));
    assert!(proposal.inserted[0].contains("listPets"));
}

#[test]
fn propose_info_contact_generates_fix() {
    let lines = to_lines(petstore_yaml());
    let index = parse_spec(petstore_yaml());
    let error = make_error("info-contact", None);

    let proposal = propose_info_contact(&error, &index, &lines).unwrap();
    assert_eq!(proposal.target_line, 4); // after last child of info
    assert_eq!(proposal.inserted.len(), 3);
    assert!(proposal.inserted[0].contains("contact:"));
    assert!(proposal.inserted[1].contains("name:"));
    assert!(proposal.inserted[2].contains("url:"));
}

#[test]
fn propose_info_license_generates_fix() {
    let lines = to_lines(petstore_yaml());
    let index = parse_spec(petstore_yaml());
    let error = make_error("info-license", None);

    let proposal = propose_info_license(&error, &index, &lines).unwrap();
    assert_eq!(proposal.target_line, 4);
    assert_eq!(proposal.inserted.len(), 2);
    assert!(proposal.inserted[0].contains("license:"));
    assert!(proposal.inserted[1].contains("name:"));
}

#[test]
fn propose_operation_summary_no_json_path_returns_none() {
    let lines = to_lines(petstore_yaml());
    let index = parse_spec(petstore_yaml());
    let error = make_error("operation-summary", None);

    assert!(propose_operation_summary(&error, &index, &lines).is_none());
}

#[test]
fn propose_operation_summary_bad_path_returns_none() {
    let lines = to_lines(petstore_yaml());
    let index = parse_spec(petstore_yaml());
    let error = make_error("operation-summary", Some("/nonexistent/path"));

    assert!(propose_operation_summary(&error, &index, &lines).is_none());
}

#[test]
fn propose_info_contact_no_info_block_returns_none() {
    let yaml = "openapi: 3.0.0\npaths: {}\n";
    let lines = to_lines(yaml);
    let index = parse_spec(yaml);
    let error = make_error("info-contact", None);

    assert!(propose_info_contact(&error, &index, &lines).is_none());
}

#[test]
fn operation_summary_without_operation_id_uses_method() {
    let yaml = "\
openapi: 3.0.0
info:
  title: Test
  version: '1.0'
paths:
  /pets:
    get:
      tags:
        - pets
";
    let lines = to_lines(yaml);
    let index = parse_spec(yaml);
    let error = make_error("operation-summary", Some("/paths/~1pets/get"));

    let proposal = propose_operation_summary(&error, &index, &lines).unwrap();
    // Without operationId, the HTTP method stands in.
    assert!(proposal.inserted[0].contains("get summary"));
}

#[test]
fn propose_fix_returns_none_for_unknown_rule() {
    let raw = "openapi: 3.0.0\n";
    let lines = to_lines(raw);
    let index = parse_spec(raw);
    let error = make_error("unknown-rule", None);
    assert!(propose_fix(&error, &index, &lines).is_none());
}

#[test]
fn propose_fix_dispatches_by_rule() {
    let lines = to_lines(petstore_yaml());
    let index = parse_spec(petstore_yaml());
    let error = make_error("operation-summary", Some("/paths/~1pets/get"));
    let proposal = propose_fix(&error, &index, &lines).unwrap();
    assert_eq!(proposal.target_line, 7);
    assert!(proposal.inserted[0].contains("summary:"));
}

// ---- apply_fix ----

fn make_proposal(target_line: usize, inserted: Vec<&str>) -> FixProposal {
    FixProposal {
        rule: "test-rule".into(),
        description: "test fix".into(),
        target_line,
        context_before: vec![],
        inserted: inserted.into_iter().map(String::from).collect(),
        context_after: vec![],
    }
}

#[test]
fn apply_fix_inserts_after_target_line() {
    let content = "line1\nline2\nline3\n";
    let proposal = make_proposal(2, vec!["  inserted_a", "  inserted_b"]);
    let result = apply_fix(content, &proposal).unwrap();
    let result_lines: Vec<&str> = result.lines().collect();
    assert_eq!(
        result_lines,
        vec!["line1", "line2", "  inserted_a", "  inserted_b", "line3"]
    );
}

#[test]
fn apply_fix_at_end_of_file() {
    let content = "line1\nline2\n";
    let proposal = make_proposal(2, vec!["  appended"]);
    let result = apply_fix(content, &proposal).unwrap();
    let result_lines: Vec<&str> = result.lines().collect();
    assert_eq!(result_lines, vec!["line1", "line2", "  appended"]);
}

#[test]
fn apply_fix_preserves_trailing_newline() {
    let content = "line1\nline2\n";
    let proposal = make_proposal(1, vec!["  new"]);
    let result = apply_fix(content, &proposal).unwrap();
    assert!(result.ends_with('\n'));
}

#[test]
fn apply_fix_no_trailing_newline_stays_without() {
    let content = "line1\nline2";
    let proposal = make_proposal(1, vec!["  new"]);
    let result = apply_fix(content, &proposal).unwrap();
    assert!(!result.ends_with('\n'));
    assert_eq!(result, "line1\n  new\nline2");
}

#[test]
fn apply_fix_target_beyond_file_errors() {
    let content = "line1\n";
    let proposal = make_proposal(99, vec!["  bad"]);
    assert!(apply_fix(content, &proposal).is_err());
}

#[test]
fn apply_fix_normalizes_crlf_endings() {
    let content = "a: 1\r\nb: 2\r\n";
    let proposal = make_proposal(1, vec!["c: 3"]);
    let result = apply_fix(content, &proposal).unwrap();
    assert_eq!(result, "a: 1\nc: 3\nb: 2\n");
}

#[test]
fn apply_fix_adds_exactly_the_inserted_lines() {
    // One inserted line: the file keeps its trailing newline and gains
    // exactly one line.
    let content = "a: 1\nb: 2\n";
    let proposal = make_proposal(1, vec!["c: 3"]);
    let result = apply_fix(content, &proposal).unwrap();
    assert!(result.ends_with('\n'));
    assert_eq!(result.lines().count(), content.lines().count() + 1);
    assert_eq!(result, "a: 1\nc: 3\nb: 2\n");
}
