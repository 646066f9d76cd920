//! Tests of the spec indexer: key extraction, pointer assembly, path
//! normalization, parsing and context windows.

use lazyoav::specindex::{
    build_json_pointer, extract_yaml_key, normalize_to_pointer, parse_spec, SourceSpan,
};
use lazyoav::text::{chars_to_string, str_to_chars};

fn key_of(s: &str) -> Option<(String, usize)> {
    extract_yaml_key(&str_to_chars(s)).map(|ko| (chars_to_string(&ko.0), ko.1))
}

fn pointer_of(stack: &[(usize, &str)]) -> String {
    let v: Vec<(usize, Vec<char>)> = stack.iter().map(|(i, k)| (*i, str_to_chars(k))).collect();
    chars_to_string(&build_json_pointer(&v))
}

// ---- extract_yaml_key tests ----

#[test]
fn key_bare() {
    assert_eq!(key_of("paths:"), Some(("paths".into(), 0)));
}

#[test]
fn key_bare_with_value() {
    assert_eq!(key_of("title: My API"), Some(("title".into(), 0)));
}

#[test]
fn key_quoted_double() {
    assert_eq!(key_of("\"/pets\":"), Some(("/pets".into(), 0)));
}

#[test]
fn key_quoted_single() {
    assert_eq!(key_of("'/pets':"), Some(("/pets".into(), 0)));
}

#[test]
fn key_numeric() {
    assert_eq!(key_of("200:"), Some(("200".into(), 0)));
}

#[test]
fn key_array_item() {
    assert_eq!(key_of("- name: Fido"), Some(("name".into(), 2)));
}

#[test]
fn no_key_plain_value() {
    assert_eq!(key_of("just a value"), None);
}

#[test]
fn no_key_comment() {
    assert_eq!(key_of("# comment"), None);
}

// ---- build_json_pointer tests ----

#[test]
fn pointer_empty_stack() {
    assert_eq!(pointer_of(&[]), "");
}

#[test]
fn pointer_escapes_slash() {
    assert_eq!(pointer_of(&[(0, "paths"), (2, "/pets")]), "/paths/~1pets");
}

#[test]
fn pointer_escapes_tilde() {
    assert_eq!(pointer_of(&[(0, "a~b")]), "/a~0b");
}

// ---- normalize_to_pointer tests ----

#[test]
fn normalize_pointer_passthrough() {
    assert_eq!(normalize_to_pointer("/paths/~1pets"), "/paths/~1pets");
}

#[test]
fn normalize_dotted_path() {
    assert_eq!(normalize_to_pointer("paths./pets.get"), "/paths/~1pets/get");
}

#[test]
fn normalize_bracket_notation() {
    assert_eq!(normalize_to_pointer("tags[0].name"), "/tags/0/name");
}

#[test]
fn normalize_empty() {
    assert_eq!(normalize_to_pointer(""), "");
}

// ---- parse_spec integration tests ----

#[test]
fn parse_openapi_yaml() {
    let yaml = "\
openapi: 3.0.0
info:
  title: Pet Store
  version: '1.0'
paths:
  /pets:
    get:
      summary: List pets
      responses:
        '200':
          description: OK
";
    let index = parse_spec(yaml);
    assert_eq!(index.resolve("/openapi"), Some(SourceSpan { line: 1, col: 0 }));
    assert_eq!(index.resolve("/info/title"), Some(SourceSpan { line: 3, col: 2 }));
    assert_eq!(index.resolve("/paths/~1pets/get"), Some(SourceSpan { line: 7, col: 4 }));
    assert_eq!(
        index.resolve("/paths/~1pets/get/summary"),
        Some(SourceSpan { line: 8, col: 6 })
    );
    assert_eq!(
        index.resolve("/paths/~1pets/get/responses/200/description"),
        Some(SourceSpan { line: 11, col: 10 })
    );
}

#[test]
fn parse_nested_schemas() {
    let yaml = "\
components:
  schemas:
    Pet:
      type: object
      properties:
        name:
          type: string
        tag:
          type: string
";
    let index = parse_spec(yaml);
    assert_eq!(
        index.resolve("/components/schemas/Pet/properties/name"),
        Some(SourceSpan { line: 6, col: 8 })
    );
    assert_eq!(
        index.resolve("/components/schemas/Pet/properties/tag"),
        Some(SourceSpan { line: 8, col: 8 })
    );
}

#[test]
fn parse_json_format() {
    let json = r#"{
  "openapi": "3.0.0",
  "info": {
    "title": "Test",
    "version": "1.0"
  },
  "paths": {}
}"#;
    let index = parse_spec(json);
    // First line is `{`: skipped as a flow opener; "openapi" is on line 2.
    assert_eq!(index.resolve("/openapi"), Some(SourceSpan { line: 2, col: 2 }));
    assert_eq!(index.resolve("/info/title"), Some(SourceSpan { line: 4, col: 4 }));
}

#[test]
fn parse_dotted_path_resolves() {
    let yaml = "\
paths:
  /pets:
    get:
      summary: List pets
";
    let index = parse_spec(yaml);
    assert_eq!(
        index.resolve("paths./pets.get.summary"),
        Some(SourceSpan { line: 4, col: 6 })
    );
}

#[test]
fn context_window_normal() {
    let yaml = "a:\nb:\nc:\nd:\ne:\nf:\ng:\n";
    let index = parse_spec(yaml);
    let window = index.context_window(4, 2).unwrap();
    assert_eq!(window.start_line, 2);
    assert_eq!(window.target_line, 4);
    assert_eq!(
        window.lines,
        vec![
            "b:".to_string(),
            "c:".to_string(),
            "d:".to_string(),
            "e:".to_string(),
            "f:".to_string(),
        ]
    );
}

#[test]
fn context_window_clamps_start() {
    let yaml = "a:\nb:\nc:\n";
    let index = parse_spec(yaml);
    let window = index.context_window(1, 5).unwrap();
    assert_eq!(window.start_line, 1);
    assert_eq!(
        window.lines,
        vec!["a:".to_string(), "b:".to_string(), "c:".to_string()]
    );
}

#[test]
fn context_window_clamps_end() {
    let yaml = "a:\nb:\nc:\n";
    let index = parse_spec(yaml);
    let window = index.context_window(3, 5).unwrap();
    assert_eq!(window.start_line, 1);
    assert_eq!(
        window.lines,
        vec!["a:".to_string(), "b:".to_string(), "c:".to_string()]
    );
}

#[test]
fn context_window_out_of_range() {
    let yaml = "a:\n";
    let index = parse_spec(yaml);
    assert!(index.context_window(0, 2).is_none());
    assert!(index.context_window(5, 2).is_none());
}

#[test]
fn unknown_pointer_returns_none() {
    let yaml = "openapi: 3.0.0\n";
    let index = parse_spec(yaml);
    assert!(index.resolve("/nonexistent").is_none());
}

#[test]
fn parser_empty_input() {
    let index = parse_spec("");
    assert_eq!(index.line_count(), 0);
    assert!(index.lines().is_empty());
    assert!(index.resolve("/anything").is_none());
}

// ---- pointer escaping scenario ----

#[test]
fn pointer_escaping_round_trip() {
    let yaml = "paths:\n  /pets:\n    get:\n      summary: Foo\n";
    let index = parse_spec(yaml);
    assert_eq!(
        index.resolve("/paths/~1pets/get/summary"),
        Some(SourceSpan { line: 4, col: 6 })
    );
    // Dotted form normalizes to the same span.
    assert_eq!(
        index.resolve("paths./pets.get.summary"),
        Some(SourceSpan { line: 4, col: 6 })
    );
}

#[test]
fn crlf_lines_are_stripped_of_carriage_returns() {
    let index = parse_spec("a: 1\r\nb: 2\r\n");
    assert_eq!(index.lines(), &vec!["a: 1".to_string(), "b: 2".to_string()]);
    assert_eq!(index.resolve("/b"), Some(SourceSpan { line: 2, col: 0 }));
}

#[test]
fn later_entry_shadows_earlier() {
    let yaml = "a: 1\nb: 2\na: 3\n";
    let index = parse_spec(yaml);
    // The second `a:` line wins.
    assert_eq!(index.resolve("/a"), Some(SourceSpan { line: 3, col: 0 }));
}
