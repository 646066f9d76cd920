//! Tests of the shared pieces: configuration defaults, outcome folding,
//! text primitives and discovery rules.

use lazyoav::config::{Config, Jobs, Linter, Mode};
use lazyoav::discovery::{is_skipped_dir, is_yaml, normalize_spec_path, SpecPathError};
use lazyoav::docker::{
    finish_outcome, spawn_failure_outcome, summarize_stream, ContainerResult, OutputLine,
};
use lazyoav::text::basename;

// ---- configuration ----

#[test]
fn config_default_values() {
    let cfg = Config::default();
    assert_eq!(cfg.mode, Mode::Server);
    assert!(cfg.lint && cfg.generate && cfg.compile);
    assert_eq!(cfg.linter, Linter::Spectral);
    assert_eq!(cfg.docker_timeout, 300);
    assert_eq!(cfg.search_depth, 4);
    assert_eq!(cfg.jobs, Jobs::Auto);
    assert!(cfg.server_generators.is_empty());
}

#[test]
fn mode_and_linter_names() {
    assert_eq!(Mode::Server.as_str(), "server");
    assert_eq!(Mode::Client.as_str(), "client");
    assert_eq!(Mode::Both.as_str(), "both");
    assert_eq!(Linter::Spectral.as_str(), "spectral");
    assert_eq!(Linter::Redocly.as_str(), "redocly");
    assert_eq!(Linter::Off.as_str(), "none");
}

#[test]
fn jobs_resolution() {
    assert_eq!(Jobs::Fixed(7).resolve(2), 7);
    assert_eq!(Jobs::Auto.resolve(2), 2);
    assert_eq!(Jobs::Auto.resolve(16), 4);
}

#[test]
fn override_lookup() {
    let mut cfg = Config::default();
    cfg.generator_overrides.push(("spring".into(), "custom:1".into()));
    assert_eq!(cfg.override_for("spring"), Some(&"custom:1".to_string()));
    assert_eq!(cfg.override_for("go"), None);
}

// ---- container outcomes ----

#[test]
fn finish_outcome_success_needs_zero_exit() {
    let r = finish_outcome(Some(0), false, false, "log".to_string());
    assert!(r.success);
    let r = finish_outcome(Some(1), false, false, String::new());
    assert!(!r.success);
    let r = finish_outcome(None, false, true, String::new());
    assert!(!r.success && r.timed_out);
    let r = finish_outcome(None, true, false, String::new());
    assert!(!r.success && r.cancelled);
}

#[test]
fn spawn_failure_outcome_shape() {
    let r = spawn_failure_outcome("no engine".to_string());
    assert!(!r.success);
    assert_eq!(r.exit_code, None);
    assert_eq!(r.log, "no engine");
    assert!(!r.cancelled && !r.timed_out);
}

fn done(success: bool, cancelled: bool, log: &str) -> OutputLine {
    OutputLine::Done(ContainerResult {
        success,
        exit_code: if success { Some(0) } else { Some(1) },
        log: log.to_string(),
        cancelled,
        timed_out: false,
    })
}

#[test]
fn summarize_stream_merges_lines_in_order() {
    let items = vec![
        OutputLine::Stdout("one".to_string()),
        OutputLine::Stderr("two".to_string()),
        OutputLine::Stdout("three".to_string()),
        done(true, false, ""),
    ];
    let (success, log) = summarize_stream(&items);
    assert!(success);
    assert_eq!(log, "one\ntwo\nthree\n");
}

#[test]
fn summarize_stream_falls_back_to_done_log() {
    let items = vec![done(true, false, "accumulated")];
    let (success, log) = summarize_stream(&items);
    assert!(success);
    assert_eq!(log, "accumulated");
}

#[test]
fn summarize_stream_cancelled_fails() {
    let items = vec![OutputLine::Stdout("partial".to_string()), done(true, true, "")];
    let (success, log) = summarize_stream(&items);
    assert!(!success);
    assert_eq!(log, "partial\n");
}

#[test]
fn summarize_stream_without_done_fails() {
    let items: Vec<OutputLine> = vec![OutputLine::Stdout("lost".to_string())];
    let (success, _) = summarize_stream(&items);
    assert!(!success);
}

// ---- text ----

#[test]
fn basename_takes_final_component() {
    assert_eq!(basename("/tmp/spec.yaml"), "spec.yaml");
    assert_eq!(basename("spec.yaml"), "spec.yaml");
    assert_eq!(basename("/a/b/"), "");
    assert_eq!(basename(""), "");
}

// ---- discovery ----

#[test]
fn normalize_spec_path_rejects_blank() {
    assert_eq!(normalize_spec_path("/proj", "   "), Err(SpecPathError::Blank));
}

#[test]
fn normalize_spec_path_keeps_relative() {
    assert_eq!(normalize_spec_path("/proj", "api.yaml"), Ok("api.yaml".to_string()));
}

#[test]
fn normalize_spec_path_strips_root() {
    assert_eq!(
        normalize_spec_path("/proj", "/proj/specs/api.yaml"),
        Ok("specs/api.yaml".to_string())
    );
}

#[test]
fn normalize_spec_path_rejects_outside_root() {
    assert_eq!(
        normalize_spec_path("/proj", "/elsewhere/api.yaml"),
        Err(SpecPathError::OutsideRoot)
    );
}

#[test]
fn is_yaml_by_extension() {
    assert!(is_yaml("openapi.yaml"));
    assert!(is_yaml("spec.yml"));
    assert!(is_yaml("LOUD.YAML"));
    assert!(!is_yaml("spec.json"));
    assert!(!is_yaml("yaml"));
}

#[test]
fn skipped_directories() {
    assert!(is_skipped_dir(".git"));
    assert!(is_skipped_dir("node_modules"));
    assert!(is_skipped_dir("target"));
    assert!(!is_skipped_dir("src"));
}
