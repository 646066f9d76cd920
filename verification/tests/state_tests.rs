//! Tests of the front-end state helpers, icons and truncation, and the
//! diff view.

use lazyoav::diff::{
    compute_diff, ChangeKind, DiffLine, DiffViewState, FileDiff, GeneratorDiff,
};
use lazyoav::state::{
    phase_count, phase_log, set_status, Panel, PhaseStatus, ScreenMode, StatusLevel,
    StatusMessage,
};
use lazyoav::style::{phase_status_icon, truncate_chars};
use lazyoav::browser::syntax_name_for_path;
use lazyoav::pipeline::types::{LintResult, Phases, StepResult, Summary, ValidateReport};

// ---- PhaseStatus ----

#[test]
fn phase_status_from_known_strings() {
    assert_eq!(PhaseStatus::from_status_str("pass"), PhaseStatus::Pass);
    assert_eq!(PhaseStatus::from_status_str("passed"), PhaseStatus::Pass);
    assert_eq!(PhaseStatus::from_status_str("success"), PhaseStatus::Pass);
    assert_eq!(PhaseStatus::from_status_str("PASS"), PhaseStatus::Pass);

    assert_eq!(PhaseStatus::from_status_str("fail"), PhaseStatus::Fail);
    assert_eq!(PhaseStatus::from_status_str("failed"), PhaseStatus::Fail);
    assert_eq!(PhaseStatus::from_status_str("error"), PhaseStatus::Fail);

    assert_eq!(PhaseStatus::from_status_str("running"), PhaseStatus::Running);
    assert_eq!(PhaseStatus::from_status_str("in_progress"), PhaseStatus::Running);
    assert_eq!(PhaseStatus::from_status_str("in-progress"), PhaseStatus::Running);
}

#[test]
fn phase_status_unknown_maps_to_pending() {
    assert_eq!(PhaseStatus::from_status_str("???"), PhaseStatus::Pending);
    assert_eq!(PhaseStatus::from_status_str(""), PhaseStatus::Pending);
}

// ---- Panel navigation ----

#[test]
fn panel_wraps_forward() {
    assert_eq!(Panel::SpecContext.next(), Panel::Phases);
}

#[test]
fn panel_wraps_backward() {
    assert_eq!(Panel::Phases.prev(), Panel::SpecContext);
}

#[test]
fn panel_from_index_out_of_range() {
    assert!(Panel::from_index(99).is_none());
}

#[test]
fn panel_index_round_trip() {
    for p in [Panel::Phases, Panel::Errors, Panel::Detail, Panel::SpecContext] {
        assert_eq!(Panel::from_index(p.index()), Some(p));
    }
}

// ---- ScreenMode cycling ----

#[test]
fn screen_mode_cycle_roundtrip() {
    let mode = ScreenMode::Normal;
    let mode = mode.cycle_next().cycle_next().cycle_next();
    assert_eq!(mode, ScreenMode::Normal);
}

#[test]
fn screen_mode_prev_is_inverse_of_next() {
    let mode = ScreenMode::Half;
    assert_eq!(mode.cycle_next().cycle_prev(), mode);
}

// ---- status messages ----

#[test]
fn set_status_replaces_equal_severity() {
    let mut slot: Option<StatusMessage> = None;
    set_status(&mut slot, "first".to_string(), StatusLevel::Warn);
    set_status(&mut slot, "second".to_string(), StatusLevel::Warn);
    let m = slot.unwrap();
    assert_eq!(m.text, "second");
}

#[test]
fn set_status_keeps_higher_severity() {
    let mut slot: Option<StatusMessage> = None;
    set_status(&mut slot, "bad".to_string(), StatusLevel::Error);
    set_status(&mut slot, "meh".to_string(), StatusLevel::Info);
    let m = slot.unwrap();
    assert_eq!(m.text, "bad");
    assert_eq!(m.level, StatusLevel::Error);
}

// ---- report navigation ----

fn sample_report() -> ValidateReport {
    ValidateReport {
        spec: "petstore.yaml".into(),
        mode: "both".into(),
        phases: Phases {
            lint: Some(LintResult {
                linter: "spectral".into(),
                status: "pass".into(),
                log: "lint log".into(),
            }),
            generate: Some(vec![StepResult {
                generator: "go".into(),
                scope: "server".into(),
                status: "pass".into(),
                log: "gen log".into(),
            }]),
            compile: Some(vec![StepResult {
                generator: "go".into(),
                scope: "server".into(),
                status: "fail".into(),
                log: "compile log".into(),
            }]),
        },
        summary: Summary { total: 3, passed: 2, failed: 1 },
    }
}

#[test]
fn phase_count_counts_each_record() {
    assert_eq!(phase_count(&sample_report()), 3);
}

#[test]
fn phase_log_selects_by_flat_index() {
    let report = sample_report();
    assert_eq!(phase_log(&report, 0), "lint log");
    assert_eq!(phase_log(&report, 1), "gen log");
    assert_eq!(phase_log(&report, 2), "compile log");
    assert_eq!(phase_log(&report, 3), "");
}

// ---- icons and truncation ----

#[test]
fn phase_status_icon_per_status() {
    assert_eq!(phase_status_icon(PhaseStatus::Pass), "\u{2713}");
    assert_eq!(phase_status_icon(PhaseStatus::Fail), "\u{2717}");
    assert_eq!(phase_status_icon(PhaseStatus::Running), "\u{25c9}");
    assert_eq!(phase_status_icon(PhaseStatus::Pending), "\u{2500}");
}

#[test]
fn truncate_chars_shortens_with_ellipsis() {
    assert_eq!(truncate_chars("hello world", 5), "hell\u{2026}");
    assert_eq!(truncate_chars("hi", 5), "hi");
    assert_eq!(truncate_chars("anything", 0), "anything");
}

// ---- syntax names ----

#[test]
fn syntax_name_known_extensions() {
    assert_eq!(syntax_name_for_path("App.java"), "Java");
    assert_eq!(syntax_name_for_path("index.ts"), "TypeScript");
    assert_eq!(syntax_name_for_path("main.go"), "Go");
    assert_eq!(syntax_name_for_path("lib.py"), "Python");
    assert_eq!(syntax_name_for_path("Foo.cs"), "C#");
    assert_eq!(syntax_name_for_path("lib.rs"), "Rust");
}

#[test]
fn syntax_name_unknown_falls_back() {
    assert_eq!(syntax_name_for_path("README"), "Plain Text");
    assert_eq!(syntax_name_for_path("file.xyz"), "Plain Text");
}

// ---- diff view state ----

#[test]
fn diff_view_state_total_changed_files() {
    let mut state = DiffViewState::new();
    state.diffs.push((
        "go-server".to_string(),
        GeneratorDiff {
            generator: "go".into(),
            scope: "server".into(),
            files: vec![FileDiff {
                rel_path: "a.go".into(),
                kind: ChangeKind::Added,
                lines: vec![],
            }],
        },
    ));
    state.diffs.push((
        "ts-client".to_string(),
        GeneratorDiff {
            generator: "ts".into(),
            scope: "client".into(),
            files: vec![
                FileDiff { rel_path: "b.ts".into(), kind: ChangeKind::Modified, lines: vec![] },
                FileDiff { rel_path: "c.ts".into(), kind: ChangeKind::Deleted, lines: vec![] },
            ],
        },
    ));
    assert_eq!(state.total_changed_files(), 3);
}

#[test]
fn diff_view_reset_nav_clears_navigation() {
    let mut state = DiffViewState::new();
    state.file_index = 7;
    state.scroll = 3;
    state.reset_nav();
    assert_eq!(state.file_index, 0);
    assert_eq!(state.scroll, 0);
}

#[test]
fn active_diff_finds_entry_by_key() {
    let mut state = DiffViewState::new();
    state.diffs.push((
        "go-server".to_string(),
        GeneratorDiff { generator: "go".into(), scope: "server".into(), files: vec![] },
    ));
    state.active_generator = Some("go-server".to_string());
    let d = state.active_diff().expect("diff for active generator");
    assert_eq!(d.generator, "go");
    state.active_generator = Some("missing".to_string());
    assert!(state.active_diff().is_none());
}

// ---- computing diffs ----

fn snap(entries: &[(&str, &str)]) -> Vec<(String, String)> {
    entries.iter().map(|(p, c)| (p.to_string(), c.to_string())).collect()
}

#[test]
fn compute_diff_all_added() {
    let before = snap(&[]);
    let after = snap(&[("new.txt", "line1\nline2\n")]);
    let diff = compute_diff("go", "server", &before, &after);
    assert_eq!(diff.generator, "go");
    assert_eq!(diff.scope, "server");
    assert_eq!(diff.files.len(), 1);
    assert_eq!(diff.files[0].kind, ChangeKind::Added);
    assert_eq!(diff.files[0].rel_path, "new.txt");
    assert!(diff.files[0].lines.iter().any(|l| matches!(l, DiffLine::Insert(..))));
}

#[test]
fn compute_diff_all_deleted() {
    let before = snap(&[("old.txt", "deleted content\n")]);
    let after = snap(&[]);
    let diff = compute_diff("ts", "client", &before, &after);
    assert_eq!(diff.files.len(), 1);
    assert_eq!(diff.files[0].kind, ChangeKind::Deleted);
    assert!(diff.files[0].lines.iter().any(|l| matches!(l, DiffLine::Delete(..))));
}

#[test]
fn compute_diff_modified() {
    let before = snap(&[("file.txt", "line1\nline2\nline3\n")]);
    let after = snap(&[("file.txt", "line1\nline2 changed\nline3\n")]);
    let diff = compute_diff("go", "server", &before, &after);
    assert_eq!(diff.files.len(), 1);
    assert_eq!(diff.files[0].kind, ChangeKind::Modified);
    // The real diff both inserts and deletes: it cannot be an echo of
    // either input.
    assert!(diff.files[0]
        .lines
        .iter()
        .any(|l| matches!(l, DiffLine::Insert(t) if t == "line2 changed")));
    assert!(diff.files[0]
        .lines
        .iter()
        .any(|l| matches!(l, DiffLine::Delete(t) if t == "line2")));
    assert!(diff.files[0].lines.iter().any(|l| matches!(l, DiffLine::HunkHeader(..))));
}

#[test]
fn compute_diff_unchanged_excluded() {
    let before = snap(&[("same.txt", "unchanged\n")]);
    let after = snap(&[("same.txt", "unchanged\n")]);
    let diff = compute_diff("go", "server", &before, &after);
    assert!(diff.files.is_empty());
}

#[test]
fn compute_diff_sorts_by_path() {
    let before = snap(&[]);
    let after = snap(&[("b.java", "class B {}"), ("a.java", "class A {}")]);
    let diff = compute_diff("java", "server", &before, &after);
    assert_eq!(diff.files.len(), 2);
    assert_eq!(diff.files[0].rel_path, "a.java");
    assert_eq!(diff.files[1].rel_path, "b.java");
    assert!(diff.files.iter().all(|f| f.kind == ChangeKind::Added));
}
