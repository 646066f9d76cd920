//! Tests of the pipeline scheduler: report assembly, the event stream's
//! terminal discipline, the generate-to-compile gate and cancellation.

use lazyoav::config::{Config, Linter, Mode};
use lazyoav::docker::CancelToken;
use lazyoav::pipeline::scheduler::{run_to_completion, Scheduler, StepOutcome, Work};
use lazyoav::pipeline::types::{
    LintResult, Phase, Phases, PipelineEvent, PipelineInput, StepResult, Summary, ValidateReport,
};

fn test_input(cfg: Config) -> PipelineInput {
    PipelineInput {
        config: cfg,
        spec_path: "/tmp/spec.yaml".to_string(),
        work_dir: "/tmp".to_string(),
    }
}

fn ok(log: &str) -> StepOutcome {
    StepOutcome { success: true, log: log.to_string() }
}

fn failed(log: &str) -> StepOutcome {
    StepOutcome { success: false, log: log.to_string() }
}

#[test]
fn build_generator_list_determines_step_count() {
    let cfg = Config {
        mode: Mode::Both,
        server_generators: vec!["spring".into(), "go-server".into()],
        client_generators: vec!["typescript-axios".into()],
        ..Config::default()
    };
    let pairs = lazyoav::pipeline::commands::build_generator_list(&cfg);
    assert_eq!(pairs.len(), 3);
}

#[test]
fn report_assembly_with_empty_phases() {
    let report = ValidateReport {
        spec: "test.yaml".into(),
        mode: "server".into(),
        phases: Phases::default(),
        summary: Summary { total: 0, passed: 0, failed: 0 },
    };
    assert_eq!(report.summary.total, 0);
    assert!(report.phases.lint.is_none());
    assert!(report.phases.generate.is_none());
    assert!(report.phases.compile.is_none());
}

#[test]
fn report_assembly_with_lint_only() {
    let report = ValidateReport {
        spec: "test.yaml".into(),
        mode: "server".into(),
        phases: Phases {
            lint: Some(LintResult {
                linter: "spectral".into(),
                status: "pass".into(),
                log: "all good".into(),
            }),
            generate: None,
            compile: None,
        },
        summary: Summary { total: 1, passed: 1, failed: 0 },
    };
    assert_eq!(report.summary.total, 1);
    assert!(report.phases.lint.is_some());
}

#[test]
fn step_result_status_values() {
    let pass = StepResult {
        generator: "spring".into(),
        scope: "server".into(),
        status: "pass".into(),
        log: String::new(),
    };
    let fail = StepResult {
        generator: "go".into(),
        scope: "client".into(),
        status: "fail".into(),
        log: "compile error".into(),
    };
    assert_eq!(pass.status, "pass");
    assert_eq!(fail.status, "fail");
}

#[test]
fn phase_enum_equality() {
    let a = Phase::Generate { generator: "spring".into(), scope: "server".into() };
    let b = Phase::Generate { generator: "spring".into(), scope: "server".into() };
    assert_eq!(a, b);

    let c = Phase::Compile { generator: "spring".into(), scope: "server".into() };
    assert_ne!(a, c);
}

#[test]
fn pipeline_precancelled_aborts() {
    let cfg = Config {
        lint: true,
        linter: Linter::Spectral,
        generate: true,
        server_generators: vec!["spring".into()],
        mode: Mode::Server,
        ..Config::default()
    };
    // The cancel flag is set before invocation.
    let events = run_to_completion(test_input(cfg), Vec::new(), true);
    let last = events.last().expect("expected at least one event");
    match last {
        PipelineEvent::Aborted(_) => {}
        PipelineEvent::Completed(_) => {}
        other => panic!("expected Aborted or Completed, got: {other:?}"),
    }
}

// ---- whole-run scenarios ----

/// Every stream ends with exactly one terminal event.
fn assert_single_terminal(events: &[PipelineEvent]) {
    assert!(!events.is_empty());
    for (i, ev) in events.iter().enumerate() {
        let terminal = matches!(ev, PipelineEvent::Completed(_) | PipelineEvent::Aborted(_));
        if i + 1 == events.len() {
            assert!(terminal, "last event must be terminal");
        } else {
            assert!(!terminal, "terminal event before the end");
        }
    }
}

#[test]
fn empty_pipeline_completes_with_empty_summary() {
    let cfg = Config { lint: false, generate: false, ..Config::default() };
    let events = run_to_completion(test_input(cfg), Vec::new(), false);
    assert_single_terminal(&events);
    match events.last().unwrap() {
        PipelineEvent::Completed(report) => {
            assert_eq!(report.summary.total, 0);
            assert_eq!(report.summary.passed, 0);
            assert_eq!(report.summary.failed, 0);
            assert!(report.phases.lint.is_none());
            assert!(report.phases.generate.is_none());
            assert!(report.phases.compile.is_none());
        }
        other => panic!("expected Completed, got: {other:?}"),
    }
}

#[test]
fn lint_only_pass_yields_full_cycle() {
    let cfg = Config {
        lint: true,
        linter: Linter::Spectral,
        generate: false,
        ..Config::default()
    };
    let outcomes = vec![ok("No results with a severity of 'error' found!")];
    let events = run_to_completion(test_input(cfg), outcomes, false);
    assert_single_terminal(&events);
    assert!(matches!(events[0], PipelineEvent::PhaseStarted(Phase::Lint)));
    assert!(events.iter().any(|e| matches!(e, PipelineEvent::Log { phase: Phase::Lint, .. })));
    assert!(events.iter().any(|e| matches!(
        e,
        PipelineEvent::PhaseFinished { phase: Phase::Lint, success: true }
    )));
    match events.last().unwrap() {
        PipelineEvent::Completed(report) => {
            let lint = report.phases.lint.as_ref().expect("lint record");
            assert_eq!(lint.linter, "spectral");
            assert_eq!(lint.status, "pass");
            assert_eq!(report.summary.total, 1);
            assert_eq!(report.summary.passed, 1);
            assert_eq!(report.summary.failed, 0);
        }
        other => panic!("expected Completed, got: {other:?}"),
    }
}

#[test]
fn generate_gate_blocks_compile() {
    let cfg = Config {
        lint: false,
        generate: true,
        compile: true,
        mode: Mode::Server,
        server_generators: vec!["spring".into(), "go-server".into()],
        ..Config::default()
    };
    let outcomes = vec![ok("generated"), failed("boom")];
    let events = run_to_completion(test_input(cfg), outcomes, false);
    assert_single_terminal(&events);
    match events.last().unwrap() {
        PipelineEvent::Completed(report) => {
            let gen = report.phases.generate.as_ref().expect("generate record");
            assert_eq!(gen.len(), 2);
            assert_eq!(gen[0].status, "pass");
            assert_eq!(gen[1].status, "fail");
            assert!(report.phases.compile.is_none());
            assert_eq!(report.summary.total, 2);
            assert_eq!(report.summary.passed, 1);
            assert_eq!(report.summary.failed, 1);
        }
        other => panic!("expected Completed, got: {other:?}"),
    }
}

#[test]
fn all_generates_pass_runs_compile() {
    let cfg = Config {
        lint: false,
        generate: true,
        compile: true,
        mode: Mode::Server,
        server_generators: vec!["spring".into()],
        ..Config::default()
    };
    let outcomes = vec![ok("generated"), ok("compiled")];
    let events = run_to_completion(test_input(cfg), outcomes, false);
    assert_single_terminal(&events);
    match events.last().unwrap() {
        PipelineEvent::Completed(report) => {
            let comp = report.phases.compile.as_ref().expect("compile record");
            assert_eq!(comp.len(), 1);
            assert_eq!(comp[0].status, "pass");
            assert_eq!(report.summary.total, 2);
            assert_eq!(report.summary.passed, 2);
            assert_eq!(report.summary.failed, 0);
        }
        other => panic!("expected Completed, got: {other:?}"),
    }
}

#[test]
fn summary_total_counts_all_records() {
    let cfg = Config {
        lint: true,
        linter: Linter::Redocly,
        generate: true,
        compile: true,
        mode: Mode::Both,
        server_generators: vec!["spring".into()],
        client_generators: vec!["axios".into()],
        ..Config::default()
    };
    let outcomes = vec![
        failed("lint fail"),
        ok("gen 1"),
        ok("gen 2"),
        ok("compile 1"),
        failed("compile 2"),
    ];
    let events = run_to_completion(test_input(cfg), outcomes, false);
    match events.last().unwrap() {
        PipelineEvent::Completed(report) => {
            assert_eq!(report.summary.total, 5);
            assert_eq!(report.summary.passed, 3);
            assert_eq!(report.summary.failed, 2);
            assert_eq!(report.summary.total, report.summary.passed + report.summary.failed);
            assert_eq!(report.mode, "both");
            assert_eq!(report.spec, "spec.yaml");
        }
        other => panic!("expected Completed, got: {other:?}"),
    }
}

#[test]
fn missing_outcomes_read_as_spawn_failures() {
    let cfg = Config {
        lint: false,
        generate: true,
        compile: false,
        mode: Mode::Server,
        server_generators: vec!["spring".into()],
        ..Config::default()
    };
    let events = run_to_completion(test_input(cfg), Vec::new(), false);
    match events.last().unwrap() {
        PipelineEvent::Completed(report) => {
            let gen = report.phases.generate.as_ref().expect("generate record");
            assert_eq!(gen.len(), 1);
            assert_eq!(gen[0].status, "fail");
        }
        other => panic!("expected Completed, got: {other:?}"),
    }
}

#[test]
fn pipeline_no_phases_completes_immediately() {
    let cfg = Config { lint: false, generate: false, ..Config::default() };
    let events = run_to_completion(test_input(cfg), Vec::new(), false);
    match events.last().expect("expected at least one event") {
        PipelineEvent::Completed(report) => {
            assert_eq!(report.summary.total, 0);
            assert_eq!(report.summary.passed, 0);
            assert_eq!(report.summary.failed, 0);
            assert!(report.phases.lint.is_none());
            assert!(report.phases.generate.is_none());
            assert!(report.phases.compile.is_none());
        }
        other => panic!("expected Completed, got: {other:?}"),
    }
}

#[test]
fn pipeline_lint_disabled_skips_lint() {
    let cfg = Config { lint: false, generate: false, ..Config::default() };
    let events = run_to_completion(test_input(cfg), Vec::new(), false);
    for ev in &events {
        if let PipelineEvent::PhaseStarted(Phase::Lint) = ev {
            panic!("lint phase should not start when lint is disabled");
        }
    }
    match events.last().expect("expected events") {
        PipelineEvent::Completed(report) => {
            assert!(report.phases.lint.is_none());
        }
        other => panic!("expected Completed, got: {other:?}"),
    }
}

#[test]
fn pipeline_empty_generators_skips_generate_compile() {
    let cfg = Config {
        lint: false,
        generate: true,
        compile: true,
        server_generators: Vec::new(),
        client_generators: Vec::new(),
        ..Config::default()
    };
    let events = run_to_completion(test_input(cfg), Vec::new(), false);
    for ev in &events {
        match ev {
            PipelineEvent::PhaseStarted(Phase::Generate { .. })
            | PipelineEvent::PhaseStarted(Phase::Compile { .. }) => {
                panic!("generate/compile should not start with empty generator lists");
            }
            _ => {}
        }
    }
    match events.last().expect("expected events") {
        PipelineEvent::Completed(report) => {
            assert!(report.phases.generate.is_none());
            assert!(report.phases.compile.is_none());
            assert_eq!(report.summary.total, 0);
        }
        other => panic!("expected Completed, got: {other:?}"),
    }
}

#[test]
fn scheduler_machine_runs_lint_then_completes() {
    let cfg = Config {
        lint: true,
        linter: Linter::Spectral,
        generate: false,
        ..Config::default()
    };
    let mut sched = Scheduler::new(test_input(cfg), 1, Vec::new());
    assert!(!sched.is_finished());
    // First call issues the lint chunk.
    let steps = match sched.advance(Vec::new(), false) {
        Work::Run(steps) => steps,
        Work::Finished(ev) => panic!("expected a lint chunk, got {ev:?}"),
    };
    assert_eq!(steps.len(), 1);
    assert_eq!(steps[0].phase, Phase::Lint);
    assert!(steps[0].command.args.contains(&"lint".to_string()));
    // Handing back a passing outcome finishes the run.
    let outcome = StepOutcome { success: true, log: "clean".to_string() };
    match sched.advance(vec![outcome], false) {
        Work::Finished(PipelineEvent::Completed(report)) => {
            let lint = report.phases.lint.expect("lint record");
            assert_eq!(lint.status, "pass");
            assert_eq!(lint.log, "clean");
            assert_eq!(report.summary.total, 1);
            assert_eq!(report.summary.passed, 1);
        }
        other => panic!("expected Completed, got {other:?}"),
    }
    assert!(sched.is_finished());
}

// ---- cancel token ----

#[test]
fn cancel_token_starts_uncancelled() {
    let token = CancelToken::new();
    assert!(!token.is_cancelled());
}

#[test]
fn cancel_token_transitions_once() {
    let token = CancelToken::new();
    token.cancel();
    assert!(token.is_cancelled());
    // Idempotent: a second cancel changes nothing.
    token.cancel();
    assert!(token.is_cancelled());
}

#[test]
fn cancel_token_is_visible_across_clones() {
    let a = CancelToken::new();
    let b = a.clone();
    a.cancel();
    assert!(b.is_cancelled());
}
