//! The pipeline's data model: the report written at the end of a run,
//! the phase identifiers, and the events the scheduler emits.

use vstd::prelude::*;

use crate::config::Config;

verus! {

/// The report of one validation run.
#[derive(Debug, Clone, Default, PartialEq, Eq)]
pub struct ValidateReport {
    pub spec: String,
    pub mode: String,
    pub phases: Phases,
    pub summary: Summary,
}

/// Per-phase records; a phase is present exactly when it executed at
/// least one step.
#[derive(Debug, Clone, Default, PartialEq, Eq)]
pub struct Phases {
    pub lint: Option<LintResult>,
    pub generate: Option<Vec<StepResult>>,
    pub compile: Option<Vec<StepResult>>,
}

/// The lint phase's single step record.
#[derive(Debug, Clone, Default, PartialEq, Eq)]
pub struct LintResult {
    pub linter: String,
    pub status: String,
    pub log: String,
}

/// One generate or compile step record.
#[derive(Debug, Clone, Default, PartialEq, Eq)]
pub struct StepResult {
    pub generator: String,
    pub scope: String,
    pub status: String,
    pub log: String,
}

/// The run's totals; `total == passed + failed` always.
#[derive(Debug, Clone, Copy, Default, PartialEq, Eq, Structural)]
pub struct Summary {
    pub total: usize,
    pub passed: usize,
    pub failed: usize,
}

/// Input to the validation pipeline: the configuration, the spec file's
/// absolute path, and the working directory mounted into each container.
#[derive(Debug, Clone)]
pub struct PipelineInput {
    pub config: Config,
    pub spec_path: String,
    pub work_dir: String,
}

/// Identifies which pipeline phase a step belongs to.
#[derive(Debug, Clone, PartialEq, Eq)]
pub enum Phase {
    Lint,
    Generate { generator: String, scope: String },
    Compile { generator: String, scope: String },
}

/// Events emitted by the pipeline scheduler. Every stream ends with
/// exactly one `Completed` or `Aborted`, and never both.
#[derive(Debug, Clone, PartialEq, Eq)]
pub enum PipelineEvent {
    PhaseStarted(Phase),
    Log { phase: Phase, line: String },
    PhaseFinished { phase: Phase, success: bool },
    Completed(ValidateReport),
    Aborted(String),
}

/// Whether an event is a terminal event.
pub open spec fn is_terminal(ev: PipelineEvent) -> bool {
    ev is Completed || ev is Aborted
}

/// Whether a step record counts as passed.
pub open spec fn step_passed(s: StepResult) -> bool {
    s.status@ == "pass"@
}

/// Whether the lint record counts as passed.
pub open spec fn lint_passed(l: LintResult) -> bool {
    l.status@ == "pass"@
}

/// How many of a phase's step records passed.
pub open spec fn spec_passed_count(steps: Seq<StepResult>) -> nat
    decreases steps.len(),
{
    if steps.len() == 0 {
        0
    } else {
        spec_passed_count(steps.drop_last()) + if step_passed(steps.last()) {
            1nat
        } else {
            0nat
        }
    }
}

/// The number of step records a report holds, across its populated
/// phases.
pub open spec fn spec_report_records(r: ValidateReport) -> int {
    (match r.phases.lint {
        Some(_) => 1int,
        None => 0int,
    }) + (match r.phases.generate {
        Some(steps) => steps@.len() as int,
        None => 0int,
    }) + (match r.phases.compile {
        Some(steps) => steps@.len() as int,
        None => 0int,
    })
}

/// How many of a report's step records passed.
pub open spec fn spec_report_passed(r: ValidateReport) -> int {
    (match r.phases.lint {
        Some(l) => if lint_passed(l) {
            1int
        } else {
            0int
        },
        None => 0int,
    }) + (match r.phases.generate {
        Some(steps) => spec_passed_count(steps@) as int,
        None => 0int,
    }) + (match r.phases.compile {
        Some(steps) => spec_passed_count(steps@) as int,
        None => 0int,
    })
}

/// A report's summary is consistent: the total is the number of step
/// records across the populated phases, and it splits into passed and
/// failed.
pub open spec fn report_consistent(r: ValidateReport) -> bool {
    &&& r.summary.total as int == spec_report_records(r)
    &&& r.summary.passed as int == spec_report_passed(r)
    &&& r.summary.total == r.summary.passed + r.summary.failed
}

} // verus!
