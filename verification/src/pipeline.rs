//! The validation pipeline: command construction for each step, the
//! report data model, and the scheduler that composes the lint, generate
//! and compile phases.

pub mod commands;
pub mod scheduler;
pub mod types;

pub use commands::{
    build_generator_list, compile_command, generator_command, redocly_command, spectral_command,
};
pub use scheduler::{run_to_completion, PlannedStep, Scheduler, StepOutcome, Work};
pub use types::{
    LintResult, Phase, Phases, PipelineEvent, PipelineInput, StepResult, Summary, ValidateReport,
};
