//! The pipeline scheduler: composes lint, generate and (gated) compile
//! phases, issuing steps in chunks of at most the worker cap, and ends
//! every run with exactly one terminal event.
//!
//! The scheduler is a state machine: `advance` records the outcomes of
//! the last issued chunk and either issues the next chunk or finishes.
//! The caller runs the containers; cancellation is observed as a plain
//! flag at each call, and an observed cancellation never issues further
//! work. `run_to_completion` drives the machine sequentially against a
//! pre-supplied list of outcomes, which is also how the event-stream
//! guarantees are stated.

use vstd::prelude::*;

use crate::config::{Config, Linter, Mode};
use crate::pipeline::commands::{
    compile_command, generator_command, redocly_command, spec_compile_args, spec_generator_args,
    spec_generator_list, spec_redocly_args, spec_spectral_args, spectral_command,
};
use crate::pipeline::types::{
    is_terminal, report_consistent, spec_passed_count, spec_report_records, LintResult, Phase,
    Phases, PipelineEvent, PipelineInput, StepResult, Summary, ValidateReport,
};
use crate::docker::ContainerCommand;
use crate::text::{spec_basename, spec_lines, split_lines, string_pair_views};

verus! {

/// What a finished container step reports back: whether it passed, and
/// its merged log.
#[derive(Debug, Clone, PartialEq, Eq)]
pub struct StepOutcome {
    pub success: bool,
    pub log: String,
}

/// One step the scheduler asks the caller to run.
#[derive(Debug)]
pub struct PlannedStep {
    pub phase: Phase,
    pub command: ContainerCommand,
}

/// What the scheduler wants next: run a chunk of steps concurrently and
/// report their outcomes, or accept the terminal event.
#[derive(Debug)]
pub enum Work {
    Run(Vec<PlannedStep>),
    Finished(PipelineEvent),
}

/// The canonical name of a mode.
pub open spec fn spec_mode_str(m: Mode) -> Seq<char> {
    match m {
        Mode::Server => "server"@,
        Mode::Client => "client"@,
        Mode::Both => "both"@,
    }
}

/// The canonical name of a linter.
pub open spec fn spec_linter_str(l: Linter) -> Seq<char> {
    match l {
        Linter::Spectral => "spectral"@,
        Linter::Redocly => "redocly"@,
        Linter::Off => "none"@,
    }
}

/// Whether the configuration runs a lint step at all.
pub open spec fn spec_lint_enabled(cfg: Config) -> bool {
    cfg.lint && !(cfg.linter is Off)
}

/// How many outcomes of the supply the lint phase consumes.
pub open spec fn spec_lint_offset(cfg: Config) -> int {
    if spec_lint_enabled(cfg) {
        1
    } else {
        0
    }
}

/// Whether the configuration runs a generate phase at all.
pub open spec fn spec_gen_enabled(cfg: Config) -> bool {
    cfg.generate && spec_generator_list(cfg).len() > 0
}

/// What the step at supply index `j` observes: the j-th supplied
/// outcome, or a spawn failure once the supply is exhausted.
pub open spec fn spec_outcome_at(outcomes: Seq<StepOutcome>, j: int) -> (bool, Seq<char>) {
    if 0 <= j < outcomes.len() {
        (outcomes[j].success, outcomes[j].log@)
    } else {
        (false, "Failed to spawn container"@)
    }
}

/// Whether a step record pairs a generator with its observed outcome:
/// the generator's name and scope, a `pass`/`fail` status per the
/// outcome's success, and the outcome's log.
pub open spec fn step_record_matches(
    s: StepResult,
    g: (Seq<char>, Seq<char>),
    o: (bool, Seq<char>),
) -> bool {
    &&& s.generator@ == g.0
    &&& s.scope@ == g.1
    &&& s.status@ == if o.0 {
        "pass"@
    } else {
        "fail"@
    }
    &&& s.log@ == o.1
}

/// Whether every generate step's observed outcome succeeded.
pub open spec fn spec_all_generates_pass(cfg: Config, outcomes: Seq<StepOutcome>) -> bool {
    forall|k: int|
        0 <= k < spec_generator_list(cfg).len() ==> (#[trigger] spec_outcome_at(
            outcomes,
            spec_lint_offset(cfg) + k,
        )).0
}

/// Whether the compile phase runs: only after a generate phase whose
/// every step passed, and only when enabled.
pub open spec fn spec_compile_runs(cfg: Config, outcomes: Seq<StepOutcome>) -> bool {
    spec_gen_enabled(cfg) && cfg.compile && spec_all_generates_pass(cfg, outcomes)
}

/// What the report of a completed sequential run holds, determined by
/// the configuration, the spec path and the outcome supply: the spec
/// basename and canonical mode; a lint record exactly when lint is
/// enabled, carrying the first outcome; generate records exactly when
/// the generate phase runs, pairing the generator list in order with
/// the following outcomes; compile records exactly when every generate
/// outcome passed and compiling is enabled; and a consistent summary.
pub open spec fn completed_report_matches(
    r: ValidateReport,
    cfg: Config,
    spec_path: Seq<char>,
    outcomes: Seq<StepOutcome>,
) -> bool {
    let gens = spec_generator_list(cfg);
    let off = spec_lint_offset(cfg);
    &&& report_consistent(r)
    &&& r.spec@ == spec_basename(spec_path)
    &&& r.mode@ == spec_mode_str(cfg.mode)
    &&& (r.phases.lint is Some <==> spec_lint_enabled(cfg))
    &&& match r.phases.lint {
        Some(l) => {
            &&& l.linter@ == spec_linter_str(cfg.linter)
            &&& l.status@ == if spec_outcome_at(outcomes, 0).0 {
                "pass"@
            } else {
                "fail"@
            }
            &&& l.log@ == spec_outcome_at(outcomes, 0).1
        },
        None => true,
    }
    &&& (r.phases.generate is Some <==> spec_gen_enabled(cfg))
    &&& match r.phases.generate {
        Some(steps) => steps@.len() == gens.len() && forall|k: int|
            0 <= k < gens.len() ==> step_record_matches(
                #[trigger] steps@[k],
                gens[k],
                spec_outcome_at(outcomes, off + k),
            ),
        None => true,
    }
    &&& (r.phases.compile is Some <==> spec_compile_runs(cfg, outcomes))
    &&& match r.phases.compile {
        Some(steps) => steps@.len() == gens.len() && forall|k: int|
            0 <= k < gens.len() ==> step_record_matches(
                #[trigger] steps@[k],
                gens[k],
                spec_outcome_at(outcomes, off + gens.len() + k),
            ),
        None => true,
    }
}

/// Every log line and every finish comes after the start of its phase.
pub open spec fn stream_precedence_ok(events: Seq<PipelineEvent>) -> bool {
    forall|k: int|
        0 <= k < events.len() ==> match #[trigger] events[k] {
            PipelineEvent::Log { phase, line } => exists|j: int|
                #![trigger events[j]]
                0 <= j < k && events[j] == PipelineEvent::PhaseStarted(phase),
            PipelineEvent::PhaseFinished { phase, success } => exists|j: int|
                #![trigger events[j]]
                0 <= j < k && events[j] == PipelineEvent::PhaseStarted(phase),
            _ => true,
        }
}

/// How many `PhaseStarted` events a stream holds.
pub open spec fn spec_started_count(events: Seq<PipelineEvent>) -> nat
    decreases events.len(),
{
    if events.len() == 0 {
        0
    } else {
        spec_started_count(events.drop_last()) + if events.last() is PhaseStarted {
            1nat
        } else {
            0nat
        }
    }
}

#[derive(Clone, Copy)]
enum Stage {
    Start,
    WaitLint,
    WaitGen { start: usize, end: usize },
    WaitComp { start: usize, end: usize },
    Done,
}

/// The scheduler's state between calls.
pub struct Scheduler {
    cfg: Config,
    spec_path: String,
    work_dir: String,
    user_args: Vec<String>,
    jobs: usize,
    generators: Vec<(String, String)>,
    stage: Stage,
    lint_result: Option<LintResult>,
    gen_results: Vec<StepResult>,
    comp_results: Vec<StepResult>,
    gen_ran: bool,
    comp_ran: bool,
}

impl Scheduler {
    /// Whether the run has ended with its terminal event.
    pub closed spec fn is_done(&self) -> bool {
        self.stage is Done
    }

    /// The configuration this run works from.
    pub closed spec fn config(&self) -> Config {
        self.cfg
    }

    /// The spec file's path, as handed in.
    pub closed spec fn spec_file(&self) -> Seq<char> {
        self.spec_path@
    }

    /// The `(generator, scope)` pairs of this run.
    pub closed spec fn generator_pairs(&self) -> Seq<(Seq<char>, Seq<char>)> {
        string_pair_views(self.generators@)
    }

    /// Well-formedness of the machine between calls.
    pub closed spec fn wf(&self) -> bool {
        let n = self.generators@.len() as int;
        &&& self.jobs >= 1
        &&& 4 * n < usize::MAX
        &&& string_pair_views(self.generators@) == spec_generator_list(self.cfg)
        &&& match self.lint_result {
            Some(l) => l.linter@ == spec_linter_str(self.cfg.linter) && spec_lint_enabled(
                self.cfg,
            ),
            None => true,
        }
        &&& self.gen_results@.len() <= n
        &&& self.comp_results@.len() <= n
        &&& (self.gen_ran ==> self.cfg.generate && n > 0)
        &&& (self.comp_ran ==> self.cfg.compile && self.gen_ran && spec_passed_count(
            self.gen_results@,
        ) == self.gen_results@.len())
        &&& match self.stage {
            Stage::Start => self.gen_results@.len() == 0 && self.comp_results@.len() == 0
                && self.lint_result is None && !self.gen_ran && !self.comp_ran,
            Stage::WaitLint => self.gen_results@.len() == 0 && self.comp_results@.len() == 0
                && self.cfg.lint && !(self.cfg.linter is Off) && !self.gen_ran
                && !self.comp_ran,
            Stage::WaitGen { start, end } => start < end <= n && self.gen_results@.len()
                <= start && self.comp_results@.len() == 0 && self.cfg.generate && (self.cfg.lint
                && !(self.cfg.linter is Off) ==> self.lint_result is Some) && !self.gen_ran
                && !self.comp_ran,
            Stage::WaitComp { start, end } => start < end <= n && self.comp_results@.len()
                <= start && spec_passed_count(self.gen_results@) == self.gen_results@.len()
                && self.cfg.compile && self.gen_ran && (self.cfg.lint && !(self.cfg.linter
                is Off) ==> self.lint_result is Some) && !self.comp_ran,
            Stage::Done => true,
        }
    }

    /// A strictly decreasing measure of the work remaining.
    pub closed spec fn measure(&self) -> int {
        let n = self.generators@.len() as int;
        match self.stage {
            Stage::Start => 2 * n + 4,
            Stage::WaitLint => 2 * n + 3,
            Stage::WaitGen { start, end } => 2 * n + 2 - end,
            Stage::WaitComp { start, end } => n + 2 - end,
            Stage::Done => 0,
        }
    }

    /// What a chunk the scheduler issued holds, by the stage now waiting
    /// on it: the lint step built for the configured linter, or a
    /// contiguous run of generate steps, or — only when every recorded
    /// generate step passed — a contiguous run of compile steps. A chunk
    /// never exceeds the worker cap.
    pub closed spec fn chunk_ok(&self, steps: Seq<PlannedStep>) -> bool {
        let cfg = self.cfg;
        let sp = self.spec_path@;
        let wd = self.work_dir@;
        let ua = self.user_args.deep_view();
        let gens = string_pair_views(self.generators@);
        match self.stage {
            Stage::WaitLint => {
                &&& steps.len() == 1
                &&& steps[0].phase is Lint
                &&& steps[0].command.timeout_secs == cfg.docker_timeout
                &&& steps[0].command.args.deep_view() == if cfg.linter is Spectral {
                    spec_spectral_args(cfg, sp, wd, ua)
                } else {
                    spec_redocly_args(cfg, sp, wd, ua)
                }
            },
            Stage::WaitGen { start, end } => {
                &&& steps.len() == end - start
                &&& steps.len() <= self.jobs
                &&& forall|k: int|
                    0 <= k < steps.len() ==> {
                        let g = gens[start + k];
                        &&& (#[trigger] steps[k]).phase matches Phase::Generate {
                            generator,
                            scope,
                        } && generator@ == g.0 && scope@ == g.1
                        &&& steps[k].command.args.deep_view() == spec_generator_args(
                            cfg,
                            sp,
                            wd,
                            ua,
                            g.0,
                            g.1,
                        )
                        &&& steps[k].command.timeout_secs == cfg.docker_timeout
                    }
            },
            Stage::WaitComp { start, end } => {
                &&& spec_passed_count(self.gen_results@) == self.gen_results@.len()
                &&& steps.len() == end - start
                &&& steps.len() <= self.jobs
                &&& forall|k: int|
                    0 <= k < steps.len() ==> {
                        let g = gens[start + k];
                        &&& (#[trigger] steps[k]).phase matches Phase::Compile {
                            generator,
                            scope,
                        } && generator@ == g.0 && scope@ == g.1
                        &&& steps[k].command.args.deep_view() == spec_compile_args(
                            cfg,
                            wd,
                            ua,
                            g.0,
                            g.1,
                        )
                        &&& steps[k].command.timeout_secs == cfg.docker_timeout
                    }
            },
            _ => false,
        }
    }

    /// What the final report holds: the spec file's basename, the mode's
    /// canonical name, and each phase record exactly as collected — the
    /// lint record iff lint ran, the generate and compile lists iff
    /// those phases ran to completion.
    pub closed spec fn report_matches(&self, r: ValidateReport) -> bool {
        &&& r.spec@ == spec_basename(self.spec_path@)
        &&& r.mode@ == spec_mode_str(self.cfg.mode)
        &&& match r.phases.lint {
            Some(l) => self.lint_result matches Some(l2) && l.linter@ == l2.linter@ && l.status@
                == l2.status@ && l.log@ == l2.log@,
            None => self.lint_result is None,
        }
        &&& match r.phases.generate {
            Some(steps) => self.gen_ran && steps@.len() == self.gen_results@.len() && forall|
                k: int,
            |
                0 <= k < steps@.len() ==> step_views_eq(
                    #[trigger] steps@[k],
                    self.gen_results@[k],
                ),
            None => !self.gen_ran,
        }
        &&& match r.phases.compile {
            Some(steps) => self.comp_ran && steps@.len() == self.comp_results@.len() && forall|
                k: int,
            |
                0 <= k < steps@.len() ==> step_views_eq(
                    #[trigger] steps@[k],
                    self.comp_results@[k],
                ),
            None => !self.comp_ran,
        }
    }

    /// Start a run: resolve the step list from the configuration. The
    /// worker cap and the user-mapping arguments come resolved from the
    /// caller.
    pub fn new(input: PipelineInput, jobs: usize, user_args: Vec<String>) -> (s: Self)
        requires
            jobs >= 1,
            4 * (input.config.server_generators@.len()
                + input.config.client_generators@.len()) < usize::MAX,
        ensures
            s.wf(),
            !s.is_done(),
            s.config() == input.config,
            s.spec_file() == input.spec_path@,
    {
        let generators = crate::pipeline::commands::build_generator_list(&input.config);
        proof {
            let sv = input.config.server_generators@.map_values(
                |g: String| (g@, "server"@),
            );
            let cv = input.config.client_generators@.map_values(
                |g: String| (g@, "client"@),
            );
            assert(sv.len() == input.config.server_generators@.len());
            assert(cv.len() == input.config.client_generators@.len());
            assert(string_pair_views(generators@).len() == generators@.len());
        }
        Scheduler {
            cfg: input.config,
            spec_path: input.spec_path,
            work_dir: input.work_dir,
            user_args,
            jobs,
            generators,
            stage: Stage::Start,
            lint_result: None,
            gen_results: Vec::new(),
            comp_results: Vec::new(),
            gen_ran: false,
            comp_ran: false,
        }
    }

    /// Whether the run has ended.
    pub fn is_finished(&self) -> (r: bool)
        ensures
            r == self.is_done(),
    {
        match self.stage {
            Stage::Done => true,
            _ => false,
        }
    }

    /// Build the generate or compile chunk starting at `start`.
    fn make_chunk(&self, start: usize, compile: bool) -> (r: (Vec<PlannedStep>, usize))
        requires
            start < self.generators@.len(),
            self.jobs >= 1,
        ensures
            start < r.1 <= self.generators@.len(),
            r.1 == if self.generators@.len() - start <= self.jobs {
                self.generators@.len() as int
            } else {
                start + self.jobs
            },
            r.0@.len() == r.1 - start,
            forall|k: int|
                0 <= k < r.0@.len() ==> {
                    let g = string_pair_views(self.generators@)[start + k];
                    &&& (!compile ==> (match (#[trigger] r.0@[k]).phase {
                        Phase::Generate { generator, scope } => generator@ == g.0 && scope@
                            == g.1,
                        _ => false,
                    }))
                    &&& (compile ==> (match r.0@[k].phase {
                        Phase::Compile { generator, scope } => generator@ == g.0 && scope@
                            == g.1,
                        _ => false,
                    }))
                    &&& (!compile ==> r.0@[k].command.args.deep_view() == spec_generator_args(
                        self.cfg,
                        self.spec_path@,
                        self.work_dir@,
                        self.user_args.deep_view(),
                        g.0,
                        g.1,
                    ))
                    &&& (compile ==> r.0@[k].command.args.deep_view() == spec_compile_args(
                        self.cfg,
                        self.work_dir@,
                        self.user_args.deep_view(),
                        g.0,
                        g.1,
                    ))
                    &&& r.0@[k].command.timeout_secs == self.cfg.docker_timeout
                },
    {
        let n: usize = self.generators.len();
        let end: usize = if n - start <= self.jobs {
            n
        } else {
            start + self.jobs
        };
        let mut steps: Vec<PlannedStep> = Vec::new();
        let mut k: usize = start;
        while k < end
            invariant
                start <= k <= end <= self.generators@.len(),
                steps@.len() == k - start,
                forall|j: int|
                    0 <= j < steps@.len() ==> {
                        let g = string_pair_views(self.generators@)[start + j];
                        &&& (!compile ==> (match (#[trigger] steps@[j]).phase {
                            Phase::Generate { generator, scope } => generator@ == g.0
                                && scope@ == g.1,
                            _ => false,
                        }))
                        &&& (compile ==> (match steps@[j].phase {
                            Phase::Compile { generator, scope } => generator@ == g.0
                                && scope@ == g.1,
                            _ => false,
                        }))
                        &&& (!compile ==> steps@[j].command.args.deep_view()
                            == spec_generator_args(
                            self.cfg,
                            self.spec_path@,
                            self.work_dir@,
                            self.user_args.deep_view(),
                            g.0,
                            g.1,
                        ))
                        &&& (compile ==> steps@[j].command.args.deep_view()
                            == spec_compile_args(
                            self.cfg,
                            self.work_dir@,
                            self.user_args.deep_view(),
                            g.0,
                            g.1,
                        ))
                        &&& steps@[j].command.timeout_secs == self.cfg.docker_timeout
                    },
            decreases end - k,
        {
            let generator = self.generators[k].0.clone();
            let scope = self.generators[k].1.clone();
            if compile {
                let command = compile_command(
                    &self.cfg,
                    self.work_dir.as_str(),
                    generator.as_str(),
                    scope.as_str(),
                    &self.user_args,
                );
                let phase = Phase::Compile { generator, scope };
                steps.push(PlannedStep { phase, command });
            } else {
                let command = generator_command(
                    &self.cfg,
                    self.spec_path.as_str(),
                    self.work_dir.as_str(),
                    generator.as_str(),
                    scope.as_str(),
                    &self.user_args,
                );
                let phase = Phase::Generate { generator, scope };
                steps.push(PlannedStep { phase, command });
            }
            k = k + 1;
        }
        (steps, end)
    }

    /// Record one chunk's outcomes as step records, pairing them with the
    /// generators of the chunk, in order.
    fn record_chunk(
        results: &mut Vec<StepResult>,
        generators: &Vec<(String, String)>,
        start: usize,
        end: usize,
        outcomes: &Vec<StepOutcome>,
    )
        requires
            start <= end <= generators@.len(),
        ensures
            final(results)@.len() == old(results)@.len() + if outcomes@.len() < end - start {
                outcomes@.len() as int
            } else {
                end - start
            },
            forall|k: int|
                0 <= k < old(results)@.len() ==> final(results)@[k] == old(results)@[k],
            forall|k: int|
                old(results)@.len() <= k < final(results)@.len() ==> {
                    let o = outcomes@[k - old(results)@.len()];
                    let g = string_pair_views(generators@)[start + (k - old(results)@.len())];
                    step_record_matches(
                        #[trigger] final(results)@[k],
                        g,
                        (o.success, o.log@),
                    )
                },
    {
        proof {
            reveal_strlit("pass");
            reveal_strlit("fail");
            assert("pass"@.len() == 4);
            assert("pass"@[0] == 'p');
            assert("fail"@[0] == 'f');
            assert("pass"@ != "fail"@);
        }
        let chunk_len: usize = end - start;
        let take_n: usize = if outcomes.len() < chunk_len {
            outcomes.len()
        } else {
            chunk_len
        };
        let mut k: usize = 0;
        while k < take_n
            invariant
                k <= take_n,
                take_n <= outcomes@.len(),
                take_n <= end - start,
                start <= end <= generators@.len(),
                "pass"@ != "fail"@,
                results@.len() == old(results)@.len() + k,
                forall|j: int|
                    0 <= j < old(results)@.len() ==> results@[j] == old(results)@[j],
                forall|j: int|
                    old(results)@.len() <= j < results@.len() ==> {
                        let o = outcomes@[j - old(results)@.len()];
                        let g = string_pair_views(generators@)[start + (j - old(
                            results,
                        )@.len())];
                        step_record_matches(#[trigger] results@[j], g, (o.success, o.log@))
                    },
            decreases take_n - k,
        {
            let status = if outcomes[k].success {
                String::from_str("pass")
            } else {
                String::from_str("fail")
            };
            results.push(
                StepResult {
                    generator: generators[start + k].0.clone(),
                    scope: generators[start + k].1.clone(),
                    status,
                    log: outcomes[k].log.clone(),
                },
            );
            k = k + 1;
        }
    }

    /// Assemble the final report from the collected records.
    fn build_report(&self) -> (r: ValidateReport)
        requires
            self.wf(),
        ensures
            report_consistent(r),
            self.report_matches(r),
            r.phases.lint is Some <==> self.lint_result is Some,
            r.phases.generate is Some <==> self.gen_ran,
            r.phases.compile is Some <==> self.comp_ran,
            self.comp_ran ==> (match r.phases.generate {
                Some(g) => spec_passed_count(g@) == g@.len(),
                None => false,
            }),
    {
        proof {
            reveal_strlit("pass");
        }
        let lint = clone_lint_option(&self.lint_result);
        let generate: Option<Vec<StepResult>> = if self.gen_ran {
            let cloned = clone_steps(&self.gen_results);
            proof {
                assert(cloned@ =~= self.gen_results@);
            }
            Some(cloned)
        } else {
            None
        };
        let compile: Option<Vec<StepResult>> = if self.comp_ran {
            Some(clone_steps(&self.comp_results))
        } else {
            None
        };

        let (lint_total, lint_passed_n): (usize, usize) = match &lint {
            Some(l) => {
                let chars = crate::text::str_to_chars(l.status.as_str());
                if crate::text::chars_eq_str(&chars, "pass") {
                    (1, 1)
                } else {
                    (1, 0)
                }
            },
            None => (0, 0),
        };
        let (gen_total, gen_passed): (usize, usize) = match &generate {
            Some(steps) => {
                proof {
                    lemma_passed_count_le(steps@);
                }
                (steps.len(), count_passed(steps))
            },
            None => (0, 0),
        };
        let (comp_total, comp_passed): (usize, usize) = match &compile {
            Some(steps) => {
                proof {
                    lemma_passed_count_le(steps@);
                }
                (steps.len(), count_passed(steps))
            },
            None => (0, 0),
        };
        let total: usize = lint_total + gen_total + comp_total;
        let passed: usize = lint_passed_n + gen_passed + comp_passed;
        let failed: usize = total - passed;
        ValidateReport {
            spec: crate::text::basename(self.spec_path.as_str()),
            mode: String::from_str(self.cfg.mode.as_str()),
            phases: Phases { lint, generate, compile },
            summary: Summary { total, passed, failed },
        }
    }

    /// Record the outcomes of the last issued chunk and decide what
    /// happens next: the next chunk to run, or the terminal event.
    ///
    /// An observed cancellation never issues further work; it either
    /// aborts the run or (when nothing remained) completes it. A
    /// completed run's report is consistent: its total is the number of
    /// step records and splits into passed and failed.
    pub fn advance(&mut self, outcomes: Vec<StepOutcome>, cancelled: bool) -> (w: Work)
        requires
            old(self).wf(),
            !old(self).is_done(),
        ensures
            final(self).wf(),
            final(self).config() == old(self).config(),
            cancelled ==> !(w is Run),
            (w is Finished) <==> final(self).is_done(),
            final(self).measure() < old(self).measure(),
            match w {
                Work::Run(steps) => steps@.len() >= 1 && final(self).chunk_ok(steps@),
                Work::Finished(ev) => {
                    &&& is_terminal(ev)
                    &&& match ev {
                        PipelineEvent::Aborted(m) => cancelled && m@ == "Cancelled by user"@,
                        PipelineEvent::Completed(report) => {
                            &&& report_consistent(report)
                            &&& final(self).report_matches(report)
                            &&& report.spec@ == spec_basename(old(self).spec_file())
                            &&& report.mode@ == spec_mode_str(old(self).config().mode)
                            &&& (report.phases.lint is Some <==> spec_lint_enabled(
                                old(self).config(),
                            ))
                            &&& (report.phases.generate is Some <==> spec_gen_enabled(
                                old(self).config(),
                            ))
                            &&& report.phases.compile is Some ==> old(self).config().compile
                            &&& report.phases.compile is Some ==> (match report.phases.generate {
                                Some(g) => spec_passed_count(g@) == g@.len(),
                                None => false,
                            })
                        },
                        _ => false,
                    }
                },
            },
    {
        let stage = self.stage;
        match stage {
            Stage::Start => {
                let lint_on = self.cfg.lint && match self.cfg.linter {
                    Linter::Off => false,
                    _ => true,
                };
                if lint_on {
                    if cancelled {
                        // An observed cancellation stops the run before
                        // the lint container is even launched.
                        self.stage = Stage::Done;
                        return Work::Finished(
                            PipelineEvent::Aborted(String::from_str("Cancelled by user")),
                        );
                    }
                    let command = match self.cfg.linter {
                        Linter::Spectral => spectral_command(
                            &self.cfg,
                            self.spec_path.as_str(),
                            self.work_dir.as_str(),
                            &self.user_args,
                        ),
                        _ => redocly_command(
                            &self.cfg,
                            self.spec_path.as_str(),
                            self.work_dir.as_str(),
                            &self.user_args,
                        ),
                    };
                    let mut steps: Vec<PlannedStep> = Vec::new();
                    steps.push(PlannedStep { phase: Phase::Lint, command });
                    self.stage = Stage::WaitLint;
                    proof {
                        assert(self.chunk_ok(steps@));
                    }
                    return Work::Run(steps);
                }
                self.next_after_lint(cancelled)
            },
            Stage::WaitLint => {
                let (status, log): (String, String) = if outcomes.len() >= 1 {
                    let s = if outcomes[0].success {
                        String::from_str("pass")
                    } else {
                        String::from_str("fail")
                    };
                    (s, outcomes[0].log.clone())
                } else {
                    (String::from_str("fail"), String::new())
                };
                self.lint_result = Some(
                    LintResult {
                        linter: String::from_str(self.cfg.linter.as_str()),
                        status,
                        log,
                    },
                );
                if cancelled {
                    self.stage = Stage::Done;
                    return Work::Finished(
                        PipelineEvent::Aborted(String::from_str("Cancelled by user")),
                    );
                }
                self.next_after_lint(cancelled)
            },
            Stage::WaitGen { start, end } => {
                Self::record_chunk(
                    &mut self.gen_results,
                    &self.generators,
                    start,
                    end,
                    &outcomes,
                );
                if cancelled {
                    self.stage = Stage::Done;
                    return Work::Finished(
                        PipelineEvent::Aborted(String::from_str("Cancelled by user")),
                    );
                }
                if end < self.generators.len() {
                    let (steps, end2) = self.make_chunk(end, false);
                    self.stage = Stage::WaitGen { start: end, end: end2 };
                    proof {
                        assert(self.chunk_ok(steps@));
                    }
                    return Work::Run(steps);
                }
                self.gen_ran = true;
                proof {
                    reveal_strlit("pass");
                }
                let all_passed = count_passed(&self.gen_results) == self.gen_results.len();
                if self.cfg.compile && all_passed && self.generators.len() > 0 {
                    let (steps, end2) = self.make_chunk(0, true);
                    self.stage = Stage::WaitComp { start: 0, end: end2 };
                    proof {
                        assert(self.chunk_ok(steps@));
                    }
                    return Work::Run(steps);
                }
                self.stage = Stage::Done;
                let report = self.build_report();
                Work::Finished(PipelineEvent::Completed(report))
            },
            Stage::WaitComp { start, end } => {
                Self::record_chunk(
                    &mut self.comp_results,
                    &self.generators,
                    start,
                    end,
                    &outcomes,
                );
                if cancelled {
                    self.stage = Stage::Done;
                    return Work::Finished(
                        PipelineEvent::Aborted(String::from_str("Cancelled by user")),
                    );
                }
                if end < self.generators.len() {
                    let (steps, end2) = self.make_chunk(end, true);
                    self.stage = Stage::WaitComp { start: end, end: end2 };
                    proof {
                        assert(self.chunk_ok(steps@));
                    }
                    return Work::Run(steps);
                }
                self.comp_ran = true;
                self.stage = Stage::Done;
                let report = self.build_report();
                Work::Finished(PipelineEvent::Completed(report))
            },
            Stage::Done => {
                // Unreachable: callers may not advance a finished run.
                proof {
                    assert(false);
                }
                Work::Finished(
                    PipelineEvent::Aborted(String::from_str("Cancelled by user")),
                )
            },
        }
    }

    /// What follows the lint phase: the generate phase when configured
    /// and non-empty, else the final report.
    fn next_after_lint(&mut self, cancelled: bool) -> (w: Work)
        requires
            old(self).wf(),
            old(self).gen_results@.len() == 0,
            old(self).comp_results@.len() == 0,
            !old(self).gen_ran,
            !old(self).comp_ran,
            old(self).cfg.lint && !(old(self).cfg.linter is Off) ==> old(
                self,
            ).lint_result is Some,
        ensures
            final(self).wf(),
            final(self).config() == old(self).config(),
            cancelled ==> !(w is Run),
            (w is Finished) <==> final(self).is_done(),
            final(self).measure() <= 2 * final(self).generator_pairs().len() + 1,
            final(self).generator_pairs() == old(self).generator_pairs(),
            match w {
                Work::Run(steps) => steps@.len() >= 1 && final(self).chunk_ok(steps@),
                Work::Finished(ev) => {
                    &&& is_terminal(ev)
                    &&& match ev {
                        PipelineEvent::Aborted(m) => cancelled && m@ == "Cancelled by user"@,
                        PipelineEvent::Completed(report) => {
                            &&& report_consistent(report)
                            &&& final(self).report_matches(report)
                            &&& report.spec@ == spec_basename(old(self).spec_file())
                            &&& report.mode@ == spec_mode_str(old(self).config().mode)
                            &&& (report.phases.lint is Some <==> spec_lint_enabled(
                                old(self).config(),
                            ))
                            &&& (report.phases.generate is Some <==> spec_gen_enabled(
                                old(self).config(),
                            ))
                            &&& report.phases.compile is Some ==> old(self).config().compile
                            &&& report.phases.compile is Some ==> (match report.phases.generate {
                                Some(g) => spec_passed_count(g@) == g@.len(),
                                None => false,
                            })
                        },
                        _ => false,
                    }
                },
            },
    {
        if self.cfg.generate && self.generators.len() > 0 {
            if cancelled {
                self.stage = Stage::Done;
                return Work::Finished(
                    PipelineEvent::Aborted(String::from_str("Cancelled by user")),
                );
            }
            let (steps, end) = self.make_chunk(0, false);
            self.stage = Stage::WaitGen { start: 0, end };
            proof {
                assert(self.chunk_ok(steps@));
            }
            return Work::Run(steps);
        }
        let report = self.build_report();
        self.stage = Stage::Done;
        Work::Finished(PipelineEvent::Completed(report))
    }
}

/// Whether two step records agree field by field.
pub open spec fn step_views_eq(a: StepResult, b: StepResult) -> bool {
    a.generator@ == b.generator@ && a.scope@ == b.scope@ && a.status@ == b.status@ && a.log@
        == b.log@
}

/// Clone a step-record list, field by field.
fn clone_steps(v: &Vec<StepResult>) -> (r: Vec<StepResult>)
    ensures
        r@.len() == v@.len(),
        forall|k: int| 0 <= k < v@.len() ==> #[trigger] r@[k] == v@[k],
{
    let mut r: Vec<StepResult> = Vec::new();
    let mut i: usize = 0;
    while i < v.len()
        invariant
            i <= v@.len(),
            r@.len() == i,
            forall|k: int| 0 <= k < i ==> #[trigger] r@[k] == v@[k],
        decreases v@.len() - i,
    {
        r.push(
            StepResult {
                generator: v[i].generator.clone(),
                scope: v[i].scope.clone(),
                status: v[i].status.clone(),
                log: v[i].log.clone(),
            },
        );
        i = i + 1;
    }
    r
}

/// Clone the optional lint record, field by field.
fn clone_lint_option(v: &Option<LintResult>) -> (r: Option<LintResult>)
    ensures
        match r {
            Some(l) => v matches Some(l2) && l == l2,
            None => v is None,
        },
{
    match v {
        Some(l) => Some(
            LintResult {
                linter: l.linter.clone(),
                status: l.status.clone(),
                log: l.log.clone(),
            },
        ),
        None => None,
    }
}

/// Count the passing records of a phase.
fn count_passed(steps: &Vec<StepResult>) -> (r: usize)
    ensures
        r == spec_passed_count(steps@),
{
    proof {
        assert(steps@.take(0) =~= Seq::<StepResult>::empty());
        lemma_passed_count_le(steps@);
    }
    let mut count: usize = 0;
    let mut i: usize = 0;
    while i < steps.len()
        invariant
            i <= steps@.len(),
            count == spec_passed_count(steps@.take(i as int)),
            count <= i,
        decreases steps@.len() - i,
    {
        proof {
            assert(steps@.take(i + 1).drop_last() =~= steps@.take(i as int));
            assert(steps@.take(i + 1).last() == steps@[i as int]);
        }
        let chars = crate::text::str_to_chars(steps[i].status.as_str());
        if crate::text::chars_eq_str(&chars, "pass") {
            count = count + 1;
        }
        i = i + 1;
    }
    proof {
        assert(steps@.take(steps@.len() as int) =~= steps@);
    }
    count
}

/// No phase passes more steps than it ran.
pub proof fn lemma_passed_count_le(steps: Seq<StepResult>)
    ensures
        spec_passed_count(steps) <= steps.len(),
    decreases steps.len(),
{
    if steps.len() > 0 {
        lemma_passed_count_le(steps.drop_last());
    }
}


/// Clone a phase identifier.
pub fn clone_phase(p: &Phase) -> (r: Phase)
    ensures
        r == *p,
{
    match p {
        Phase::Lint => Phase::Lint,
        Phase::Generate { generator, scope } => Phase::Generate {
            generator: generator.clone(),
            scope: scope.clone(),
        },
        Phase::Compile { generator, scope } => Phase::Compile {
            generator: generator.clone(),
            scope: scope.clone(),
        },
    }
}

/// The `pass`/`fail` status string for a step's success.
fn status_string(success: bool) -> (r: String)
    ensures
        r@ == if success {
            "pass"@
        } else {
            "fail"@
        },
{
    if success {
        String::from_str("pass")
    } else {
        String::from_str("fail")
    }
}

/// The outcome the step at supply index `j` observes: the j-th supplied
/// one, or a spawn failure once the supply is exhausted.
fn outcome_at(outcomes: &Vec<StepOutcome>, j: usize) -> (o: StepOutcome)
    ensures
        o.success == spec_outcome_at(outcomes@, j as int).0,
        o.log@ == spec_outcome_at(outcomes@, j as int).1,
{
    if j < outcomes.len() {
        StepOutcome { success: outcomes[j].success, log: outcomes[j].log.clone() }
    } else {
        StepOutcome { success: false, log: String::from_str("Failed to spawn container") }
    }
}

/// Extending a well-ordered stream by one step block keeps it well
/// ordered: the block starts with the phase's `PhaseStarted`, and every
/// later block event belongs to that phase.
proof fn lemma_precedence_block(pre: Seq<PipelineEvent>, post: Seq<PipelineEvent>, phase: Phase)
    requires
        stream_precedence_ok(pre),
        post.len() > pre.len(),
        forall|i: int| 0 <= i < pre.len() ==> post[i] == pre[i],
        post[pre.len() as int] == PipelineEvent::PhaseStarted(phase),
        forall|i: int|
            pre.len() < i < post.len() ==> (match #[trigger] post[i] {
                PipelineEvent::Log { phase: p, line } => p == phase,
                PipelineEvent::PhaseFinished { phase: p, success } => p == phase,
                _ => false,
            }),
    ensures
        stream_precedence_ok(post),
{
    assert forall|k: int| 0 <= k < post.len() implies match #[trigger] post[k] {
        PipelineEvent::Log { phase: p, line } => exists|j: int|
            #![trigger post[j]]
            0 <= j < k && post[j] == PipelineEvent::PhaseStarted(p),
        PipelineEvent::PhaseFinished { phase: p, success } => exists|j: int|
            #![trigger post[j]]
            0 <= j < k && post[j] == PipelineEvent::PhaseStarted(p),
        _ => true,
    } by {
        if k < pre.len() {
            assert(post[k] == pre[k]);
            match pre[k] {
                PipelineEvent::Log { phase: p, line } => {
                    let j = choose|j: int|
                        #![trigger pre[j]]
                        0 <= j < k && pre[j] == PipelineEvent::PhaseStarted(p);
                    assert(post[j] == pre[j]);
                },
                PipelineEvent::PhaseFinished { phase: p, success } => {
                    let j = choose|j: int|
                        #![trigger pre[j]]
                        0 <= j < k && pre[j] == PipelineEvent::PhaseStarted(p);
                    assert(post[j] == pre[j]);
                },
                _ => {},
            }
        } else if k > pre.len() {
            assert(post[pre.len() as int] == PipelineEvent::PhaseStarted(phase));
        }
    }
}

/// Appending an event that is neither a log line nor a finish keeps a
/// stream well ordered.
proof fn lemma_precedence_push_other(pre: Seq<PipelineEvent>, post: Seq<PipelineEvent>)
    requires
        stream_precedence_ok(pre),
        post.len() == pre.len() + 1,
        forall|i: int| 0 <= i < pre.len() ==> post[i] == pre[i],
        match post.last() {
            PipelineEvent::Log { phase, line } => false,
            PipelineEvent::PhaseFinished { phase, success } => false,
            _ => true,
        },
    ensures
        stream_precedence_ok(post),
{
    assert forall|k: int| 0 <= k < post.len() implies match #[trigger] post[k] {
        PipelineEvent::Log { phase: p, line } => exists|j: int|
            #![trigger post[j]]
            0 <= j < k && post[j] == PipelineEvent::PhaseStarted(p),
        PipelineEvent::PhaseFinished { phase: p, success } => exists|j: int|
            #![trigger post[j]]
            0 <= j < k && post[j] == PipelineEvent::PhaseStarted(p),
        _ => true,
    } by {
        if k < pre.len() {
            assert(post[k] == pre[k]);
            match pre[k] {
                PipelineEvent::Log { phase: p, line } => {
                    let j = choose|j: int|
                        #![trigger pre[j]]
                        0 <= j < k && pre[j] == PipelineEvent::PhaseStarted(p);
                    assert(post[j] == pre[j]);
                },
                PipelineEvent::PhaseFinished { phase: p, success } => {
                    let j = choose|j: int|
                        #![trigger pre[j]]
                        0 <= j < k && pre[j] == PipelineEvent::PhaseStarted(p);
                    assert(post[j] == pre[j]);
                },
                _ => {},
            }
        }
    }
}

/// Emit one step's event block: `PhaseStarted`, one `Log` per line of
/// the outcome's merged log in order, then `PhaseFinished` carrying the
/// outcome's success.
#[verifier::rlimit(100)]
pub fn push_step_events(events: &mut Vec<PipelineEvent>, phase: &Phase, outcome: &StepOutcome)
    ensures
        final(events)@.len() == old(events)@.len() + 2 + spec_lines(outcome.log@).len(),
        forall|i: int| 0 <= i < old(events)@.len() ==> final(events)@[i] == old(events)@[i],
        final(events)@[old(events)@.len() as int] == PipelineEvent::PhaseStarted(*phase),
        forall|k: int|
            0 <= k < spec_lines(outcome.log@).len() ==> (match #[trigger] final(events)@[old(
                events,
            )@.len() + 1 + k] {
                PipelineEvent::Log { phase: p, line } => p == *phase && line@ == spec_lines(
                    outcome.log@,
                )[k],
                _ => false,
            }),
        final(events)@.last() == (PipelineEvent::PhaseFinished {
            phase: *phase,
            success: outcome.success,
        }),
        forall|i: int|
            old(events)@.len() <= i < final(events)@.len() ==> !is_terminal(
                #[trigger] final(events)@[i],
            ),
        spec_started_count(final(events)@) == spec_started_count(old(events)@) + 1,
        stream_precedence_ok(old(events)@) ==> stream_precedence_ok(final(events)@),
{
    let ghost base = events@;
    events.push(PipelineEvent::PhaseStarted(clone_phase(phase)));
    proof {
        assert(events@.drop_last() =~= base);
        assert(spec_started_count(events@) == spec_started_count(base) + 1);
    }
    let log_lines = split_lines(outcome.log.as_str());
    let mut li: usize = 0;
    while li < log_lines.len()
        invariant
            li <= log_lines@.len(),
            log_lines.deep_view() == spec_lines(outcome.log@),
            log_lines@.len() == spec_lines(outcome.log@).len(),
            forall|k: int|
                0 <= k < log_lines@.len() ==> #[trigger] log_lines@[k]@ == spec_lines(
                    outcome.log@,
                )[k],
            events@.len() == base.len() + 1 + li,
            forall|i: int| 0 <= i < base.len() ==> events@[i] == base[i],
            events@[base.len() as int] == PipelineEvent::PhaseStarted(*phase),
            forall|k: int|
                0 <= k < li ==> (match #[trigger] events@[base.len() + 1 + k] {
                    PipelineEvent::Log { phase: p, line } => p == *phase && line@
                        == spec_lines(outcome.log@)[k],
                    _ => false,
                }),
            spec_started_count(events@) == spec_started_count(base) + 1,
        decreases log_lines@.len() - li,
    {
        let ghost pre = events@;
        events.push(
            PipelineEvent::Log { phase: clone_phase(phase), line: log_lines[li].clone() },
        );
        proof {
            assert(events@.drop_last() =~= pre);
        }
        li = li + 1;
    }
    let ghost pre_fin = events@;
    events.push(
        PipelineEvent::PhaseFinished { phase: clone_phase(phase), success: outcome.success },
    );
    proof {
        assert(events@.drop_last() =~= pre_fin);
        let old_len = base.len() as int;
        assert forall|i: int| old_len <= i < events@.len() implies !is_terminal(
            #[trigger] events@[i],
        ) by {
            if i < events@.len() - 1 {
                assert(events@[i] == pre_fin[i]);
                if i > old_len {
                    let k = i - old_len - 1;
                    assert(match pre_fin[base.len() + 1 + k] {
                        PipelineEvent::Log { phase: p, line } => p == *phase && line@
                            == spec_lines(outcome.log@)[k],
                        _ => false,
                    });
                } else {
                    assert(pre_fin[i] == PipelineEvent::PhaseStarted(*phase));
                }
            }
        }
        if stream_precedence_ok(base) {
            assert forall|i: int|
                base.len() < i < events@.len() implies (match #[trigger] events@[i] {
                PipelineEvent::Log { phase: p, line } => p == *phase,
                PipelineEvent::PhaseFinished { phase: p, success } => p == *phase,
                _ => false,
            }) by {
                if i < events@.len() - 1 {
                    assert(events@[i] == pre_fin[i]);
                    let k = i - old_len - 1;
                    assert(match pre_fin[base.len() + 1 + k] {
                        PipelineEvent::Log { phase: p, line } => p == *phase && line@
                            == spec_lines(outcome.log@)[k],
                        _ => false,
                    });
                }
            }
            lemma_precedence_block(base, events@, *phase);
        }
    }
}

/// Assemble a report from the phase records: the spec file's basename,
/// the mode's canonical name, the records as given, and a summary that
/// counts them.
fn assemble_report(
    lint: Option<LintResult>,
    generate: Option<Vec<StepResult>>,
    compile: Option<Vec<StepResult>>,
    spec_path: &str,
    mode: Mode,
) -> (r: ValidateReport)
    requires
        (match generate {
            Some(g) => g@.len() as int,
            None => 0int,
        }) + (match compile {
            Some(c) => c@.len() as int,
            None => 0int,
        }) + 1 <= usize::MAX,
    ensures
        report_consistent(r),
        r.spec@ == spec_basename(spec_path@),
        r.mode@ == spec_mode_str(mode),
        r.phases.lint == lint,
        r.phases.generate == generate,
        r.phases.compile == compile,
{
    proof {
        reveal_strlit("pass");
    }
    let (lint_total, lint_passed_n): (usize, usize) = match &lint {
        Some(l) => {
            let chars = crate::text::str_to_chars(l.status.as_str());
            if crate::text::chars_eq_str(&chars, "pass") {
                (1, 1)
            } else {
                (1, 0)
            }
        },
        None => (0, 0),
    };
    let (gen_total, gen_passed): (usize, usize) = match &generate {
        Some(steps) => {
            proof {
                lemma_passed_count_le(steps@);
            }
            (steps.len(), count_passed(steps))
        },
        None => (0, 0),
    };
    let (comp_total, comp_passed): (usize, usize) = match &compile {
        Some(steps) => {
            proof {
                lemma_passed_count_le(steps@);
            }
            (steps.len(), count_passed(steps))
        },
        None => (0, 0),
    };
    let total: usize = lint_total + gen_total + comp_total;
    let passed: usize = lint_passed_n + gen_passed + comp_passed;
    let failed: usize = total - passed;
    ValidateReport {
        spec: crate::text::basename(spec_path),
        mode: String::from_str(mode.as_str()),
        phases: Phases { lint, generate, compile },
        summary: Summary { total, passed, failed },
    }
}

/// A phase passes every step exactly when every observed outcome
/// succeeded, once its records pair the generators with the outcomes.
proof fn lemma_records_all_pass_iff(
    recs: Seq<StepResult>,
    gens: Seq<(Seq<char>, Seq<char>)>,
    outcomes: Seq<StepOutcome>,
    off: int,
)
    requires
        recs.len() == gens.len(),
        forall|k: int|
            0 <= k < recs.len() ==> step_record_matches(
                #[trigger] recs[k],
                gens[k],
                spec_outcome_at(outcomes, off + k),
            ),
    ensures
        (spec_passed_count(recs) == recs.len()) <==> (forall|k: int|
            0 <= k < gens.len() ==> (#[trigger] spec_outcome_at(outcomes, off + k)).0),
    decreases recs.len(),
{
    reveal_strlit("pass");
    reveal_strlit("fail");
    assert("pass"@.len() == 4);
    assert("pass"@[0] == 'p');
    assert("fail"@[0] == 'f');
    assert("pass"@ != "fail"@);
    lemma_passed_count_le(recs);
    if recs.len() > 0 {
        let m = recs.len() - 1;
        let d = recs.drop_last();
        let gd = gens.drop_last();
        assert(forall|k: int|
            0 <= k < d.len() ==> step_record_matches(
                #[trigger] d[k],
                gd[k],
                spec_outcome_at(outcomes, off + k),
            ));
        lemma_records_all_pass_iff(d, gd, outcomes, off);
        lemma_passed_count_le(d);
        assert(step_record_matches(recs[m as int], gens[m as int], spec_outcome_at(
            outcomes,
            off + m,
        )));
        let last_pass = spec_outcome_at(outcomes, off + m).0;
        assert(crate::pipeline::types::step_passed(recs.last()) == last_pass);
        if spec_passed_count(recs) == recs.len() {
            assert(spec_passed_count(d) == d.len());
            assert forall|k: int| 0 <= k < gens.len() implies (#[trigger] spec_outcome_at(
                outcomes,
                off + k,
            )).0 by {
                if k < m {
                    assert(gd[k] == gens[k]);
                }
            }
        }
        if forall|k: int|
            0 <= k < gens.len() ==> (#[trigger] spec_outcome_at(outcomes, off + k)).0 {
            assert forall|k: int| 0 <= k < gd.len() implies (#[trigger] spec_outcome_at(
                outcomes,
                off + k,
            )).0 by {
                assert(0 <= k < gens.len());
            }
            assert(spec_passed_count(d) == d.len());
            assert(last_pass);
        }
    }
}

/// Drive a whole run sequentially: the lint step when enabled, then the
/// generate steps in list order, then - exactly when compiling is
/// enabled and every generate outcome passed - the compile steps, each
/// step taking the next outcome of the supply (a missing outcome reads
/// as a spawn failure). Collects the emitted events.
///
/// The stream holds exactly one terminal event, and it comes last;
/// every log line and every finish follows the start of its phase; the
/// number of started steps equals the number of report records; a
/// completed run's report is fully determined by the configuration,
/// the spec path and the outcomes; only an observed cancellation
/// aborts; and a run that starts cancelled emits nothing beyond its
/// terminal event, completing only the empty pipeline.
pub fn run_to_completion(
    input: PipelineInput,
    outcomes: Vec<StepOutcome>,
    cancelled: bool,
) -> (events: Vec<PipelineEvent>)
    requires
        4 * (input.config.server_generators@.len() + input.config.client_generators@.len())
            < usize::MAX,
    ensures
        events@.len() >= 1,
        is_terminal(events@.last()),
        forall|i: int| 0 <= i < events@.len() - 1 ==> !is_terminal(#[trigger] events@[i]),
        stream_precedence_ok(events@),
        events@.last() is Aborted ==> cancelled,
        cancelled ==> events@.len() == 1,
        events@.last() matches PipelineEvent::Completed(report) ==> {
            &&& completed_report_matches(report, input.config, input.spec_path@, outcomes@)
            &&& spec_started_count(events@) == spec_report_records(report)
        },
        cancelled ==> (match events@.last() {
            PipelineEvent::Completed(r) => r.summary.total == 0 && r.summary.passed == 0,
            _ => true,
        }),
{
    let cfg = &input.config;
    let generators = crate::pipeline::commands::build_generator_list(cfg);
    let n: usize = generators.len();
    let ghost gens = spec_generator_list(input.config);
    proof {
        assert(string_pair_views(generators@).len() == generators@.len());
        assert(gens.len() == n);
        assert(gens.len() <= input.config.server_generators@.len()
            + input.config.client_generators@.len()) by {
            let sv = input.config.server_generators@.map_values(|g: String| (g@, "server"@));
            let cv = input.config.client_generators@.map_values(|g: String| (g@, "client"@));
            assert(sv.len() == input.config.server_generators@.len());
            assert(cv.len() == input.config.client_generators@.len());
        }
        assert(4 * (n as int) < usize::MAX);
    }
    let lint_enabled = cfg.lint && (match cfg.linter {
        Linter::Off => false,
        _ => true,
    });
    let gen_enabled = cfg.generate && n > 0;
    proof {
        assert(lint_enabled == spec_lint_enabled(input.config));
        assert(gen_enabled == spec_gen_enabled(input.config));
    }
    let mut events: Vec<PipelineEvent> = Vec::new();

    if cancelled && (lint_enabled || gen_enabled) {
        events.push(PipelineEvent::Aborted(String::from_str("Cancelled by user")));
        proof {
            assert(events@.len() == 1);
            assert(is_terminal(events@.last()));
            assert(stream_precedence_ok(events@)) by {
                assert(forall|k: int|
                    0 <= k < events@.len() ==> (#[trigger] events@[k]) is Aborted);
            }
        }
        return events;
    }

    // Lint phase.
    let base: usize = if lint_enabled {
        1
    } else {
        0
    };
    proof {
        assert(base as int == spec_lint_offset(input.config));
    }
    let mut lint_rec: Option<LintResult> = None;
    if lint_enabled {
        let o = outcome_at(&outcomes, 0);
        let phase = Phase::Lint;
        push_step_events(&mut events, &phase, &o);
        lint_rec = Some(
            LintResult {
                linter: String::from_str(cfg.linter.as_str()),
                status: status_string(o.success),
                log: o.log,
            },
        );
    }
    proof {
        assert(match lint_rec {
            Some(l) => {
                &&& l.linter@ == spec_linter_str(input.config.linter)
                &&& l.status@ == if spec_outcome_at(outcomes@, 0).0 {
                    "pass"@
                } else {
                    "fail"@
                }
                &&& l.log@ == spec_outcome_at(outcomes@, 0).1
            },
            None => !spec_lint_enabled(input.config),
        });
        assert(spec_started_count(events@) == base as int);
        assert(forall|i: int| 0 <= i < events@.len() ==> !is_terminal(#[trigger] events@[i]));
        assert(stream_precedence_ok(events@)) by {
            if events@.len() == 0 {
            }
        }
    }

    // Generate phase.
    let mut gen_recs: Vec<StepResult> = Vec::new();
    if gen_enabled {
        let mut k: usize = 0;
        while k < n
            invariant
                k <= n,
                n == generators@.len(),
                n == gens.len(),
                4 * (n as int) < usize::MAX,
                base <= 1,
                gens == spec_generator_list(input.config),
                string_pair_views(generators@) == gens,
                gen_recs@.len() == k,
                forall|j: int|
                    0 <= j < k ==> step_record_matches(
                        #[trigger] gen_recs@[j],
                        gens[j],
                        spec_outcome_at(outcomes@, base + j),
                    ),
                forall|i: int|
                    0 <= i < events@.len() ==> !is_terminal(#[trigger] events@[i]),
                stream_precedence_ok(events@),
                spec_started_count(events@) == base + k,
            decreases n - k,
        {
            let o = outcome_at(&outcomes, base + k);
            let success = o.success;
            let phase = Phase::Generate {
                generator: generators[k].0.clone(),
                scope: generators[k].1.clone(),
            };
            push_step_events(&mut events, &phase, &o);
            gen_recs.push(
                StepResult {
                    generator: generators[k].0.clone(),
                    scope: generators[k].1.clone(),
                    status: status_string(success),
                    log: o.log,
                },
            );
            proof {
                assert(gens[k as int] == (generators@[k as int].0@, generators@[k as int].1@));
                assert(step_record_matches(
                    gen_recs@.last(),
                    gens[k as int],
                    spec_outcome_at(outcomes@, base + k),
                ));
            }
            k = k + 1;
        }
    }

    // Compile phase, gated on every generate outcome passing.
    let mut comp_recs: Vec<StepResult> = Vec::new();
    let mut compile_ran = false;
    if gen_enabled && cfg.compile {
        let all_passed = count_passed(&gen_recs) == gen_recs.len();
        proof {
            lemma_records_all_pass_iff(gen_recs@, gens, outcomes@, base as int);
            assert(all_passed == spec_all_generates_pass(input.config, outcomes@));
        }
        if all_passed {
            compile_ran = true;
            let mut k: usize = 0;
            while k < n
                invariant
                    k <= n,
                    n == generators@.len(),
                    n == gens.len(),
                    4 * (n as int) < usize::MAX,
                    base <= 1,
                    gens == spec_generator_list(input.config),
                    string_pair_views(generators@) == gens,
                    comp_recs@.len() == k,
                    forall|j: int|
                        0 <= j < k ==> step_record_matches(
                            #[trigger] comp_recs@[j],
                            gens[j],
                            spec_outcome_at(outcomes@, base + n + j),
                        ),
                    forall|i: int|
                        0 <= i < events@.len() ==> !is_terminal(#[trigger] events@[i]),
                    stream_precedence_ok(events@),
                    spec_started_count(events@) == base + n + k,
                decreases n - k,
            {
                let o = outcome_at(&outcomes, base + n + k);
                let success = o.success;
                let phase = Phase::Compile {
                    generator: generators[k].0.clone(),
                    scope: generators[k].1.clone(),
                };
                push_step_events(&mut events, &phase, &o);
                comp_recs.push(
                    StepResult {
                        generator: generators[k].0.clone(),
                        scope: generators[k].1.clone(),
                        status: status_string(success),
                        log: o.log,
                    },
                );
                proof {
                    assert(gens[k as int] == (
                        generators@[k as int].0@,
                        generators@[k as int].1@,
                    ));
                    assert(step_record_matches(
                        comp_recs@.last(),
                        gens[k as int],
                        spec_outcome_at(outcomes@, base + n + k),
                    ));
                }
                k = k + 1;
            }
        }
    }
    proof {
        assert(compile_ran == spec_compile_runs(input.config, outcomes@));
    }

    // Report and terminal event.
    let ghost genv = gen_recs@;
    let ghost compv = comp_recs@;
    let ghost started = spec_started_count(events@);
    let generate_opt: Option<Vec<StepResult>> = if gen_enabled {
        Some(gen_recs)
    } else {
        None
    };
    let compile_opt: Option<Vec<StepResult>> = if compile_ran {
        Some(comp_recs)
    } else {
        None
    };
    let report = assemble_report(
        lint_rec,
        generate_opt,
        compile_opt,
        input.spec_path.as_str(),
        cfg.mode,
    );
    proof {
        assert(completed_report_matches(report, input.config, input.spec_path@, outcomes@));
        assert(started == spec_report_records(report));
    }
    let ghost pre_terminal = events@;
    events.push(PipelineEvent::Completed(report));
    proof {
        assert(events@.drop_last() =~= pre_terminal);
        assert(spec_started_count(events@) == started);
        lemma_precedence_push_other(pre_terminal, events@);
        if cancelled {
            assert(!lint_enabled && !gen_enabled);
            assert(events@.len() == 1);
        }
    }
    events
}


} // verus!
