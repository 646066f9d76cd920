//! Front-end state kept by the library: panel and screen-mode
//! navigation, per-phase status, the flattened phase list of a report,
//! and the transient status message with its severity floor.

use vstd::prelude::*;

use crate::pipeline::types::ValidateReport;
use crate::text::{chars_eq_str, lower_chars, spec_lower, str_to_chars};

verus! {

/// Which panel currently has focus.
#[derive(Debug, Clone, Copy, PartialEq, Eq, Structural)]
pub enum Panel {
    Phases,
    Errors,
    Detail,
    SpecContext,
}

pub open spec fn spec_panel_index(p: Panel) -> int {
    match p {
        Panel::Phases => 0,
        Panel::Errors => 1,
        Panel::Detail => 2,
        Panel::SpecContext => 3,
    }
}

impl Panel {
    /// The panel's position in the focus cycle.
    pub fn index(self) -> (r: usize)
        ensures
            r == spec_panel_index(self),
    {
        match self {
            Panel::Phases => 0,
            Panel::Errors => 1,
            Panel::Detail => 2,
            Panel::SpecContext => 3,
        }
    }

    /// The panel at a cycle position, if it is in range.
    pub fn from_index(i: usize) -> (r: Option<Panel>)
        ensures
            match r {
                Some(p) => spec_panel_index(p) == i,
                None => i >= 4,
            },
    {
        match i {
            0 => Some(Panel::Phases),
            1 => Some(Panel::Errors),
            2 => Some(Panel::Detail),
            3 => Some(Panel::SpecContext),
            _ => None,
        }
    }

    /// The next panel in the cycle, wrapping around.
    pub fn next(self) -> (r: Panel)
        ensures
            spec_panel_index(r) == (spec_panel_index(self) + 1) % 4,
    {
        match self {
            Panel::Phases => Panel::Errors,
            Panel::Errors => Panel::Detail,
            Panel::Detail => Panel::SpecContext,
            Panel::SpecContext => Panel::Phases,
        }
    }

    /// The previous panel in the cycle, wrapping around.
    pub fn prev(self) -> (r: Panel)
        ensures
            spec_panel_index(r) == (spec_panel_index(self) + 3) % 4,
    {
        match self {
            Panel::Phases => Panel::SpecContext,
            Panel::Errors => Panel::Phases,
            Panel::Detail => Panel::Errors,
            Panel::SpecContext => Panel::Detail,
        }
    }
}

/// Screen mode for the main content panel.
#[derive(Debug, Clone, Copy, PartialEq, Eq, Structural)]
pub enum ScreenMode {
    Normal,
    Half,
    Full,
}

impl ScreenMode {
    /// The next mode in the cycle.
    pub fn cycle_next(self) -> (r: ScreenMode)
        ensures
            self is Normal ==> r is Half,
            self is Half ==> r is Full,
            self is Full ==> r is Normal,
    {
        match self {
            ScreenMode::Normal => ScreenMode::Half,
            ScreenMode::Half => ScreenMode::Full,
            ScreenMode::Full => ScreenMode::Normal,
        }
    }

    /// The previous mode in the cycle: the inverse of `cycle_next`.
    pub fn cycle_prev(self) -> (r: ScreenMode)
        ensures
            self is Normal ==> r is Full,
            self is Full ==> r is Half,
            self is Half ==> r is Normal,
            r.cycle_next_spec() == self,
    {
        match self {
            ScreenMode::Normal => ScreenMode::Full,
            ScreenMode::Full => ScreenMode::Half,
            ScreenMode::Half => ScreenMode::Normal,
        }
    }

    /// What `cycle_next` yields.
    pub open spec fn cycle_next_spec(self) -> ScreenMode {
        match self {
            ScreenMode::Normal => ScreenMode::Half,
            ScreenMode::Half => ScreenMode::Full,
            ScreenMode::Full => ScreenMode::Normal,
        }
    }
}

/// Status of an individual validation phase.
#[derive(Debug, Clone, Copy, PartialEq, Eq, Structural)]
pub enum PhaseStatus {
    Pass,
    Fail,
    Running,
    Pending,
}

/// The status a report string denotes, compared case-insensitively;
/// anything unknown reads as pending.
pub open spec fn spec_status_of(s: Seq<char>) -> PhaseStatus {
    let low = spec_lower(s);
    if low == "pass"@ || low == "passed"@ || low == "success"@ {
        PhaseStatus::Pass
    } else if low == "fail"@ || low == "failed"@ || low == "error"@ {
        PhaseStatus::Fail
    } else if low == "running"@ || low == "in_progress"@ || low == "in-progress"@ {
        PhaseStatus::Running
    } else {
        PhaseStatus::Pending
    }
}

impl PhaseStatus {
    /// Parse a status string, case-insensitively; unknown strings read
    /// as pending.
    pub fn from_status_str(s: &str) -> (r: PhaseStatus)
        ensures
            r == spec_status_of(s@),
    {
        let low = lower_chars(&str_to_chars(s));
        if chars_eq_str(&low, "pass") || chars_eq_str(&low, "passed") || chars_eq_str(
            &low,
            "success",
        ) {
            PhaseStatus::Pass
        } else if chars_eq_str(&low, "fail") || chars_eq_str(&low, "failed") || chars_eq_str(
            &low,
            "error",
        ) {
            PhaseStatus::Fail
        } else if chars_eq_str(&low, "running") || chars_eq_str(&low, "in_progress")
            || chars_eq_str(&low, "in-progress") {
            PhaseStatus::Running
        } else {
            PhaseStatus::Pending
        }
    }
}

/// A flattened phase entry for the phases list.
#[derive(Debug, Clone, PartialEq, Eq)]
pub struct PhaseEntry {
    pub label: String,
    pub status: PhaseStatus,
    pub error_count: usize,
}

/// Severity level for a transient status message, `Error` highest.
#[derive(Debug, Clone, Copy, PartialEq, Eq, Structural)]
pub enum StatusLevel {
    Info,
    Warn,
    Error,
}

pub open spec fn spec_level_rank(l: StatusLevel) -> int {
    match l {
        StatusLevel::Info => 0,
        StatusLevel::Warn => 1,
        StatusLevel::Error => 2,
    }
}

impl StatusLevel {
    /// Numeric priority of the level, `Error` highest.
    pub fn rank(self) -> (r: u8)
        ensures
            r == spec_level_rank(self),
    {
        match self {
            StatusLevel::Info => 0,
            StatusLevel::Warn => 1,
            StatusLevel::Error => 2,
        }
    }
}

impl core::cmp::PartialOrd for StatusLevel {
    fn partial_cmp(&self, other: &Self) -> (r: Option<core::cmp::Ordering>) {
        let a = self.rank();
        let b = other.rank();
        if a < b {
            Some(core::cmp::Ordering::Less)
        } else if a == b {
            Some(core::cmp::Ordering::Equal)
        } else {
            Some(core::cmp::Ordering::Greater)
        }
    }
}

impl vstd::std_specs::cmp::PartialOrdSpecImpl for StatusLevel {
    open spec fn obeys_partial_cmp_spec() -> bool {
        true
    }

    open spec fn partial_cmp_spec(&self, other: &Self) -> Option<core::cmp::Ordering> {
        if spec_level_rank(*self) < spec_level_rank(*other) {
            Some(core::cmp::Ordering::Less)
        } else if spec_level_rank(*self) == spec_level_rank(*other) {
            Some(core::cmp::Ordering::Equal)
        } else {
            Some(core::cmp::Ordering::Greater)
        }
    }
}

/// A transient message displayed in the bottom bar.
#[derive(Debug, Clone)]
pub struct StatusMessage {
    pub text: String,
    pub level: StatusLevel,
}

/// Set a transient status message, unless a message of strictly higher
/// severity is already shown.
pub fn set_status(slot: &mut Option<StatusMessage>, text: String, level: StatusLevel)
    ensures
        match *old(slot) {
            Some(existing) => if spec_level_rank(existing.level) > spec_level_rank(level) {
                *final(slot) == *old(slot)
            } else {
                *final(slot) matches Some(m) && m.text == text && m.level == level
            },
            None => *final(slot) matches Some(m) && m.text == text && m.level == level,
        },
{
    match slot {
        Some(existing) => {
            if existing.level.rank() > level.rank() {
                return ;
            }
        },
        None => {},
    }
    *slot = Some(StatusMessage { text, level });
}

/// How many flattened phase entries a report yields: one for lint when
/// present, one per generate step, one per compile step.
pub open spec fn spec_phase_count(r: ValidateReport) -> int {
    crate::pipeline::types::spec_report_records(r)
}

/// Number of phase entries of a report.
pub fn phase_count(report: &ValidateReport) -> (r: usize)
    requires
        crate::pipeline::types::spec_report_records(*report) <= usize::MAX,
    ensures
        r == spec_phase_count(*report),
{
    let mut count: usize = 0;
    if report.phases.lint.is_some() {
        count = count + 1;
    }
    match &report.phases.generate {
        Some(steps) => {
            count = count + steps.len();
        },
        None => {},
    }
    match &report.phases.compile {
        Some(steps) => {
            count = count + steps.len();
        },
        None => {},
    }
    count
}

/// The raw log of the phase at a flattened index: the lint log at index
/// zero when lint is present, then the generate steps, then the compile
/// steps; the empty string out of range.
pub open spec fn spec_phase_log(r: ValidateReport, idx: int) -> Seq<char> {
    let lint_n: int = match r.phases.lint {
        Some(_) => 1,
        None => 0,
    };
    let gen_n: int = match r.phases.generate {
        Some(steps) => steps@.len() as int,
        None => 0,
    };
    let comp_n: int = match r.phases.compile {
        Some(steps) => steps@.len() as int,
        None => 0,
    };
    if idx < lint_n {
        match r.phases.lint {
            Some(l) => l.log@,
            None => Seq::empty(),
        }
    } else if idx < lint_n + gen_n {
        match r.phases.generate {
            Some(steps) => steps@[idx - lint_n].log@,
            None => Seq::empty(),
        }
    } else if idx < lint_n + gen_n + comp_n {
        match r.phases.compile {
            Some(steps) => steps@[idx - lint_n - gen_n].log@,
            None => Seq::empty(),
        }
    } else {
        Seq::empty()
    }
}

/// Raw log text of the phase at a flattened index.
pub fn phase_log<'a>(report: &'a ValidateReport, idx: usize) -> (r: &'a str)
    requires
        crate::pipeline::types::spec_report_records(*report) <= usize::MAX,
    ensures
        r@ == spec_phase_log(*report, idx as int),
{
    let mut i: usize = idx;
    match &report.phases.lint {
        Some(l) => {
            if i == 0 {
                return l.log.as_str();
            }
            i = i - 1;
        },
        None => {},
    }
    match &report.phases.generate {
        Some(steps) => {
            if i < steps.len() {
                return steps[i].log.as_str();
            }
            i = i - steps.len();
        },
        None => {},
    }
    match &report.phases.compile {
        Some(steps) => {
            if i < steps.len() {
                return steps[i].log.as_str();
            }
        },
        None => {},
    }
    proof {
        reveal_strlit("");
        assert(""@ =~= Seq::<char>::empty());
    }
    ""
}

} // verus!
