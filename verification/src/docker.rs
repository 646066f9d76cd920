//! Container-runner data model: commands, outcomes, the streamed output
//! lines, and the shared cancellation flag. Launching the process itself
//! happens outside the library; the functions here fold the streamed
//! output into a structured outcome.

use std::sync::atomic::AtomicBool;
use std::sync::Arc;

use vstd::prelude::*;

use crate::text::{push_char, spec_join, spec_lines};

verus! {

/// Cooperative cancellation flag, shared by cloning: one-way and
/// idempotent. What `is_cancelled` returns depends on the other holders
/// of the flag, so nothing is promised of it; decision logic takes the
/// observed value as a plain argument.
#[verifier::external_body]
pub struct CancelToken {
    inner: Arc<AtomicBool>,
}

impl Clone for CancelToken {
    /// Relies on `Arc::clone`: the clone shares the same flag.
    #[verifier::external_body]
    fn clone(&self) -> Self {
        CancelToken { inner: Arc::clone(&self.inner) }
    }
}

impl CancelToken {
    /// Relies on `Arc::new` and `AtomicBool::new`: a fresh, unset flag.
    #[verifier::external_body]
    pub fn new() -> Self {
        CancelToken { inner: Arc::new(AtomicBool::new(false)) }
    }

    /// Relies on `AtomicBool::store` (release): sets the shared flag.
    #[verifier::external_body]
    pub fn cancel(&self) {
        self.inner.store(true, std::sync::atomic::Ordering::Release);
    }

    /// Relies on `AtomicBool::load` (acquire): reads the shared flag.
    #[verifier::external_body]
    pub fn is_cancelled(&self) -> bool {
        self.inner.load(std::sync::atomic::Ordering::Acquire)
    }
}

/// Describes a container invocation: the full argument list handed to the
/// container runtime, a wall-clock budget in seconds, and optionally a
/// path the collected log is written to.
#[derive(Debug, Clone)]
pub struct ContainerCommand {
    pub args: Vec<String>,
    pub timeout_secs: u64,
    pub log_path: Option<String>,
}

/// Outcome of a container run.
#[derive(Debug, Clone, PartialEq, Eq)]
pub struct ContainerResult {
    pub success: bool,
    pub exit_code: Option<i32>,
    pub log: String,
    pub cancelled: bool,
    pub timed_out: bool,
}

/// Streamed output from a running container: lines as they arrive, then
/// exactly one `Done` carrying the final result.
#[derive(Debug, Clone, PartialEq, Eq)]
pub enum OutputLine {
    Stdout(String),
    Stderr(String),
    Done(ContainerResult),
}

/// How a finished run turns into an outcome: success means a zero exit
/// that was neither cancelled nor timed out.
pub open spec fn spec_outcome_success(exit_code: Option<i32>, cancelled: bool, timed_out: bool)
    -> bool {
    exit_code == Some(0i32) && !cancelled && !timed_out
}

/// Build the outcome of a finished run from what the supervisor observed.
/// A cancelled or timed-out child is killed before it reports an exit
/// status, so those runs never count as successes.
pub fn finish_outcome(
    exit_code: Option<i32>,
    cancelled: bool,
    timed_out: bool,
    log: String,
) -> (r: ContainerResult)
    ensures
        r.success == spec_outcome_success(exit_code, cancelled, timed_out),
        r.exit_code == exit_code,
        r.cancelled == cancelled,
        r.timed_out == timed_out,
        r.log == log,
{
    let success = match exit_code {
        Some(c) => c == 0 && !cancelled && !timed_out,
        None => false,
    };
    ContainerResult { success, exit_code, log, cancelled, timed_out }
}

/// The outcome of a run that could not even be spawned: a failure whose
/// log is the error description, with no exit code and no flags set.
pub fn spawn_failure_outcome(description: String) -> (r: ContainerResult)
    ensures
        r.success == false,
        r.exit_code is None,
        r.log == description,
        r.cancelled == false,
        r.timed_out == false,
{
    ContainerResult {
        success: false,
        exit_code: None,
        log: description,
        cancelled: false,
        timed_out: false,
    }
}

/// The text lines of the streamed output, in arrival order.
pub open spec fn spec_stream_lines(items: Seq<OutputLine>) -> Seq<Seq<char>>
    decreases items.len(),
{
    if items.len() == 0 {
        Seq::empty()
    } else {
        spec_stream_lines(items.drop_last()) + match items.last() {
            OutputLine::Stdout(l) => seq![l@],
            OutputLine::Stderr(l) => seq![l@],
            OutputLine::Done(_) => Seq::empty(),
        }
    }
}

/// The final result carried by the stream's last `Done`, if any.
pub open spec fn spec_stream_done(items: Seq<OutputLine>) -> Option<ContainerResult>
    decreases items.len(),
{
    if items.len() == 0 {
        None
    } else {
        match items.last() {
            OutputLine::Done(res) => Some(res),
            _ => spec_stream_done(items.drop_last()),
        }
    }
}

/// What a consumer concludes from a drained output stream: whether the
/// step passed, and its merged log.
pub open spec fn spec_stream_outcome(items: Seq<OutputLine>) -> (bool, Seq<char>) {
    let merged = spec_stream_lines(items);
    let log = if merged.len() == 0 {
        match spec_stream_done(items) {
            Some(res) => res.log@,
            None => Seq::<char>::empty(),
        }
    } else {
        spec_join(merged) + seq!['\n']
    };
    let success = match spec_stream_done(items) {
        Some(res) => res.success && !res.cancelled,
        None => false,
    };
    (success, log)
}

/// Fold a drained output stream into `(success, merged log)`: lines are
/// concatenated in arrival order, each followed by a newline; when no
/// line arrived, the `Done` result's own log is used instead. The step
/// passed when the result reports success and no cancellation.
pub fn summarize_stream(items: &Vec<OutputLine>) -> (r: (bool, String))
    ensures
        r.0 == spec_stream_outcome(items@).0,
        r.1@ == spec_stream_outcome(items@).1,
{
    let mut log = String::new();
    let mut success = false;
    let mut saw_done = false;
    let mut i: usize = 0;
    proof {
        assert(items@.take(0) =~= Seq::<OutputLine>::empty());
    }
    while i < items.len()
        invariant
            i <= items@.len(),
            log@ == spec_join_stream(spec_stream_lines(items@.take(i as int))),
            match spec_stream_done(items@.take(i as int)) {
                Some(res) => saw_done && success == (res.success && !res.cancelled),
                None => !saw_done && !success,
            },
        decreases items@.len() - i,
    {
        let ghost pre = items@.take(i as int);
        proof {
            assert(items@.take(i + 1).drop_last() =~= pre);
            assert(items@.take(i + 1).last() == items@[i as int]);
        }
        match &items[i] {
            OutputLine::Stdout(l) => {
                log.append(l.as_str());
                push_char(&mut log, '\n');
                proof {
                    lemma_join_stream_snoc(spec_stream_lines(pre), l@);
                    assert(spec_stream_lines(items@.take(i + 1)) =~= spec_stream_lines(
                        pre,
                    ).push(l@));
                }
            },
            OutputLine::Stderr(l) => {
                log.append(l.as_str());
                push_char(&mut log, '\n');
                proof {
                    lemma_join_stream_snoc(spec_stream_lines(pre), l@);
                    assert(spec_stream_lines(items@.take(i + 1)) =~= spec_stream_lines(
                        pre,
                    ).push(l@));
                }
            },
            OutputLine::Done(res) => {
                success = res.success && !res.cancelled;
                saw_done = true;
                proof {
                    assert(spec_stream_lines(items@.take(i + 1)) =~= spec_stream_lines(pre));
                }
            },
        }
        i = i + 1;
    }
    proof {
        assert(items@.take(items@.len() as int) =~= items@);
    }
    if log.as_str().unicode_len() == 0 {
        proof {
            lemma_join_stream_empty(spec_stream_lines(items@));
        }
        match final_done(items) {
            Some(res) => {
                let done_log = clone_string(&res.log);
                return (success, done_log);
            },
            None => {
                return (success, log);
            },
        }
    }
    proof {
        assert(spec_stream_lines(items@).len() > 0) by {
            if spec_stream_lines(items@).len() == 0 {
                lemma_join_stream_empty(spec_stream_lines(items@));
            }
        }
        lemma_join_stream_is_join_text(spec_stream_lines(items@));
        assert(log@ == spec_join(spec_stream_lines(items@)) + seq!['\n']);
    }
    (success, log)
}

/// The merged log of a line sequence: each line followed by a newline.
pub open spec fn spec_join_stream(lines: Seq<Seq<char>>) -> Seq<char>
    decreases lines.len(),
{
    if lines.len() == 0 {
        Seq::empty()
    } else {
        spec_join_stream(lines.drop_last()) + lines.last() + seq!['\n']
    }
}

proof fn lemma_join_stream_snoc(lines: Seq<Seq<char>>, l: Seq<char>)
    ensures
        spec_join_stream(lines.push(l)) == spec_join_stream(lines) + l + seq!['\n'],
{
    assert(lines.push(l).drop_last() =~= lines);
    assert(lines.push(l).last() == l);
}

proof fn lemma_join_stream_empty(lines: Seq<Seq<char>>)
    ensures
        spec_join_stream(lines).len() == 0 <==> lines.len() == 0,
    decreases lines.len(),
{
    if lines.len() > 0 {
        lemma_join_stream_empty(lines.drop_last());
    }
}

/// The last `Done` of the stream, scanned from the end.
fn final_done(items: &Vec<OutputLine>) -> (r: Option<&ContainerResult>)
    ensures
        match r {
            Some(res) => spec_stream_done(items@) == Some(*res),
            None => spec_stream_done(items@) is None,
        },
{
    let mut i: usize = items.len();
    proof {
        assert(items@.take(items@.len() as int) =~= items@);
    }
    while i > 0
        invariant
            i <= items@.len(),
            spec_stream_done(items@) == spec_stream_done(items@.take(i as int)),
        decreases i,
    {
        i = i - 1;
        proof {
            assert(items@.take(i + 1).drop_last() =~= items@.take(i as int));
            assert(items@.take(i + 1).last() == items@[i as int]);
        }
        match &items[i] {
            OutputLine::Done(res) => {
                return Some(res);
            },
            _ => {},
        }
    }
    proof {
        assert(items@.take(0) =~= Seq::<OutputLine>::empty());
    }
    None
}

/// Clone a string.
fn clone_string(s: &String) -> (r: String)
    ensures
        r@ == s@,
{
    s.clone()
}

/// The connection between the merged log and the lines that arrived:
/// splitting the merged log yields exactly the streamed lines, provided
/// no line holds a newline of its own or ends in a carriage return.
pub proof fn lemma_stream_log_lines(lines: Seq<Seq<char>>)
    requires
        forall|j: int| 0 <= j < lines.len() ==> !(#[trigger] lines[j]).contains('\n'),
        forall|j: int|
            0 <= j < lines.len() ==> ((#[trigger] lines[j]).len() > 0 ==> lines[j].last()
                != '\r'),
    ensures
        spec_lines(spec_join_stream(lines)) == lines,
    decreases lines.len(),
{
    if lines.len() > 0 {
        let d = lines.drop_last();
        lemma_stream_log_lines(d);
        assert(spec_join_stream(lines) == spec_join_stream(d) + lines.last() + seq!['\n']);
        lemma_join_stream_is_join_text(lines);
        crate::text::lemma_lines_of_join(lines, true);
    } else {
        assert(spec_join_stream(lines) =~= Seq::<char>::empty());
    }
}

/// The merged log equals the lines joined with newlines plus a final
/// newline, when any line arrived at all.
proof fn lemma_join_stream_is_join_text(lines: Seq<Seq<char>>)
    requires
        lines.len() >= 1,
    ensures
        spec_join_stream(lines) == crate::text::spec_join_text(lines, true),
    decreases lines.len(),
{
    if lines.len() == 1 {
        assert(spec_join_stream(lines.drop_last()) =~= Seq::<char>::empty());
        assert(spec_join_stream(lines) =~= lines[0] + seq!['\n']);
        assert(crate::text::spec_join_text(lines, true) == spec_join(lines) + seq!['\n']);
    } else {
        let d = lines.drop_last();
        lemma_join_stream_is_join_text(d);
        crate::text::lemma_join_sep_snoc(lines, '\n');
        assert(spec_join_stream(lines) == spec_join_stream(d) + lines.last() + seq!['\n']);
        assert(spec_join_stream(d) == spec_join(d) + seq!['\n']);
        assert(spec_join(lines) == spec_join(d) + seq!['\n'] + lines.last());
        assert((spec_join(d) + seq!['\n']) + lines.last() + seq!['\n'] =~= (spec_join(d)
            + seq!['\n'] + lines.last()) + seq!['\n']);
    }
}

} // verus!
