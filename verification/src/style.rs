//! Presentation helpers that carry no terminal types: status icons and
//! character-exact truncation.

use vstd::prelude::*;

use crate::state::PhaseStatus;
use crate::text::{chars_to_string, str_to_chars, subrange_chars};

verus! {

/// The icon shown for a phase status.
pub fn phase_status_icon(status: PhaseStatus) -> (r: &'static str)
    ensures
        status is Pass ==> r@ == "\u{2713}"@,
        status is Fail ==> r@ == "\u{2717}"@,
        status is Running ==> r@ == "\u{25c9}"@,
        status is Pending ==> r@ == "\u{2500}"@,
{
    match status {
        PhaseStatus::Pass => "\u{2713}",
        PhaseStatus::Fail => "\u{2717}",
        PhaseStatus::Running => "\u{25c9}",
        PhaseStatus::Pending => "\u{2500}",
    }
}

/// A string cut to at most `max` characters: unchanged when it fits (or
/// when `max` is zero), else its first `max - 1` characters with an
/// ellipsis appended.
pub open spec fn spec_truncate(s: Seq<char>, max: int) -> Seq<char> {
    if max == 0 || s.len() <= max {
        s
    } else {
        s.take(max - 1) + seq!['\u{2026}']
    }
}

/// Truncate a string to at most `max` characters, appending an ellipsis
/// if shortened.
pub fn truncate_chars(s: &str, max: usize) -> (r: String)
    ensures
        r@ == spec_truncate(s@, max as int),
{
    let chars = str_to_chars(s);
    if chars.len() <= max || max == 0 {
        return chars_to_string(&chars);
    }
    let mut cut = subrange_chars(&chars, 0, max - 1);
    cut.push('\u{2026}');
    proof {
        assert(cut@ =~= s@.take(max - 1) + seq!['\u{2026}']);
    }
    chars_to_string(&cut)
}

} // verus!
