//! Lint-log parsing: "stylish" linter output to structured findings.
//!
//! An entry line is indented, not blank, not a summary line, and reads
//! `line:col severity rule message [json-path]` after trimming. The parser
//! is total: lines that do not match the grammar are skipped.

use vstd::prelude::*;

use crate::text::{
    chars_to_string, contains_char, first_non_ws, index_of_char, is_indent_char, join_with,
    lower_chars, parse_usize, spec_is_blank, spec_join_sep, spec_lines, spec_lower,
    spec_parse_usize, spec_tokens, spec_trim_start, split_lines, str_to_chars, subrange_chars,
    tokenize, trim_start_chars,
};

verus! {

/// Severity level of a lint finding, `Error` highest.
#[derive(Debug, Clone, Copy, PartialEq, Eq, Hash, Structural)]
pub enum Severity {
    Error,
    Warning,
    Info,
    Hint,
}

pub open spec fn spec_rank(s: Severity) -> u8 {
    match s {
        Severity::Error => 3,
        Severity::Warning => 2,
        Severity::Info => 1,
        Severity::Hint => 0,
    }
}

/// The severity a token denotes, `Warning` for anything unknown.
pub open spec fn spec_severity_of(tok: Seq<char>) -> Severity {
    let low = spec_lower(tok);
    if low == "error"@ {
        Severity::Error
    } else if low == "warning"@ {
        Severity::Warning
    } else if low == "info"@ || low == "information"@ {
        Severity::Info
    } else if low == "hint"@ {
        Severity::Hint
    } else {
        Severity::Warning
    }
}

impl Severity {
    /// Numeric priority of the severity, `Error` highest.
    pub fn rank(self) -> (r: u8)
        ensures
            r == spec_rank(self),
    {
        match self {
            Severity::Error => 3,
            Severity::Warning => 2,
            Severity::Info => 1,
            Severity::Hint => 0,
        }
    }

    /// Parse a severity name, case-insensitively; unknown names become
    /// `Warning`.
    pub fn from_str_lossy(s: &str) -> (r: Severity)
        ensures
            r == spec_severity_of(s@),
    {
        let chars = str_to_chars(s);
        Self::from_chars_lossy(&chars)
    }

    /// As `from_str_lossy`, over a character vector.
    pub fn from_chars_lossy(v: &Vec<char>) -> (r: Severity)
        ensures
            r == spec_severity_of(v@),
    {
        let low = lower_chars(v);
        if crate::text::chars_eq_str(&low, "error") {
            Severity::Error
        } else if crate::text::chars_eq_str(&low, "warning") {
            Severity::Warning
        } else if crate::text::chars_eq_str(&low, "info") {
            Severity::Info
        } else if crate::text::chars_eq_str(&low, "information") {
            Severity::Info
        } else if crate::text::chars_eq_str(&low, "hint") {
            Severity::Hint
        } else {
            Severity::Warning
        }
    }

    /// The lower-case name of the severity.
    pub fn as_str(&self) -> (r: &'static str)
        ensures
            self is Error ==> r@ == "error"@,
            self is Warning ==> r@ == "warning"@,
            self is Info ==> r@ == "info"@,
            self is Hint ==> r@ == "hint"@,
    {
        match self {
            Severity::Error => "error",
            Severity::Warning => "warning",
            Severity::Info => "info",
            Severity::Hint => "hint",
        }
    }
}

impl core::cmp::PartialOrd for Severity {
    fn partial_cmp(&self, other: &Self) -> (r: Option<core::cmp::Ordering>) {
        let a = self.rank();
        let b = other.rank();
        if a < b {
            Some(core::cmp::Ordering::Less)
        } else if a == b {
            Some(core::cmp::Ordering::Equal)
        } else {
            Some(core::cmp::Ordering::Greater)
        }
    }
}

impl vstd::std_specs::cmp::PartialOrdSpecImpl for Severity {
    open spec fn obeys_partial_cmp_spec() -> bool {
        true
    }

    open spec fn partial_cmp_spec(&self, other: &Self) -> Option<core::cmp::Ordering> {
        if spec_rank(*self) < spec_rank(*other) {
            Some(core::cmp::Ordering::Less)
        } else if spec_rank(*self) == spec_rank(*other) {
            Some(core::cmp::Ordering::Equal)
        } else {
            Some(core::cmp::Ordering::Greater)
        }
    }
}

/// A single lint finding parsed from linter output. `line` and `col` are
/// as printed by the linter (1-based).
#[derive(Debug, Clone, PartialEq, Eq)]
pub struct LintError {
    pub line: usize,
    pub col: usize,
    pub severity: Severity,
    pub rule: String,
    pub message: String,
    pub json_path: Option<String>,
}

/// How many `'.'` characters a token holds.
pub open spec fn spec_dot_count(t: Seq<char>) -> nat
    decreases t.len(),
{
    if t.len() == 0 {
        0
    } else {
        spec_dot_count(t.drop_last()) + if t.last() == '.' {
            1nat
        } else {
            0nat
        }
    }
}

/// Whether a trailing token is read as a JSON path: pointer form, bracket
/// notation, or a dotted path holding at least two dots. Anything less
/// dotted stays part of the message.
pub open spec fn spec_is_json_path(tok: Seq<char>) -> bool {
    tok.len() > 0 && (tok[0] == '/' || tok.contains('[') || spec_dot_count(tok) >= 2)
}

/// Index of the first occurrence of `c`, or `-1`.
pub open spec fn spec_index_of(s: Seq<char>, c: char) -> int
    decreases s.len(),
{
    if s.len() == 0 {
        -1
    } else if s[0] == c {
        0
    } else {
        let r = spec_index_of(s.drop_first(), c);
        if r == -1 {
            -1
        } else {
            r + 1
        }
    }
}

pub proof fn lemma_index_of_props(s: Seq<char>, c: char)
    ensures
        s.contains(c) ==> {
            let i = spec_index_of(s, c);
            &&& 0 <= i < s.len()
            &&& s[i] == c
            &&& forall|k: int| 0 <= k < i ==> s[k] != c
        },
        !s.contains(c) ==> spec_index_of(s, c) == -1,
    decreases s.len(),
{
    if s.len() > 0 && s[0] != c {
        lemma_index_of_props(s.drop_first(), c);
        let d = s.drop_first();
        if s.contains(c) {
            let w = choose|w: int| 0 <= w < s.len() && s[w] == c;
            assert(d[w - 1] == c);
            assert(d.contains(c));
            let i = spec_index_of(d, c);
            assert(forall|k: int| 1 <= k < i + 1 ==> s[k] == d[k - 1] && s[k] != c);
        } else {
            if d.contains(c) {
                let w = choose|w: int| 0 <= w < d.len() && d[w] == c;
                assert(s[w + 1] == c);
            }
        }
    }
}

/// The location a `line:col` token denotes, when both halves are decimal
/// numbers that fit in a `usize`.
pub open spec fn spec_loc_of(tok: Seq<char>) -> Option<(int, int)> {
    let i = spec_index_of(tok, ':');
    if i < 0 {
        None
    } else {
        match (spec_parse_usize(tok.take(i)), spec_parse_usize(tok.skip(i + 1))) {
            (Some(l), Some(c)) => Some((l, c)),
            _ => None,
        }
    }
}

/// Whether a trimmed line matches the entry grammar.
pub open spec fn spec_entry_ok(t: Seq<char>) -> bool {
    &&& spec_tokens(t).len() >= 3
    &&& spec_loc_of(spec_tokens(t)[0]) is Some
}

/// The tokens after location, severity and rule: the message words, with
/// possibly a trailing JSON path.
pub open spec fn spec_rest_tokens(t: Seq<char>) -> Seq<Seq<char>> {
    spec_tokens(t).skip(3)
}

pub open spec fn spec_has_path(t: Seq<char>) -> bool {
    spec_rest_tokens(t).len() > 1 && spec_is_json_path(spec_rest_tokens(t).last())
}

pub open spec fn spec_message_of(t: Seq<char>) -> Seq<char> {
    if spec_has_path(t) {
        spec_join_sep(spec_rest_tokens(t).drop_last(), ' ')
    } else {
        spec_join_sep(spec_rest_tokens(t), ' ')
    }
}

pub open spec fn spec_path_of(t: Seq<char>) -> Option<Seq<char>> {
    if spec_has_path(t) {
        Some(spec_rest_tokens(t).last())
    } else {
        None
    }
}

/// The finding a trimmed entry line denotes.
pub open spec fn finding_matches(e: LintError, t: Seq<char>) -> bool {
    &&& spec_entry_ok(t)
    &&& match spec_loc_of(spec_tokens(t)[0]) {
        Some(lc) => e.line as int == lc.0 && e.col as int == lc.1,
        None => false,
    }
    &&& e.severity == spec_severity_of(spec_tokens(t)[1])
    &&& e.rule@ == spec_tokens(t)[2]
    &&& e.message@ == spec_message_of(t)
    &&& match e.json_path {
        Some(p) => spec_path_of(t) == Some(p@),
        None => spec_path_of(t) is None,
    }
}

/// Whether a raw line is an entry line: indented, not blank, not a summary
/// line, and matching the entry grammar once trimmed.
pub open spec fn spec_is_entry_line(l: Seq<char>) -> bool {
    &&& !spec_is_blank(l)
    &&& l.len() > 0 && is_indent_char(l[0])
    &&& spec_trim_start(l)[0] != '\u{2716}'
    &&& spec_trim_start(l)[0] != '\u{00d7}'
    &&& spec_entry_ok(spec_trim_start(l))
}

/// The trimmed entry lines of a report, in order.
pub open spec fn spec_entry_lines(lines: Seq<Seq<char>>) -> Seq<Seq<char>>
    decreases lines.len(),
{
    if lines.len() == 0 {
        Seq::empty()
    } else {
        let rest = spec_entry_lines(lines.drop_last());
        if spec_is_entry_line(lines.last()) {
            rest + seq![spec_trim_start(lines.last())]
        } else {
            rest
        }
    }
}

/// How many lines of a report match the entry grammar.
pub open spec fn spec_entry_count(lines: Seq<Seq<char>>) -> nat
    decreases lines.len(),
{
    if lines.len() == 0 {
        0
    } else {
        spec_entry_count(lines.drop_last()) + if spec_is_entry_line(lines.last()) {
            1nat
        } else {
            0nat
        }
    }
}

/// The parser yields exactly one finding per line that matches the entry
/// grammar: its output length is the number of such lines.
pub proof fn lemma_one_finding_per_entry_line(lines: Seq<Seq<char>>)
    ensures
        spec_entry_lines(lines).len() == spec_entry_count(lines),
    decreases lines.len(),
{
    if lines.len() > 0 {
        lemma_one_finding_per_entry_line(lines.drop_last());
    }
}

/// Parse a single trimmed entry line.
fn parse_entry(t: &Vec<char>) -> (r: Option<LintError>)
    ensures
        match r {
            Some(e) => spec_entry_ok(t@) && finding_matches(e, t@),
            None => !spec_entry_ok(t@),
        },
{
    let tokens = tokenize(t);
    proof {
        assert(tokens.deep_view().len() == tokens@.len());
        assert(forall|k: int|
            0 <= k < tokens@.len() ==> tokens.deep_view()[k] == #[trigger] tokens@[k]@);
    }
    if tokens.len() < 3 {
        return None;
    }
    let loc = match parse_location(&tokens[0]) {
        Some(lc) => lc,
        None => {
            return None;
        },
    };
    let severity = Severity::from_chars_lossy(&tokens[1]);
    let rule = chars_to_string(&tokens[2]);

    let mut rest: Vec<Vec<char>> = Vec::new();
    let mut k: usize = 3;
    while k < tokens.len()
        invariant
            3 <= k <= tokens@.len(),
            rest@.len() == k - 3,
            forall|j: int| 0 <= j < rest@.len() ==> rest@[j]@ == tokens@[j + 3]@,
        decreases tokens@.len() - k,
    {
        let w = subrange_chars(&tokens[k], 0, tokens[k].len());
        rest.push(w);
        k = k + 1;
    }
    proof {
        assert(rest.deep_view() =~~= spec_tokens(t@).skip(3));
    }

    let (message, json_path) = split_message_and_path(&rest);
    proof {
        assert(spec_rest_tokens(t@) == rest.deep_view());
    }
    Some(LintError { line: loc.0, col: loc.1, severity, rule, message, json_path })
}

/// Parse a `line:col` token.
fn parse_location(tok: &Vec<char>) -> (r: Option<(usize, usize)>)
    ensures
        match r {
            Some(lc) => spec_loc_of(tok@) == Some((lc.0 as int, lc.1 as int)),
            None => spec_loc_of(tok@) is None,
        },
{
    proof {
        lemma_index_of_props(tok@, ':');
    }
    let n: usize = tok.len();
    let i = match index_of_char(tok, ':') {
        Some(i) => i,
        None => {
            return None;
        },
    };
    proof {
        assert(spec_index_of(tok@, ':') == i as int);
        assert(i < n);
    }
    let left = subrange_chars(tok, 0, i);
    let right = subrange_chars(tok, i + 1, n);
    proof {
        assert(left@ =~= tok@.take(i as int));
        assert(right@ =~= tok@.skip(i + 1));
    }
    let l = match parse_usize(&left) {
        Some(l) => l,
        None => {
            return None;
        },
    };
    let c = match parse_usize(&right) {
        Some(c) => c,
        None => {
            return None;
        },
    };
    Some((l, c))
}

/// Whether the trailing tokens end in a JSON path.
pub open spec fn spec_tokens_have_path(toks: Seq<Seq<char>>) -> bool {
    toks.len() > 1 && spec_is_json_path(toks.last())
}

/// Split the trailing tokens into the message and an optional JSON path.
fn split_message_and_path(rest: &Vec<Vec<char>>) -> (r: (String, Option<String>))
    ensures
        r.0@ == if spec_tokens_have_path(rest.deep_view()) {
            spec_join_sep(rest.deep_view().drop_last(), ' ')
        } else {
            spec_join_sep(rest.deep_view(), ' ')
        },
        match r.1 {
            Some(p) => spec_tokens_have_path(rest.deep_view()) && p@ == rest.deep_view().last(),
            None => !spec_tokens_have_path(rest.deep_view()),
        },
{
    proof {
        assert(forall|k: int|
            0 <= k < rest@.len() ==> rest.deep_view()[k] == #[trigger] rest@[k]@);
    }
    if rest.len() > 1 && looks_like_json_path(&rest[rest.len() - 1]) {
        let mut msg_tokens: Vec<Vec<char>> = Vec::new();
        let mut k: usize = 0;
        while k < rest.len() - 1
            invariant
                rest@.len() > 1,
                k <= rest@.len() - 1,
                msg_tokens@.len() == k,
                forall|j: int| 0 <= j < k ==> msg_tokens@[j]@ == rest@[j]@,
            decreases rest@.len() - 1 - k,
        {
            msg_tokens.push(subrange_chars(&rest[k], 0, rest[k].len()));
            k = k + 1;
        }
        proof {
            assert(msg_tokens.deep_view() =~~= rest.deep_view().drop_last());
        }
        let message = chars_to_string(&join_with(&msg_tokens, ' '));
        let path = chars_to_string(&rest[rest.len() - 1]);
        (message, Some(path))
    } else {
        let message = chars_to_string(&join_with(rest, ' '));
        (message, None)
    }
}

/// Whether a token reads as a JSON path or JSON pointer.
fn looks_like_json_path(tok: &Vec<char>) -> (r: bool)
    ensures
        r == spec_is_json_path(tok@),
{
    if tok.len() == 0 {
        return false;
    }
    if tok[0] == '/' {
        return true;
    }
    if contains_char(tok, '[') {
        return true;
    }
    let mut dots: usize = 0;
    let mut i: usize = 0;
    proof {
        assert(tok@.take(0) =~= Seq::<char>::empty());
    }
    while i < tok.len()
        invariant
            i <= tok@.len(),
            dots == spec_dot_count(tok@.take(i as int)),
            dots <= i,
        decreases tok@.len() - i,
    {
        proof {
            assert(tok@.take(i + 1).drop_last() =~= tok@.take(i as int));
            assert(tok@.take(i + 1).last() == tok@[i as int]);
        }
        if tok[i] == '.' {
            dots = dots + 1;
        }
        i = i + 1;
    }
    proof {
        assert(tok@.take(tok@.len() as int) =~= tok@);
    }
    dots >= 2
}

/// Parse raw stylish-format lint output into structured findings, in
/// source order. The parser is total: anything that does not match the
/// entry grammar is skipped, and empty or garbage input yields an empty
/// list.
pub fn parse_lint_log(raw: &str) -> (r: Vec<LintError>)
    ensures
        r@.len() == spec_entry_lines(spec_lines(raw@)).len(),
        forall|i: int|
            0 <= i < r@.len() ==> finding_matches(
                r@[i],
                spec_entry_lines(spec_lines(raw@))[i],
            ),
{
    let lines = split_lines(raw);
    let ghost lv = lines.deep_view();
    let mut r: Vec<LintError> = Vec::new();
    let mut i: usize = 0;
    proof {
        assert(lv.take(0) =~= Seq::<Seq<char>>::empty());
    }
    while i < lines.len()
        invariant
            i <= lines@.len(),
            lv == lines.deep_view(),
            lv == spec_lines(raw@),
            lines@.len() == lv.len(),
            forall|k: int| 0 <= k < lv.len() ==> lv[k] == #[trigger] lines@[k]@,
            r@.len() == spec_entry_lines(lv.take(i as int)).len(),
            forall|j: int|
                0 <= j < r@.len() ==> finding_matches(
                    r@[j],
                    spec_entry_lines(lv.take(i as int))[j],
                ),
        decreases lines@.len() - i,
    {
        let ghost pre = spec_entry_lines(lv.take(i as int));
        proof {
            assert(lv.take(i + 1).drop_last() =~= lv.take(i as int));
            assert(lv.take(i + 1).last() == lv[i as int]);
        }
        let chars = str_to_chars(lines[i].as_str());
        let start = first_non_ws(&chars);
        if start < chars.len() {
            proof {
                assert(!spec_is_blank(chars@));
            }
            let c0 = chars[0];
            if c0 == ' ' || c0 == '\t' {
                let trimmed = trim_start_chars(&chars);
                proof {
                    assert(trimmed@.len() > 0);
                }
                let t0 = trimmed[0];
                if t0 != '\u{2716}' && t0 != '\u{00d7}' {
                    match parse_entry(&trimmed) {
                        Some(e) => {
                            r.push(e);
                            proof {
                                assert(spec_is_entry_line(lv[i as int]));
                                assert(spec_entry_lines(lv.take(i + 1)) =~= pre + seq![
                                    spec_trim_start(lv[i as int]),
                                ]);
                            }
                        },
                        None => {
                            proof {
                                assert(!spec_is_entry_line(lv[i as int]));
                                assert(spec_entry_lines(lv.take(i + 1)) =~= pre);
                            }
                        },
                    }
                } else {
                    proof {
                        assert(!spec_is_entry_line(lv[i as int]));
                        assert(spec_entry_lines(lv.take(i + 1)) =~= pre);
                    }
                }
            } else {
                proof {
                    assert(!spec_is_entry_line(lv[i as int]));
                    assert(spec_entry_lines(lv.take(i + 1)) =~= pre);
                }
            }
        } else {
            proof {
                assert(spec_is_blank(chars@));
                assert(!spec_is_entry_line(lv[i as int]));
                assert(spec_entry_lines(lv.take(i + 1)) =~= pre);
            }
        }
        i = i + 1;
    }
    proof {
        assert(lv.take(lv.len() as int) =~= lv);
    }
    r
}

} // verus!
