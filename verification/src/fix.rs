//! Mechanical fixes for a closed set of lint rules: synthesize a correctly
//! indented YAML insertion at a computed anchor line, and apply it to a
//! file's text while preserving trailing-newline discipline.

use vstd::prelude::*;

use crate::log_parser::LintError;
use crate::specindex::{spec_resolve, SourceSpan, SpecIndex};
use crate::text::{
    chars_to_string, is_ws, spec_join_text, spec_lines, spec_trim, split_lines, str_to_chars,
    subrange_chars, trim_chars,
};

verus! {

/// A proposed fix for a lint error, ready for preview and application.
/// New lines go immediately after `target_line` (1-based).
#[derive(Debug, Clone, PartialEq, Eq)]
pub struct FixProposal {
    pub rule: String,
    pub description: String,
    pub target_line: usize,
    pub context_before: Vec<String>,
    pub inserted: Vec<String>,
    pub context_after: Vec<String>,
}

// ── Indentation helpers ──────────────────────────────────────────────

/// The leading whitespace of a line.
pub open spec fn spec_leading_ws(l: Seq<char>) -> Seq<char>
    decreases l.len(),
{
    if l.len() > 0 && is_ws(l[0]) {
        seq![l[0]] + spec_leading_ws(l.drop_first())
    } else {
        Seq::empty()
    }
}

/// The whitespace prefix of a line.
pub fn leading_whitespace(line: &Vec<char>) -> (r: Vec<char>)
    ensures
        r@ == spec_leading_ws(line@),
{
    let i = crate::text::first_non_ws(line);
    let r = subrange_chars(line, 0, i);
    proof {
        lemma_leading_ws_is_take(line@, i as int);
        assert(r@ =~= line@.take(i as int));
    }
    r
}

proof fn lemma_leading_ws_is_take(l: Seq<char>, i: int)
    requires
        0 <= i <= l.len(),
        forall|k: int| 0 <= k < i ==> is_ws(l[k]),
        i < l.len() ==> !is_ws(l[i]),
    ensures
        spec_leading_ws(l) == l.take(i),
    decreases i,
{
    if i == 0 {
        assert(l.take(0) =~= Seq::<char>::empty());
    } else {
        let d = l.drop_first();
        assert(forall|k: int| 0 <= k < i - 1 ==> d[k] == l[k + 1] && is_ws(d[k]));
        assert(i - 1 < d.len() ==> d[i - 1] == l[i]);
        lemma_leading_ws_is_take(d, i - 1);
        assert(seq![l[0]] + d.take(i - 1) =~= l.take(i));
    }
}

/// Whether the child-indent scan passes over a line: blank or comment.
pub open spec fn spec_skipped_line(l: Seq<char>) -> bool {
    spec_trim(l).len() == 0 || spec_trim(l)[0] == '#'
}

/// The child indent found scanning from line index `j` (0-based): the
/// whitespace of the first non-skipped line strictly deeper than the
/// parent, or the parent's indent plus two spaces.
pub open spec fn spec_find_child_indent(lines: Seq<Seq<char>>, j: int, pw: Seq<char>) -> Seq<
    char,
>
    decreases lines.len() - j,
{
    if j < 0 || j >= lines.len() {
        pw + seq![' ', ' ']
    } else if spec_skipped_line(lines[j]) {
        spec_find_child_indent(lines, j + 1, pw)
    } else if spec_leading_ws(lines[j]).len() > pw.len() {
        spec_leading_ws(lines[j])
    } else {
        pw + seq![' ', ' ']
    }
}

/// The indentation used by children of `parent_line` (1-based): the
/// whitespace prefix of the first non-blank, non-comment line below it
/// that is deeper than the parent, else the parent's indent plus two
/// spaces.
pub fn detect_child_indent(lines: &Vec<String>, parent_line: usize) -> (r: String)
    requires
        1 <= parent_line <= lines@.len(),
    ensures
        r@ == spec_find_child_indent(
            lines.deep_view(),
            parent_line as int,
            spec_leading_ws(lines.deep_view()[parent_line - 1]),
        ),
{
    let ghost lv = lines.deep_view();
    let parent_chars = str_to_chars(lines[parent_line - 1].as_str());
    let pw = leading_whitespace(&parent_chars);
    let ghost pwv = pw@;
    let mut j: usize = parent_line;
    while j < lines.len()
        invariant
            parent_line <= j <= lines@.len(),
            lv == lines.deep_view(),
            lv.len() == lines@.len(),
            forall|k: int| 0 <= k < lv.len() ==> lv[k] == #[trigger] lines@[k]@,
            pwv == spec_leading_ws(lv[parent_line - 1]),
            pw@ == pwv,
            spec_find_child_indent(lv, parent_line as int, pwv) == spec_find_child_indent(
                lv,
                j as int,
                pwv,
            ),
        decreases lines@.len() - j,
    {
        let chars = str_to_chars(lines[j].as_str());
        proof {
            assert(chars@ == lv[j as int]);
        }
        let t = trim_chars(&chars);
        if t.len() == 0 || t[0] == '#' {
            proof {
                assert(spec_skipped_line(lv[j as int]));
            }
            j = j + 1;
            continue;
        }
        let ws = leading_whitespace(&chars);
        if ws.len() > pw.len() {
            proof {
                assert(!spec_skipped_line(lv[j as int]));
                assert(ws@ == spec_leading_ws(lv[j as int]));
                assert(spec_find_child_indent(lv, j as int, pwv) == ws@);
            }
            return chars_to_string(&ws);
        }
        proof {
            assert(!spec_skipped_line(lv[j as int]));
            assert(spec_find_child_indent(lv, j as int, pwv) =~= pwv + seq![' ', ' ']);
        }
        let mut fallback = pw;
        fallback.push(' ');
        fallback.push(' ');
        proof {
            assert(fallback@ =~= pwv + seq![' ', ' ']);
        }
        return chars_to_string(&fallback);
    }
    let mut fallback = pw;
    fallback.push(' ');
    fallback.push(' ');
    proof {
        assert(fallback@ =~= pwv + seq![' ', ' ']);
    }
    chars_to_string(&fallback)
}

// ── Child field lookup ───────────────────────────────────────────────

/// The trailing part of a trimmed line after `field:`, when the line sits
/// exactly at the child indent depth; scanning stops at a shallower line.
pub open spec fn spec_find_child_field(
    lines: Seq<Seq<char>>,
    j: int,
    ci_len: nat,
    field: Seq<char>,
) -> Option<Seq<char>>
    decreases lines.len() - j,
{
    if j < 0 || j >= lines.len() {
        None
    } else if spec_skipped_line(lines[j]) {
        spec_find_child_field(lines, j + 1, ci_len, field)
    } else if spec_leading_ws(lines[j]).len() < ci_len {
        None
    } else if spec_leading_ws(lines[j]).len() == ci_len && spec_line_has_field(
        lines[j],
        field,
    ) {
        Some(spec_trim(spec_trim(lines[j]).skip(field.len() as int + 1)))
    } else {
        spec_find_child_field(lines, j + 1, ci_len, field)
    }
}

/// Whether the trimmed line starts with `field:`.
pub open spec fn spec_line_has_field(l: Seq<char>, field: Seq<char>) -> bool {
    let t = spec_trim(l);
    t.len() >= field.len() + 1 && t.take(field.len() as int) == field && t[field.len() as int]
        == ':'
}

/// Find the value of a child field below `parent_line` at the given
/// indent depth.
pub fn find_child_field_value(
    lines: &Vec<String>,
    parent_line: usize,
    child_indent: &Vec<char>,
    field_name: &str,
) -> (r: Option<String>)
    ensures
        match r {
            Some(v) => spec_find_child_field(
                lines.deep_view(),
                parent_line as int,
                child_indent@.len(),
                field_name@,
            ) == Some(v@),
            None => spec_find_child_field(
                lines.deep_view(),
                parent_line as int,
                child_indent@.len(),
                field_name@,
            ) is None,
        },
{
    let ghost lv = lines.deep_view();
    let field = str_to_chars(field_name);
    let ghost fv = field@;
    let mut j: usize = parent_line;
    while j < lines.len()
        invariant
            j <= lines@.len() || j == parent_line,
            lv == lines.deep_view(),
            lv.len() == lines@.len(),
            forall|k: int| 0 <= k < lv.len() ==> lv[k] == #[trigger] lines@[k]@,
            fv == field_name@,
            field@ == fv,
            spec_find_child_field(lv, parent_line as int, child_indent@.len(), fv)
                == spec_find_child_field(lv, j as int, child_indent@.len(), fv),
        decreases lines@.len() - j,
    {
        let chars = str_to_chars(lines[j].as_str());
        proof {
            assert(chars@ == lv[j as int]);
        }
        let t = trim_chars(&chars);
        if t.len() == 0 || t[0] == '#' {
            proof {
                assert(spec_skipped_line(lv[j as int]));
            }
            j = j + 1;
            continue;
        }
        let ws = leading_whitespace(&chars);
        if ws.len() < child_indent.len() {
            proof {
                assert(!spec_skipped_line(lv[j as int]));
            }
            return None;
        }
        if ws.len() == child_indent.len() {
            if line_field_rest(&t, &field) {
                let rest = subrange_chars(&t, field.len() + 1, t.len());
                let value = trim_chars(&rest);
                proof {
                    assert(rest@ =~= spec_trim(chars@).skip(fv.len() as int + 1));
                    assert(!spec_skipped_line(lv[j as int]));
                    assert(spec_find_child_field(lv, j as int, child_indent@.len(), fv)
                        == Some(value@));
                }
                return Some(chars_to_string(&value));
            }
        }
        proof {
            assert(!spec_skipped_line(lv[j as int]));
            assert(!(spec_leading_ws(lv[j as int]).len() < child_indent@.len()));
            assert(spec_find_child_field(lv, j as int, child_indent@.len(), fv)
                == spec_find_child_field(lv, j + 1, child_indent@.len(), fv));
        }
        j = j + 1;
    }
    None
}

/// Whether trimmed line `t` starts with `field` followed by a colon.
fn line_field_rest(t: &Vec<char>, field: &Vec<char>) -> (r: bool)
    ensures
        r == (t@.len() >= field@.len() + 1 && t@.take(field@.len() as int) == field@ && t@[
            field@.len() as int] == ':'),
{
    let fl: usize = field.len();
    if t.len() <= fl {
        return false;
    }
    let mut k: usize = 0;
    while k < fl
        invariant
            k <= fl,
            fl == field@.len(),
            t@.len() >= fl + 1,
            forall|i: int| 0 <= i < k ==> t@[i] == field@[i],
        decreases fl - k,
    {
        if t[k] != field[k] {
            proof {
                assert(t@.take(fl as int)[k as int] != field@[k as int]);
            }
            return false;
        }
        k = k + 1;
    }
    proof {
        assert(t@.take(fl as int) =~= field@);
    }
    t[fl] == ':'
}

// ── Last child line ──────────────────────────────────────────────────

/// The 1-based number of the last line of the block under `parent_line`:
/// scanning from index `j`, `last` so far.
pub open spec fn spec_last_child(
    lines: Seq<Seq<char>>,
    j: int,
    parent_len: nat,
    last: int,
) -> int
    decreases lines.len() - j,
{
    if j < 0 || j >= lines.len() {
        last
    } else if spec_skipped_line(lines[j]) {
        spec_last_child(lines, j + 1, parent_len, last)
    } else if spec_leading_ws(lines[j]).len() <= parent_len {
        last
    } else {
        spec_last_child(lines, j + 1, parent_len, j + 1)
    }
}

/// Find the last child line of the block starting at `parent_line`
/// (1-based); the parent itself if no children follow.
pub fn last_child_line(lines: &Vec<String>, parent_line: usize) -> (r: usize)
    requires
        1 <= parent_line <= lines@.len(),
    ensures
        r as int == spec_last_child(
            lines.deep_view(),
            parent_line as int,
            spec_leading_ws(lines.deep_view()[parent_line - 1]).len(),
            parent_line as int,
        ),
        1 <= r <= lines@.len(),
{
    let ghost lv = lines.deep_view();
    let parent_chars = str_to_chars(lines[parent_line - 1].as_str());
    let pw = leading_whitespace(&parent_chars);
    let ghost plen = pw@.len();
    let mut last: usize = parent_line;
    let mut j: usize = parent_line;
    while j < lines.len()
        invariant
            parent_line <= j,
            lv == lines.deep_view(),
            lv.len() == lines@.len(),
            forall|k: int| 0 <= k < lv.len() ==> lv[k] == #[trigger] lines@[k]@,
            plen == spec_leading_ws(lv[parent_line - 1]).len(),
            pw@.len() == plen,
            1 <= last <= lines@.len(),
            spec_last_child(lv, parent_line as int, plen, parent_line as int)
                == spec_last_child(lv, j as int, plen, last as int),
        decreases lines@.len() - j,
    {
        let chars = str_to_chars(lines[j].as_str());
        proof {
            assert(chars@ == lv[j as int]);
        }
        let t = trim_chars(&chars);
        if t.len() == 0 || t[0] == '#' {
            proof {
                assert(spec_skipped_line(lv[j as int]));
            }
            j = j + 1;
            continue;
        }
        let ws = leading_whitespace(&chars);
        if ws.len() <= pw.len() {
            proof {
                assert(!spec_skipped_line(lv[j as int]));
            }
            return last;
        }
        proof {
            assert(!spec_skipped_line(lv[j as int]));
            assert(spec_last_child(lv, j as int, plen, last as int) == spec_last_child(
                lv,
                j + 1,
                plen,
                j + 1,
            ));
        }
        last = j + 1;
        j = j + 1;
    }
    last
}

// ── Context gathering ────────────────────────────────────────────────

/// The preview lines before a 0-based insertion index.
pub open spec fn spec_context_before(lines: Seq<Seq<char>>, idx: int, radius: int) -> Seq<
    Seq<char>,
> {
    let hi = if idx < lines.len() {
        idx
    } else {
        lines.len() as int
    };
    let lo = if idx - radius > 0 {
        idx - radius
    } else {
        0int
    };
    let lo2 = if lo < hi {
        lo
    } else {
        hi
    };
    lines.subrange(lo2, hi)
}

/// The preview lines after a 0-based insertion index.
pub open spec fn spec_context_after(lines: Seq<Seq<char>>, idx: int, radius: int) -> Seq<
    Seq<char>,
> {
    let lo = if idx < lines.len() {
        idx
    } else {
        lines.len() as int
    };
    let hi = if idx + radius < lines.len() {
        idx + radius
    } else {
        lines.len() as int
    };
    let hi2 = if hi > lo {
        hi
    } else {
        lo
    };
    lines.subrange(lo, hi2)
}

/// Copy a clamped sub-range of lines.
fn copy_lines(lines: &Vec<String>, from: usize, to: usize) -> (r: Vec<String>)
    requires
        from <= to <= lines@.len(),
    ensures
        r.deep_view() == lines.deep_view().subrange(from as int, to as int),
{
    let mut r: Vec<String> = Vec::new();
    let mut i: usize = from;
    while i < to
        invariant
            from <= i <= to <= lines@.len(),
            r@.len() == i - from,
            forall|k: int| 0 <= k < r@.len() ==> r@[k]@ == lines@[from + k]@,
        decreases to - i,
    {
        r.push(lines[i].clone());
        i = i + 1;
    }
    proof {
        assert forall|k: int| 0 <= k < r@.len() implies r.deep_view()[k]
            == lines.deep_view().subrange(from as int, to as int)[k] by {
            assert(r.deep_view()[k] == r@[k]@);
        }
        assert(r.deep_view() =~= lines.deep_view().subrange(from as int, to as int));
    }
    r
}

/// Gather context lines around 1-based `target_line` for a diff preview:
/// up to `radius` lines before the insertion point and after it.
pub fn gather_context(lines: &Vec<String>, target_line: usize, radius: usize) -> (r: (
    Vec<String>,
    Vec<String>,
))
    ensures
        r.0.deep_view() == spec_context_before(
            lines.deep_view(),
            if target_line > 0 {
                target_line - 1
            } else {
                0int
            },
            radius as int,
        ),
        r.1.deep_view() == spec_context_after(
            lines.deep_view(),
            if target_line > 0 {
                target_line - 1
            } else {
                0int
            },
            radius as int,
        ),
{
    let idx: usize = if target_line > 0 {
        target_line - 1
    } else {
        0
    };
    gather_context_at(lines, idx, radius)
}

/// As `gather_context`, with a 0-based insertion index.
pub fn gather_context_at(lines: &Vec<String>, idx: usize, radius: usize) -> (r: (
    Vec<String>,
    Vec<String>,
))
    ensures
        r.0.deep_view() == spec_context_before(lines.deep_view(), idx as int, radius as int),
        r.1.deep_view() == spec_context_after(lines.deep_view(), idx as int, radius as int),
{
    let n: usize = lines.len();
    let lo: usize = if idx > radius {
        idx - radius
    } else {
        0
    };
    let mid: usize = if idx < n {
        idx
    } else {
        n
    };
    let lo2: usize = if lo < mid {
        lo
    } else {
        mid
    };
    let before = copy_lines(lines, lo2, mid);
    let hi: usize = if radius <= n && idx < n - radius {
        idx + radius
    } else {
        n
    };
    let hi2: usize = if hi < mid {
        mid
    } else {
        hi
    };
    let after = copy_lines(lines, mid, hi2);
    proof {
        assert(before.deep_view() =~= spec_context_before(
            lines.deep_view(),
            idx as int,
            radius as int,
        ));
        assert(after.deep_view() =~= spec_context_after(
            lines.deep_view(),
            idx as int,
            radius as int,
        ));
    }
    (before, after)
}

// ── Operation context ────────────────────────────────────────────────

/// The token with trailing `':'` characters removed.
pub open spec fn spec_strip_colons(t: Seq<char>) -> Seq<char>
    decreases t.len(),
{
    if t.len() > 0 && t.last() == ':' {
        spec_strip_colons(t.drop_last())
    } else {
        t
    }
}

proof fn lemma_strip_colons_is_take(t: Seq<char>, i: int)
    requires
        0 <= i <= t.len(),
        forall|k: int| i <= k < t.len() ==> t[k] == ':',
        i > 0 ==> t[i - 1] != ':',
    ensures
        spec_strip_colons(t) == t.take(i),
    decreases t.len() - i,
{
    if i == t.len() as int {
        assert(t.take(i) =~= t);
    } else {
        let d = t.drop_last();
        assert(forall|k: int| i <= k < d.len() ==> d[k] == t[k] && d[k] == ':');
        assert(i > 0 ==> d[i - 1] == t[i - 1]);
        lemma_strip_colons_is_take(d, i);
        assert(d.take(i) =~= t.take(i));
    }
}

/// The view of a finding's JSON path, if any.
pub open spec fn spec_json_path_view(e: LintError) -> Option<Seq<char>> {
    match e.json_path {
        Some(p) => Some(p@),
        None => None,
    }
}

/// The operation a finding points at: the 1-based anchor line of its
/// resolved JSON path, and the operation identifier — the child
/// `operationId` value if one sits at the detected child indent, else the
/// anchor line's text without trailing colons.
pub open spec fn spec_op_context(
    jp: Option<Seq<char>>,
    m: Map<Seq<char>, SourceSpan>,
    lines: Seq<Seq<char>>,
) -> Option<(int, Seq<char>)> {
    match jp {
        None => None,
        Some(path) => match spec_resolve(m, path) {
            None => None,
            Some(sp) => if sp.line == 0 || sp.line > lines.len() {
                None
            } else {
                let ci = spec_find_child_indent(
                    lines,
                    sp.line as int,
                    spec_leading_ws(lines[sp.line - 1]),
                );
                let opid = match spec_find_child_field(
                    lines,
                    sp.line as int,
                    ci.len(),
                    "operationId"@,
                ) {
                    Some(v) => v,
                    None => spec_strip_colons(spec_trim(lines[sp.line - 1])),
                };
                Some((sp.line as int, opid))
            },
        },
    }
}

/// Resolve the operation key line (e.g. `get:`) from an error's JSON
/// path, and extract the operation identifier.
pub fn resolve_operation_context(
    error: &LintError,
    spec_index: &SpecIndex,
    lines: &Vec<String>,
) -> (r: Option<(usize, String)>)
    ensures
        match r {
            Some(ctx) => spec_op_context(
                spec_json_path_view(*error),
                spec_index.spans_map(),
                lines.deep_view(),
            ) == Some((ctx.0 as int, ctx.1@)) && 1 <= ctx.0 <= lines@.len(),
            None => spec_op_context(
                spec_json_path_view(*error),
                spec_index.spans_map(),
                lines.deep_view(),
            ) is None,
        },
{
    let jp = match &error.json_path {
        Some(p) => p,
        None => {
            return None;
        },
    };
    let span = match spec_index.resolve(jp.as_str()) {
        Some(s) => s,
        None => {
            return None;
        },
    };
    let op_line = span.line;
    if op_line == 0 || op_line > lines.len() {
        return None;
    }
    let ci_string = detect_child_indent(lines, op_line);
    let ci = str_to_chars(ci_string.as_str());
    let op_id = match find_child_field_value(lines, op_line, &ci, "operationId") {
        Some(v) => v,
        None => {
            let chars = str_to_chars(lines[op_line - 1].as_str());
            let t = trim_chars(&chars);
            let mut end: usize = t.len();
            while end > 0 && t[end - 1] == ':'
                invariant
                    end <= t@.len(),
                    forall|k: int| end <= k < t@.len() ==> t@[k] == ':',
                decreases end,
            {
                end = end - 1;
            }
            proof {
                lemma_strip_colons_is_take(t@, end as int);
            }
            let stripped = subrange_chars(&t, 0, end);
            proof {
                assert(stripped@ =~= t@.take(end as int));
            }
            chars_to_string(&stripped)
        },
    };
    Some((op_line, op_id))
}

// ── Rule generators ──────────────────────────────────────────────────

/// What a proposal for one of the `operation-*` rules holds: the anchor
/// line as target, one inserted line `{indent}{field}: "{op_id} {field}"`,
/// and three lines of context either side of the insertion point.
pub open spec fn operation_proposal_matches(
    p: FixProposal,
    e: LintError,
    m: Map<Seq<char>, SourceSpan>,
    lines: Seq<Seq<char>>,
    field: Seq<char>,
    description: Seq<char>,
) -> bool {
    spec_op_context(spec_json_path_view(e), m, lines) matches Some(lc) && {
        let ci = spec_find_child_indent(lines, lc.0, spec_leading_ws(lines[lc.0 - 1]));
        &&& p.target_line as int == lc.0
        &&& p.rule@ == e.rule@
        &&& p.description@ == description
        &&& p.inserted.deep_view() == seq![ci + field + ": \""@ + lc.1 + seq![' '] + field
            + "\""@]
        &&& p.context_before.deep_view() == spec_context_before(lines, lc.0, 3)
        &&& p.context_after.deep_view() == spec_context_after(lines, lc.0, 3)
    }
}

/// Build the single inserted line `{indent}{field}: "{op_id} {field}"`.
fn build_operation_line(indent: &String, field: &str, op_id: &String) -> (r: String)
    ensures
        r@ == indent@ + field@ + ": \""@ + op_id@ + seq![' '] + field@ + "\""@,
{
    let mut line = String::new();
    line.append(indent.as_str());
    line.append(field);
    line.append(": \"");
    line.append(op_id.as_str());
    line.append(" ");
    line.append(field);
    line.append("\"");
    proof {
        reveal_strlit(" ");
        assert(" "@ =~= seq![' ']);
        assert(line@ =~= indent@ + field@ + ": \""@ + op_id@ + seq![' '] + field@ + "\""@);
    }
    line
}

/// Propose adding a `summary` field to the operation a finding points at.
pub fn propose_operation_summary(
    error: &LintError,
    spec_index: &SpecIndex,
    lines: &Vec<String>,
) -> (r: Option<FixProposal>)
    ensures
        match r {
            Some(p) => operation_proposal_matches(
                p,
                *error,
                spec_index.spans_map(),
                lines.deep_view(),
                "summary"@,
                "Add 'summary' field to the operation"@,
            ),
            None => spec_op_context(
                spec_json_path_view(*error),
                spec_index.spans_map(),
                lines.deep_view(),
            ) is None,
        },
{
    let ctx = match resolve_operation_context(error, spec_index, lines) {
        Some(c) => c,
        None => {
            return None;
        },
    };
    let op_line = ctx.0;
    let indent = detect_child_indent(lines, op_line);
    let line0 = build_operation_line(&indent, "summary", &ctx.1);
    let mut inserted: Vec<String> = Vec::new();
    inserted.push(line0);
    let (ctx_before, ctx_after) = gather_context_at(lines, op_line, 3);
    let p = FixProposal {
        rule: error.rule.clone(),
        description: String::from_str("Add 'summary' field to the operation"),
        target_line: op_line,
        context_before: ctx_before,
        inserted,
        context_after: ctx_after,
    };
    proof {
        assert(p.inserted.deep_view() =~~= seq![p.inserted@[0]@]);
    }
    Some(p)
}

/// Propose adding a `description` field to the operation a finding
/// points at.
pub fn propose_operation_description(
    error: &LintError,
    spec_index: &SpecIndex,
    lines: &Vec<String>,
) -> (r: Option<FixProposal>)
    ensures
        match r {
            Some(p) => operation_proposal_matches(
                p,
                *error,
                spec_index.spans_map(),
                lines.deep_view(),
                "description"@,
                "Add 'description' field to the operation"@,
            ),
            None => spec_op_context(
                spec_json_path_view(*error),
                spec_index.spans_map(),
                lines.deep_view(),
            ) is None,
        },
{
    let ctx = match resolve_operation_context(error, spec_index, lines) {
        Some(c) => c,
        None => {
            return None;
        },
    };
    let op_line = ctx.0;
    let indent = detect_child_indent(lines, op_line);
    let line0 = build_operation_line(&indent, "description", &ctx.1);
    let mut inserted: Vec<String> = Vec::new();
    inserted.push(line0);
    let (ctx_before, ctx_after) = gather_context_at(lines, op_line, 3);
    let p = FixProposal {
        rule: error.rule.clone(),
        description: String::from_str("Add 'description' field to the operation"),
        target_line: op_line,
        context_before: ctx_before,
        inserted,
        context_after: ctx_after,
    };
    proof {
        assert(p.inserted.deep_view() =~~= seq![p.inserted@[0]@]);
    }
    Some(p)
}

/// Where an `info-*` proposal anchors: the `/info` block must resolve to
/// a line inside the file; the insertion goes after its last child line.
pub open spec fn spec_info_anchor(m: Map<Seq<char>, SourceSpan>, lines: Seq<Seq<char>>) -> Option<
    int,
> {
    match spec_resolve(m, "/info"@) {
        None => None,
        Some(sp) => if sp.line == 0 || sp.line > lines.len() {
            None
        } else {
            Some(
                spec_last_child(
                    lines,
                    sp.line as int,
                    spec_leading_ws(lines[sp.line - 1]).len(),
                    sp.line as int,
                ),
            )
        },
    }
}

/// The child indent under the `/info` line.
pub open spec fn spec_info_indent(m: Map<Seq<char>, SourceSpan>, lines: Seq<Seq<char>>) -> Seq<
    char,
> {
    let sp = spec_resolve(m, "/info"@).unwrap();
    spec_find_child_indent(lines, sp.line as int, spec_leading_ws(lines[sp.line - 1]))
}

/// What a proposal for the `info-contact` rule holds: a `contact` block
/// of three lines under the info child indent, inserted after the last
/// line of the `info` block, with three lines of context either side.
pub open spec fn info_contact_proposal_matches(
    p: FixProposal,
    e: LintError,
    m: Map<Seq<char>, SourceSpan>,
    lines: Seq<Seq<char>>,
) -> bool {
    spec_info_anchor(m, lines) matches Some(target) && {
        let ci = spec_info_indent(m, lines);
        &&& p.target_line as int == target
        &&& p.rule@ == e.rule@
        &&& p.description@ == "Add 'contact' block under /info"@
        &&& p.inserted.deep_view() == seq![
            ci + "contact:"@,
            ci + "  name: \"\""@,
            ci + "  url: \"\""@,
        ]
        &&& p.context_before.deep_view() == spec_context_before(lines, target, 3)
        &&& p.context_after.deep_view() == spec_context_after(lines, target, 3)
    }
}

/// What a proposal for the `info-license` rule holds: a `license` block
/// of two lines under the info child indent, inserted after the last
/// line of the `info` block, with three lines of context either side.
pub open spec fn info_license_proposal_matches(
    p: FixProposal,
    e: LintError,
    m: Map<Seq<char>, SourceSpan>,
    lines: Seq<Seq<char>>,
) -> bool {
    spec_info_anchor(m, lines) matches Some(target) && {
        let ci = spec_info_indent(m, lines);
        &&& p.target_line as int == target
        &&& p.rule@ == e.rule@
        &&& p.description@ == "Add 'license' block under /info"@
        &&& p.inserted.deep_view() == seq![ci + "license:"@, ci + "  name: \"\""@]
        &&& p.context_before.deep_view() == spec_context_before(lines, target, 3)
        &&& p.context_after.deep_view() == spec_context_after(lines, target, 3)
    }
}

/// Propose adding a `contact` block under `/info`.
pub fn propose_info_contact(
    error: &LintError,
    spec_index: &SpecIndex,
    lines: &Vec<String>,
) -> (r: Option<FixProposal>)
    ensures
        match r {
            Some(p) => info_contact_proposal_matches(
                p,
                *error,
                spec_index.spans_map(),
                lines.deep_view(),
            ),
            None => spec_info_anchor(spec_index.spans_map(), lines.deep_view()) is None,
        },
{
    let span = match spec_index.resolve("/info") {
        Some(s) => s,
        None => {
            return None;
        },
    };
    let info_line = span.line;
    if info_line == 0 || info_line > lines.len() {
        return None;
    }
    let child_indent = detect_child_indent(lines, info_line);
    let target = last_child_line(lines, info_line);

    let mut l0 = String::new();
    l0.append(child_indent.as_str());
    l0.append("contact:");
    let mut l1 = String::new();
    l1.append(child_indent.as_str());
    l1.append("  name: \"\"");
    let mut l2 = String::new();
    l2.append(child_indent.as_str());
    l2.append("  url: \"\"");
    let mut inserted: Vec<String> = Vec::new();
    inserted.push(l0);
    inserted.push(l1);
    inserted.push(l2);

    let (ctx_before, ctx_after) = gather_context_at(lines, target, 3);
    let p = FixProposal {
        rule: error.rule.clone(),
        description: String::from_str("Add 'contact' block under /info"),
        target_line: target,
        context_before: ctx_before,
        inserted,
        context_after: ctx_after,
    };
    proof {
        reveal_strlit("contact:");
        reveal_strlit("  name: \"\"");
        reveal_strlit("  url: \"\"");
        let ci = spec_info_indent(spec_index.spans_map(), lines.deep_view());
        assert(p.inserted.deep_view() =~~= seq![
            ci + "contact:"@,
            ci + "  name: \"\""@,
            ci + "  url: \"\""@,
        ]);
    }
    Some(p)
}

/// Propose adding a `license` block under `/info`.
pub fn propose_info_license(
    error: &LintError,
    spec_index: &SpecIndex,
    lines: &Vec<String>,
) -> (r: Option<FixProposal>)
    ensures
        match r {
            Some(p) => info_license_proposal_matches(
                p,
                *error,
                spec_index.spans_map(),
                lines.deep_view(),
            ),
            None => spec_info_anchor(spec_index.spans_map(), lines.deep_view()) is None,
        },
{
    let span = match spec_index.resolve("/info") {
        Some(s) => s,
        None => {
            return None;
        },
    };
    let info_line = span.line;
    if info_line == 0 || info_line > lines.len() {
        return None;
    }
    let child_indent = detect_child_indent(lines, info_line);
    let target = last_child_line(lines, info_line);

    let mut l0 = String::new();
    l0.append(child_indent.as_str());
    l0.append("license:");
    let mut l1 = String::new();
    l1.append(child_indent.as_str());
    l1.append("  name: \"\"");
    let mut inserted: Vec<String> = Vec::new();
    inserted.push(l0);
    inserted.push(l1);

    let (ctx_before, ctx_after) = gather_context_at(lines, target, 3);
    let p = FixProposal {
        rule: error.rule.clone(),
        description: String::from_str("Add 'license' block under /info"),
        target_line: target,
        context_before: ctx_before,
        inserted,
        context_after: ctx_after,
    };
    proof {
        reveal_strlit("license:");
        reveal_strlit("  name: \"\"");
        let ci = spec_info_indent(spec_index.spans_map(), lines.deep_view());
        assert(p.inserted.deep_view() =~~= seq![ci + "license:"@, ci + "  name: \"\""@]);
    }
    Some(p)
}

/// Try to generate a fix proposal for the given lint error: dispatches on
/// the rule name; unsupported rules yield no proposal.
pub fn propose_fix(
    error: &LintError,
    spec_index: &SpecIndex,
    lines: &Vec<String>,
) -> (r: Option<FixProposal>)
    ensures
        error.rule@ == "operation-summary"@ ==> match r {
            Some(p) => operation_proposal_matches(
                p,
                *error,
                spec_index.spans_map(),
                lines.deep_view(),
                "summary"@,
                "Add 'summary' field to the operation"@,
            ),
            None => spec_op_context(
                spec_json_path_view(*error),
                spec_index.spans_map(),
                lines.deep_view(),
            ) is None,
        },
        error.rule@ == "operation-description"@ ==> match r {
            Some(p) => operation_proposal_matches(
                p,
                *error,
                spec_index.spans_map(),
                lines.deep_view(),
                "description"@,
                "Add 'description' field to the operation"@,
            ),
            None => spec_op_context(
                spec_json_path_view(*error),
                spec_index.spans_map(),
                lines.deep_view(),
            ) is None,
        },
        error.rule@ == "info-contact"@ ==> match r {
            Some(p) => info_contact_proposal_matches(
                p,
                *error,
                spec_index.spans_map(),
                lines.deep_view(),
            ),
            None => spec_info_anchor(spec_index.spans_map(), lines.deep_view()) is None,
        },
        error.rule@ == "info-license"@ ==> match r {
            Some(p) => info_license_proposal_matches(
                p,
                *error,
                spec_index.spans_map(),
                lines.deep_view(),
            ),
            None => spec_info_anchor(spec_index.spans_map(), lines.deep_view()) is None,
        },
        error.rule@ != "operation-summary"@ && error.rule@ != "operation-description"@
            && error.rule@ != "info-contact"@ && error.rule@ != "info-license"@ ==> r is None,
{
    proof {
        reveal_strlit("operation-summary");
        reveal_strlit("operation-description");
        reveal_strlit("info-contact");
        reveal_strlit("info-license");
        assert("operation-summary"@.len() == 17);
        assert("operation-description"@.len() == 21);
        assert("info-contact"@.len() == 12);
        assert("info-license"@.len() == 12);
        assert("operation-summary"@ != "operation-description"@);
        assert("info-contact"@ != "info-license"@) by {
            assert("info-contact"@[5] == 'c');
            assert("info-license"@[5] == 'l');
        }
    }
    let rule_chars = str_to_chars(error.rule.as_str());
    if crate::text::chars_eq_str(&rule_chars, "operation-summary") {
        propose_operation_summary(error, spec_index, lines)
    } else if crate::text::chars_eq_str(&rule_chars, "operation-description") {
        propose_operation_description(error, spec_index, lines)
    } else if crate::text::chars_eq_str(&rule_chars, "info-contact") {
        propose_info_contact(error, spec_index, lines)
    } else if crate::text::chars_eq_str(&rule_chars, "info-license") {
        propose_info_license(error, spec_index, lines)
    } else {
        None
    }
}

// ── Applying a proposal ──────────────────────────────────────────────

/// Why a proposal cannot be applied.
#[derive(Debug, Clone, Copy, PartialEq, Eq, Structural)]
pub enum FixApplyError {
    /// The proposal's target line lies beyond the end of the file.
    TargetBeyondFile,
}

/// Whether a text ends with a newline.
pub open spec fn spec_has_trailing_newline(content: Seq<char>) -> bool {
    content.len() > 0 && content.last() == '\n'
}

/// The lines of a file after inserting `inserted` right after 1-based
/// line `target` (0 inserts at the top).
pub open spec fn spec_spliced(
    old_lines: Seq<Seq<char>>,
    inserted: Seq<Seq<char>>,
    target: int,
) -> Seq<Seq<char>> {
    old_lines.take(target) + inserted + old_lines.skip(target)
}

/// Apply a fix proposal to a file's text: split into lines, insert the
/// proposal's lines after its target line, and join back, keeping a
/// trailing newline exactly when the original had one. Fails exactly
/// when the target line lies beyond the file.
pub fn apply_fix(content: &str, proposal: &FixProposal) -> (r: Result<String, FixApplyError>)
    ensures
        match r {
            Ok(out) => proposal.target_line <= spec_lines(content@).len() && out@
                == spec_join_text(
                spec_spliced(
                    spec_lines(content@),
                    proposal.inserted.deep_view(),
                    proposal.target_line as int,
                ),
                spec_has_trailing_newline(content@),
            ),
            Err(e) => proposal.target_line > spec_lines(content@).len() && e
                == FixApplyError::TargetBeyondFile,
        },
{
    let mut lines = split_lines(content);
    let ghost old_lines = lines.deep_view();
    let n: usize = content.unicode_len();
    let trailing = n > 0 && content.get_char(n - 1) == '\n';
    proof {
        if content@.len() > 0 {
            assert(content@.last() == content@[n - 1]);
        }
    }
    if proposal.target_line > lines.len() {
        return Err(FixApplyError::TargetBeyondFile);
    }
    let target = proposal.target_line;
    let mut k: usize = 0;
    while k < proposal.inserted.len()
        invariant
            k <= proposal.inserted@.len(),
            target <= old_lines.len(),
            lines@.len() == old_lines.len() + k,
            lines.deep_view() =~= old_lines.take(target as int)
                + proposal.inserted.deep_view().take(k as int) + old_lines.skip(target as int),
        decreases proposal.inserted@.len() - k,
    {
        let ghost pre = lines.deep_view();
        let cur: usize = lines.len();
        proof {
            assert(target + k <= cur);
        }
        lines.insert(target + k, proposal.inserted[k].clone());
        proof {
            assert(lines.deep_view() =~~= pre.insert(
                target + k,
                proposal.inserted@[k as int]@,
            ));
            assert(lines.deep_view() =~~= old_lines.take(target as int)
                + proposal.inserted.deep_view().take(k + 1) + old_lines.skip(target as int));
        }
        k = k + 1;
    }
    proof {
        assert(proposal.inserted.deep_view().take(proposal.inserted@.len() as int)
            =~= proposal.inserted.deep_view());
        assert(lines.deep_view() =~= spec_spliced(
            old_lines,
            proposal.inserted.deep_view(),
            target as int,
        ));
    }
    Ok(crate::text::join_lines(&lines, trailing))
}

// ── Laws of application ──────────────────────────────────────────────

/// A non-empty text always splits into at least one line.
pub proof fn lemma_lines_nonempty(s: Seq<char>)
    requires
        s.len() > 0,
    ensures
        spec_lines(s).len() >= 1,
{
}

/// A text that does not end in a newline ends in a non-empty line.
pub proof fn lemma_last_line_nonempty(s: Seq<char>)
    requires
        s.len() > 0,
        s.last() != '\n',
    ensures
        spec_lines(s).len() >= 1,
        spec_lines(s).last().len() > 0,
    decreases s.len(),
{
    if s[0] == '\n' {
        let d = s.drop_first();
        assert(d.len() > 0);
        assert(d.last() == s.last());
        lemma_last_line_nonempty(d);
        assert(spec_lines(s).last() == spec_lines(d).last());
    } else if s[0] == '\r' && s.len() >= 2 && s[1] == '\n' {
        let d = s.skip(2);
        assert(d.len() > 0) by {
            if s.len() == 2 {
                assert(s.last() == s[1]);
            }
        }
        assert(d.last() == s.last());
        lemma_last_line_nonempty(d);
        assert(spec_lines(s).last() == spec_lines(d).last());
    } else {
        let d = s.drop_first();
        let rest = spec_lines(d);
        if d.len() == 0 {
            assert(spec_lines(s) == seq![seq![s[0]]]);
        } else {
            assert(d.last() == s.last());
            lemma_last_line_nonempty(d);
            assert(rest.len() >= 1);
            if rest.len() == 1 {
                assert(spec_lines(s) == seq![seq![s[0]] + rest[0]] + rest.drop_first());
                assert(rest.drop_first() =~= Seq::<Seq<char>>::empty());
                assert(spec_lines(s).last() == seq![s[0]] + rest[0]);
            } else {
                assert(spec_lines(s).last() == rest.last());
            }
        }
    }
}

/// Applying a proposal preserves line structure: reading the new text
/// back yields the old lines with the inserted lines spliced in, so the
/// new line count is the old one plus the number of inserted lines, and
/// the text ends in a newline exactly when the original did. The file
/// must hold no carriage return (a CRLF file is normalized by the
/// application, not preserved byte for byte), and inserted lines must
/// be non-empty, newline-free and not end in a carriage return.
pub proof fn lemma_apply_preserves_lines(
    content: Seq<char>,
    inserted: Seq<Seq<char>>,
    target: int,
)
    requires
        0 <= target <= spec_lines(content).len(),
        !content.contains('\r'),
        forall|j: int|
            0 <= j < inserted.len() ==> (#[trigger] inserted[j]).len() > 0 && !inserted[
                j
            ].contains('\n') && inserted[j].last() != '\r',
    ensures
        spec_lines(
            spec_join_text(
                spec_spliced(spec_lines(content), inserted, target),
                spec_has_trailing_newline(content),
            ),
        ) == spec_spliced(spec_lines(content), inserted, target),
        spec_spliced(spec_lines(content), inserted, target).len() == spec_lines(content).len()
            + inserted.len(),
{
    let old_lines = spec_lines(content);
    let spliced = spec_spliced(old_lines, inserted, target);
    let trailing = spec_has_trailing_newline(content);
    crate::text::lemma_lines_no_newline(content);
    crate::text::lemma_lines_char_free(content, '\r');
    assert(forall|j: int| 0 <= j < spliced.len() ==> !(#[trigger] spliced[j]).contains('\n'))
        by {
        assert(forall|j: int|
            0 <= j < spliced.len() && j < target ==> spliced[j] == old_lines[j]);
        assert(forall|j: int|
            target <= j < target + inserted.len() ==> #[trigger] spliced[j] == inserted[
                j - target
            ]);
        assert(forall|j: int|
            target + inserted.len() <= j < spliced.len() ==> #[trigger] spliced[j]
                == old_lines[j - inserted.len()]);
    }
    assert forall|j: int|
        0 <= j < spliced.len() implies ((#[trigger] spliced[j]).len() > 0 ==> spliced[j].last()
        != '\r') by {
        if j < target {
            assert(spliced[j] == old_lines[j]);
            assert(!old_lines[j].contains('\r'));
        } else if j < target + inserted.len() {
            assert(spliced[j] == inserted[j - target]);
        } else {
            assert(spliced[j] == old_lines[j - inserted.len()]);
            assert(!old_lines[j - inserted.len()].contains('\r'));
        }
    }
    if trailing {
        assert(content.len() > 0);
        lemma_lines_nonempty(content);
        assert(spliced.len() >= 1);
    } else {
        if spliced.len() > 0 {
            if target + inserted.len() < spliced.len() {
                assert(spliced.last() == old_lines.last());
                assert(content.len() > 0);
                lemma_last_line_nonempty(content);
            } else if inserted.len() > 0 && target == old_lines.len() {
                assert(spliced.last() == inserted.last());
            } else {
                assert(inserted.len() == 0);
                assert(spliced =~= old_lines);
                assert(content.len() > 0) by {
                    if content.len() == 0 {
                        assert(old_lines.len() == 0);
                    }
                }
                lemma_last_line_nonempty(content);
                assert(spliced.last() == old_lines.last());
            }
        }
    }
    crate::text::lemma_lines_of_join(spliced, trailing);
}

} // verus!
