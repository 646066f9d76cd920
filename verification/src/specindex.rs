//! Spec indexing: scan a YAML (or prettified JSON) source line by line and
//! map each JSON Pointer (RFC 6901) to its source location, with context
//! windows over the verbatim lines.
//!
//! The scan keeps a stack of `(indent, key)` frames; a line's pointer is the
//! stack joined with `/`, each key escaped (`~` to `~0`, `/` to `~1`).

use vstd::prelude::*;

use crate::text::{
    chars_start_with, chars_to_string, index_of_char, is_indent_char, is_ws, spec_indent,
    spec_lines, spec_trim, spec_trim_start, split_lines, str_to_chars, subrange_chars, trim_chars,
};
use crate::log_parser::{lemma_index_of_props, spec_index_of};

verus! {

/// A 1-based line, 0-based column location in a source file.
#[derive(Debug, Clone, Copy, PartialEq, Eq, Structural)]
pub struct SourceSpan {
    pub line: usize,
    pub col: usize,
}

/// A window of source lines around a target line.
#[derive(Debug, Clone, PartialEq, Eq)]
pub struct ContextWindow {
    pub start_line: usize,
    pub lines: Vec<String>,
    pub target_line: usize,
}

// ── Pointer escaping and assembly ────────────────────────────────────

/// RFC 6901 escape of one key: `~` to `~0`, `/` to `~1`.
pub open spec fn spec_escape(key: Seq<char>) -> Seq<char>
    decreases key.len(),
{
    if key.len() == 0 {
        Seq::empty()
    } else {
        spec_escape(key.drop_last()) + spec_escape_char(key.last())
    }
}

pub open spec fn spec_escape_char(c: char) -> Seq<char> {
    if c == '~' {
        seq!['~', '0']
    } else if c == '/' {
        seq!['~', '1']
    } else {
        seq![c]
    }
}

/// The pointer a key stack denotes: `/` plus the escaped key, per frame.
pub open spec fn spec_pointer(stack: Seq<(nat, Seq<char>)>) -> Seq<char>
    decreases stack.len(),
{
    if stack.len() == 0 {
        Seq::empty()
    } else {
        spec_pointer(stack.drop_last()) + seq!['/'] + spec_escape(stack.last().1)
    }
}

pub proof fn lemma_pointer_starts_slash(stack: Seq<(nat, Seq<char>)>)
    requires
        stack.len() >= 1,
    ensures
        spec_pointer(stack).len() >= 1,
        spec_pointer(stack)[0] == '/',
    decreases stack.len(),
{
    let p = spec_pointer(stack);
    let head = spec_pointer(stack.drop_last());
    if stack.len() > 1 {
        lemma_pointer_starts_slash(stack.drop_last());
        assert(p[0] == (head + seq!['/'] + spec_escape(stack.last().1))[0]);
        assert(p[0] == head[0]);
    } else {
        assert(head =~= Seq::<char>::empty());
        assert(p[0] == (head + seq!['/'] + spec_escape(stack.last().1))[0]);
        assert(p[0] == '/');
    }
}

/// Escape one key for use inside a JSON Pointer.
pub fn escape_chars(key: &Vec<char>) -> (r: Vec<char>)
    ensures
        r@ == spec_escape(key@),
{
    let mut r: Vec<char> = Vec::new();
    let mut i: usize = 0;
    proof {
        assert(key@.take(0) =~= Seq::<char>::empty());
    }
    while i < key.len()
        invariant
            i <= key@.len(),
            r@ == spec_escape(key@.take(i as int)),
        decreases key@.len() - i,
    {
        let c = key[i];
        proof {
            assert(key@.take(i + 1).drop_last() =~= key@.take(i as int));
            assert(key@.take(i + 1).last() == key@[i as int]);
        }
        if c == '~' {
            r.push('~');
            r.push('0');
        } else if c == '/' {
            r.push('~');
            r.push('1');
        } else {
            r.push(c);
        }
        proof {
            assert(r@ =~= spec_escape(key@.take(i + 1)));
        }
        i = i + 1;
    }
    proof {
        assert(key@.take(key@.len() as int) =~= key@);
    }
    r
}

// ── Key extraction ───────────────────────────────────────────────────

/// The key of a trimmed line, with the column offset its prefix consumed:
/// an array-item prefix `- ` consumes two columns; a quoted key yields the
/// unquoted contents; otherwise the key is everything before the first
/// colon, trimmed.
pub open spec fn spec_key_of(t: Seq<char>) -> Option<(Seq<char>, nat)> {
    if t.len() >= 2 && t.take(2) == "- "@ {
        match spec_key_of_effective(t.skip(2)) {
            Some(k) => Some((k, 2nat)),
            None => None,
        }
    } else {
        match spec_key_of_effective(t) {
            Some(k) => Some((k, 0nat)),
            None => None,
        }
    }
}

pub open spec fn spec_key_of_effective(e: Seq<char>) -> Option<Seq<char>> {
    if e.len() > 0 && (e[0] == '"' || e[0] == '\'') {
        let quote = e[0];
        let rest = e.drop_first();
        let end = spec_index_of(rest, quote);
        if end < 0 {
            None
        } else {
            let after = rest.skip(end + 1);
            if after.len() > 0 && after[0] == ':' {
                Some(rest.take(end))
            } else {
                None
            }
        }
    } else {
        let colon = spec_index_of(e, ':');
        if colon < 0 {
            None
        } else if colon == 0 {
            None
        } else {
            Some(spec_trim(e.take(colon)))
        }
    }
}

/// Extract the YAML key from a trimmed line.
pub fn extract_yaml_key(t: &Vec<char>) -> (r: Option<(Vec<char>, usize)>)
    ensures
        match r {
            Some(ko) => spec_key_of(t@) == Some((ko.0@, ko.1 as nat)) && (ko.1 == 0 || ko.1
                == 2),
            None => spec_key_of(t@) is None,
        },
{
    proof {
        reveal_strlit("- ");
    }
    if chars_start_with(t, "- ") {
        proof {
            assert(t@.len() >= 2);
        }
        let effective = subrange_chars(t, 2, t.len());
        proof {
            assert(effective@ =~= t@.skip(2));
        }
        match extract_key_effective(&effective) {
            Some(k) => Some((k, 2)),
            None => None,
        }
    } else {
        let effective = subrange_chars(t, 0, t.len());
        proof {
            assert(effective@ =~= t@);
        }
        match extract_key_effective(&effective) {
            Some(k) => Some((k, 0)),
            None => None,
        }
    }
}

fn extract_key_effective(e: &Vec<char>) -> (r: Option<Vec<char>>)
    ensures
        match r {
            Some(k) => spec_key_of_effective(e@) == Some(k@),
            None => spec_key_of_effective(e@) is None,
        },
{
    let n: usize = e.len();
    if n > 0 && (e[0] == '"' || e[0] == '\'') {
        let quote = e[0];
        let rest = subrange_chars(e, 1, n);
        proof {
            assert(rest@ =~= e@.drop_first());
            lemma_index_of_props(rest@, quote);
        }
        let end = match index_of_char(&rest, quote) {
            Some(i) => i,
            None => {
                return None;
            },
        };
        proof {
            assert(spec_index_of(rest@, quote) == end as int);
        }
        let m: usize = rest.len();
        if end + 1 < m {
            if rest[end + 1] == ':' {
                let key = subrange_chars(&rest, 0, end);
                proof {
                    assert(key@ =~= rest@.take(end as int));
                    assert(rest@.skip(end + 1).len() > 0);
                    assert(rest@.skip(end + 1)[0] == rest@[end + 1]);
                }
                return Some(key);
            }
        }
        proof {
            let after = rest@.skip(end + 1);
            if after.len() > 0 {
                assert(after[0] == rest@[end + 1]);
            }
        }
        None
    } else {
        proof {
            lemma_index_of_props(e@, ':');
        }
        let colon = match index_of_char(e, ':') {
            Some(i) => i,
            None => {
                return None;
            },
        };
        proof {
            assert(spec_index_of(e@, ':') == colon as int);
        }
        if colon == 0 {
            return None;
        }
        let candidate = subrange_chars(e, 0, colon);
        proof {
            assert(candidate@ =~= e@.take(colon as int));
        }
        Some(trim_chars(&candidate))
    }
}

// ── The line scan ────────────────────────────────────────────────────

/// Pop stack frames at the same or deeper indent.
pub open spec fn spec_pop(stack: Seq<(nat, Seq<char>)>, indent: nat) -> Seq<(nat, Seq<char>)>
    decreases stack.len(),
{
    if stack.len() > 0 && stack.last().0 >= indent {
        spec_pop(stack.drop_last(), indent)
    } else {
        stack
    }
}

/// Whether the scan skips a line: blank, comment, or flow-collection
/// opener.
pub open spec fn spec_skip_line(t: Seq<char>) -> bool {
    t.len() == 0 || t[0] == '#' || t[0] == '{' || t[0] == '['
}

/// One step of the scan: fold a line into the stack and pointer map.
pub open spec fn spec_step(
    stack: Seq<(nat, Seq<char>)>,
    m: Map<Seq<char>, SourceSpan>,
    l: Seq<char>,
    lineno: int,
) -> (Seq<(nat, Seq<char>)>, Map<Seq<char>, SourceSpan>) {
    let t = spec_trim(l);
    if spec_skip_line(t) {
        (stack, m)
    } else {
        let indent = spec_indent(l);
        match spec_key_of(t) {
            None => (stack, m),
            Some((key, off)) => {
                let stack2 = spec_pop(stack, indent).push((indent, key));
                let ptr = spec_pointer(stack2);
                (
                    stack2,
                    m.insert(
                        ptr,
                        SourceSpan { line: lineno as usize, col: (indent + off) as usize },
                    ),
                )
            },
        }
    }
}

/// The scan state after the first `i` lines.
pub open spec fn spec_index_fold(lines: Seq<Seq<char>>, i: int) -> (
    Seq<(nat, Seq<char>)>,
    Map<Seq<char>, SourceSpan>,
)
    decreases i,
{
    if i <= 0 {
        (Seq::empty(), Map::empty())
    } else {
        let prev = spec_index_fold(lines, i - 1);
        spec_step(prev.0, prev.1, lines[i - 1], i)
    }
}

/// The pointer map of a spec source.
pub open spec fn spec_spec_index(s: Seq<char>) -> Map<Seq<char>, SourceSpan> {
    spec_index_fold(spec_lines(s), spec_lines(s).len() as int).1
}

/// Every pointer the scan produces starts with `/`.
pub proof fn lemma_index_keys_start_slash(lines: Seq<Seq<char>>, i: int)
    ensures
        forall|p: Seq<char>|
            #[trigger] spec_index_fold(lines, i).1.contains_key(p) ==> p.len() >= 1 && p[0]
                == '/',
    decreases i,
{
    if i > 0 {
        lemma_index_keys_start_slash(lines, i - 1);
        let prev = spec_index_fold(lines, i - 1);
        let t = spec_trim(lines[i - 1]);
        let cur = spec_index_fold(lines, i).1;
        if !spec_skip_line(t) {
            match spec_key_of(t) {
                None => {
                    assert(cur == prev.1);
                },
                Some((key, off)) => {
                    let stack2 = spec_pop(prev.0, spec_indent(lines[i - 1])).push(
                        (spec_indent(lines[i - 1]), key),
                    );
                    lemma_pointer_starts_slash(stack2);
                    let ptr = spec_pointer(stack2);
                    assert(cur == prev.1.insert(
                        ptr,
                        SourceSpan {
                            line: i as usize,
                            col: (spec_indent(lines[i - 1]) + off) as usize,
                        },
                    ));
                    assert forall|p: Seq<char>| #[trigger] cur.contains_key(p) implies p.len()
                        >= 1 && p[0] == '/' by {
                        if p == ptr {
                            assert(spec_pointer(stack2).len() >= 1);
                            assert(p.len() >= 1);
                        } else {
                            assert(prev.1.contains_key(p));
                            assert(spec_index_fold(lines, i - 1).1.contains_key(p));
                            assert(p.len() >= 1);
                        }
                    }
                },
            }
        } else {
            assert(cur == prev.1);
        }
    }
}

// ── The index itself ─────────────────────────────────────────────────

/// Index mapping JSON Pointers to source locations, plus the raw source
/// lines. Later entries for the same pointer shadow earlier ones.
#[derive(Debug)]
pub struct SpecIndex {
    spans: Vec<(String, SourceSpan)>,
    raw_lines: Vec<String>,
}

/// The map a sequence of `(pointer, span)` entries denotes: each entry
/// inserted in order, so the last one for a pointer wins.
pub open spec fn spec_entries_map(entries: Seq<(Seq<char>, SourceSpan)>) -> Map<
    Seq<char>,
    SourceSpan,
>
    decreases entries.len(),
{
    if entries.len() == 0 {
        Map::empty()
    } else {
        spec_entries_map(entries.drop_last()).insert(entries.last().0, entries.last().1)
    }
}

pub open spec fn entry_views(entries: Seq<(String, SourceSpan)>) -> Seq<(Seq<char>, SourceSpan)> {
    entries.map_values(|p: (String, SourceSpan)| (p.0@, p.1))
}

proof fn lemma_entries_map_found(entries: Seq<(Seq<char>, SourceSpan)>, j: int)
    requires
        0 <= j < entries.len(),
        forall|k: int| j < k < entries.len() ==> entries[k].0 != entries[j].0,
    ensures
        spec_entries_map(entries).contains_key(entries[j].0),
        spec_entries_map(entries)[entries[j].0] == entries[j].1,
    decreases entries.len(),
{
    if j == entries.len() - 1 {
    } else {
        let d = entries.drop_last();
        lemma_entries_map_found(d, j);
        assert(entries.last().0 != entries[j].0);
    }
}

proof fn lemma_entries_map_not_found(entries: Seq<(Seq<char>, SourceSpan)>, key: Seq<char>)
    requires
        forall|k: int| 0 <= k < entries.len() ==> entries[k].0 != key,
    ensures
        !spec_entries_map(entries).contains_key(key),
    decreases entries.len(),
{
    if entries.len() > 0 {
        lemma_entries_map_not_found(entries.drop_last(), key);
    }
}

impl SpecIndex {
    /// The pointer map this index holds.
    pub closed spec fn spans_map(&self) -> Map<Seq<char>, SourceSpan> {
        spec_entries_map(entry_views(self.spans@))
    }

    /// The verbatim source lines this index holds.
    pub closed spec fn lines_view(&self) -> Seq<Seq<char>> {
        self.raw_lines.deep_view()
    }

    pub fn new(spans: Vec<(String, SourceSpan)>, raw_lines: Vec<String>) -> (r: Self)
        ensures
            r.spans_map() == spec_entries_map(entry_views(spans@)),
            r.lines_view() == raw_lines.deep_view(),
    {
        SpecIndex { spans, raw_lines }
    }

    /// Look up a JSON Pointer or dotted path and return its source
    /// location; the path is normalized to pointer form first.
    pub fn resolve(&self, path: &str) -> (r: Option<SourceSpan>)
        ensures
            r == spec_resolve(self.spans_map(), path@),
    {
        let pointer = normalize_to_pointer(path);
        let ghost key = spec_normalize(path@);
        let mut i: usize = self.spans.len();
        while i > 0
            invariant
                i <= self.spans@.len(),
                key == pointer@,
                key == spec_normalize(path@),
                forall|k: int| i <= k < self.spans@.len() ==> self.spans@[k].0@ != key,
            decreases i,
        {
            i = i - 1;
            if self.spans[i].0 == pointer {
                proof {
                    let ev = entry_views(self.spans@);
                    assert(forall|k: int|
                        0 <= k < ev.len() ==> #[trigger] ev[k] == (
                        self.spans@[k].0@,
                        self.spans@[k].1,
                        ));
                    assert(ev[i as int].0 == key);
                    assert(forall|k: int| i < k < ev.len() ==> ev[k].0 != ev[i as int].0);
                    lemma_entries_map_found(ev, i as int);
                    assert(self.spans_map().contains_key(key));
                    assert(self.spans_map()[key] == self.spans@[i as int].1);
                }
                return Some(self.spans[i].1);
            }
        }
        proof {
            let ev = entry_views(self.spans@);
            assert(forall|k: int|
                0 <= k < ev.len() ==> #[trigger] ev[k] == (self.spans@[k].0@, self.spans@[k].1));
            assert(forall|k: int| 0 <= k < ev.len() ==> ev[k].0 != key);
            lemma_entries_map_not_found(ev, key);
        }
        None
    }

    /// Extract a window of `radius` lines above and below the given
    /// 1-based line; out-of-range lines yield nothing.
    pub fn context_window(&self, line: usize, radius: usize) -> (r: Option<ContextWindow>)
        ensures
            match r {
                Some(w) => {
                    &&& 1 <= line <= self.lines_view().len()
                    &&& w.target_line == line
                    &&& w.start_line == if line > radius {
                        line - radius
                    } else {
                        1int
                    }
                    &&& w.lines.deep_view() == self.lines_view().subrange(
                        w.start_line - 1,
                        if self.lines_view().len() - line <= radius {
                            self.lines_view().len() as int
                        } else {
                            line + radius
                        },
                    )
                },
                None => line == 0 || line > self.lines_view().len(),
            },
    {
        let n: usize = self.raw_lines.len();
        if line == 0 || line > n {
            return None;
        }
        let start: usize = if line > radius {
            line - radius
        } else {
            1
        };
        let end: usize = if n - line <= radius {
            n
        } else {
            line + radius
        };
        let mut lines: Vec<String> = Vec::new();
        let mut i: usize = start - 1;
        while i < end
            invariant
                start >= 1,
                start - 1 <= i <= end <= self.raw_lines@.len(),
                lines@.len() == i - (start - 1),
                forall|k: int|
                    0 <= k < lines@.len() ==> lines@[k]@ == self.raw_lines@[start - 1 + k]@,
            decreases end - i,
        {
            lines.push(self.raw_lines[i].clone());
            i = i + 1;
        }
        proof {
            assert forall|k: int| 0 <= k < lines@.len() implies lines.deep_view()[k]
                == self.lines_view().subrange(start - 1, end as int)[k] by {
                assert(lines.deep_view()[k] == lines@[k]@);
                assert(self.lines_view().subrange(start - 1, end as int)[k]
                    == self.raw_lines@[start - 1 + k]@);
            }
            assert(lines.deep_view() =~= self.lines_view().subrange(start - 1, end as int));
        }
        Some(ContextWindow { start_line: start, lines, target_line: line })
    }

    pub fn line_count(&self) -> (r: usize)
        ensures
            r == self.lines_view().len(),
    {
        self.raw_lines.len()
    }

    pub fn lines(&self) -> (r: &Vec<String>)
        ensures
            r.deep_view() == self.lines_view(),
    {
        &self.raw_lines
    }
}

/// Where a path resolves in a pointer map, after normalization.
pub open spec fn spec_resolve(m: Map<Seq<char>, SourceSpan>, p: Seq<char>) -> Option<SourceSpan> {
    if m.contains_key(spec_normalize(p)) {
        Some(m[spec_normalize(p)])
    } else {
        None
    }
}

/// Resolution is total on the pointers the indexer itself produces: a key
/// of the index map always resolves, to its own span.
pub proof fn lemma_resolve_total_on_own_pointers(s: Seq<char>, p: Seq<char>)
    requires
        spec_spec_index(s).contains_key(p),
    ensures
        spec_resolve(spec_spec_index(s), p) == Some(spec_spec_index(s)[p]),
{
    lemma_index_keys_start_slash(spec_lines(s), spec_lines(s).len() as int);
    assert(p.len() >= 1 && p[0] == '/');
    assert(spec_normalize(p) == p);
}

// ── Path normalization ───────────────────────────────────────────────

/// Split on a separator; unlike line splitting, a trailing separator opens
/// an empty final segment, and the empty input is one empty segment.
pub open spec fn spec_split_sep(s: Seq<char>, sep: char) -> Seq<Seq<char>>
    decreases s.len(),
{
    if s.len() == 0 {
        seq![Seq::<char>::empty()]
    } else if s[0] == sep {
        seq![Seq::<char>::empty()] + spec_split_sep(s.drop_first(), sep)
    } else {
        let rest = spec_split_sep(s.drop_first(), sep);
        seq![seq![s[0]] + rest[0]] + rest.drop_first()
    }
}

/// The pointer piece one dotted segment contributes: bracket groups
/// `[n]` become separate unescaped reference tokens, everything else is
/// escaped; an unmatched `[` keeps the remainder literally.
pub open spec fn spec_segment_pointer(rest: Seq<char>) -> Seq<char>
    decreases rest.len(),
    via spec_segment_pointer_decreases
{
    if rest.len() == 0 {
        Seq::empty()
    } else {
        let bs = spec_index_of(rest, '[');
        if bs < 0 {
            seq!['/'] + spec_escape(rest)
        } else {
            let prefix = if bs > 0 {
                seq!['/'] + spec_escape(rest.take(bs))
            } else {
                Seq::<char>::empty()
            };
            let rel = spec_index_of(rest.skip(bs), ']');
            if rel < 0 {
                prefix + seq!['/'] + spec_escape(rest)
            } else {
                prefix + seq!['/'] + rest.subrange(bs + 1, bs + rel) + spec_segment_pointer(
                    rest.skip(bs + rel + 1),
                )
            }
        }
    }
}

#[via_fn]
proof fn spec_segment_pointer_decreases(rest: Seq<char>) {
    if rest.len() > 0 {
        lemma_index_of_props(rest, '[');
        let bs = spec_index_of(rest, '[');
        if bs >= 0 {
            assert(rest.contains('[')) by {
                if !rest.contains('[') {
                    assert(spec_index_of(rest, '[') == -1);
                }
            }
            assert(0 <= bs < rest.len());
            lemma_index_of_props(rest.skip(bs), ']');
            let rel = spec_index_of(rest.skip(bs), ']');
            if rel >= 0 {
                assert(rest.skip(bs).contains(']')) by {
                    if !rest.skip(bs).contains(']') {
                        assert(spec_index_of(rest.skip(bs), ']') == -1);
                    }
                }
                assert(0 <= rel < rest.skip(bs).len());
                assert(rest.skip(bs + rel + 1).len() < rest.len());
            }
        }
    }
}

/// The normalized pointer of a dotted path: each segment's contribution,
/// concatenated.
pub open spec fn spec_norm_segments(segs: Seq<Seq<char>>) -> Seq<char>
    decreases segs.len(),
{
    if segs.len() == 0 {
        Seq::empty()
    } else {
        spec_norm_segments(segs.drop_last()) + spec_segment_pointer(segs.last())
    }
}

/// Normalize a path to JSON Pointer form: pointer-form input (leading
/// `/`) and the empty path pass through; dotted paths are split on `.`,
/// bracket indices are expanded, and segments are escaped.
pub open spec fn spec_normalize(p: Seq<char>) -> Seq<char> {
    if p.len() == 0 || p[0] == '/' {
        p
    } else {
        spec_norm_segments(spec_split_sep(p, '.'))
    }
}

/// One dotted segment's pointer contribution.
fn segment_pointer(seg: &Vec<char>) -> (r: Vec<char>)
    ensures
        r@ == spec_segment_pointer(seg@),
    decreases seg@.len(),
{
    let n: usize = seg.len();
    if n == 0 {
        return Vec::new();
    }
    proof {
        lemma_index_of_props(seg@, '[');
    }
    let mut out: Vec<char> = Vec::new();
    match index_of_char(seg, '[') {
        None => {
            out.push('/');
            let mut esc = escape_chars(seg);
            crate::text::append_chars(&mut out, &esc);
            proof {
                assert(out@ =~= seq!['/'] + spec_escape(seg@));
            }
            out
        },
        Some(bs) => {
            proof {
                assert(spec_index_of(seg@, '[') == bs as int);
            }
            if bs > 0 {
                let before = subrange_chars(seg, 0, bs);
                proof {
                    assert(before@ =~= seg@.take(bs as int));
                }
                out.push('/');
                let esc = escape_chars(&before);
                crate::text::append_chars(&mut out, &esc);
                proof {
                    assert(out@ =~= seq!['/'] + spec_escape(seg@.take(bs as int)));
                }
            }
            let ghost prefix = out@;
            let tail = subrange_chars(seg, bs, n);
            proof {
                assert(tail@ =~= seg@.skip(bs as int));
                lemma_index_of_props(tail@, ']');
            }
            match index_of_char(&tail, ']') {
                None => {
                    out.push('/');
                    let esc = escape_chars(seg);
                    crate::text::append_chars(&mut out, &esc);
                    proof {
                        assert(out@ =~= prefix + seq!['/'] + spec_escape(seg@));
                    }
                    out
                },
                Some(rel) => {
                    proof {
                        assert(spec_index_of(seg@.skip(bs as int), ']') == rel as int);
                        assert(tail@[rel as int] == ']');
                        assert(tail@[0] == '[');
                        assert(rel > 0);
                    }
                    let end = bs + rel;
                    let index_part = subrange_chars(seg, bs + 1, end);
                    out.push('/');
                    crate::text::append_chars(&mut out, &index_part);
                    let remainder = subrange_chars(seg, end + 1, n);
                    proof {
                        assert(remainder@ =~= seg@.skip(end + 1));
                    }
                    let rest_pointer = segment_pointer(&remainder);
                    crate::text::append_chars(&mut out, &rest_pointer);
                    proof {
                        assert(out@ =~= prefix + seq!['/'] + seg@.subrange(bs + 1, end as int)
                            + spec_segment_pointer(seg@.skip(end + 1)));
                    }
                    out
                },
            }
        },
    }
}

/// Normalize a path (JSON Pointer or dotted) to a JSON Pointer.
pub fn normalize_to_pointer(path: &str) -> (r: String)
    ensures
        r@ == spec_normalize(path@),
{
    let chars = str_to_chars(path);
    let n: usize = chars.len();
    if n == 0 || chars[0] == '/' {
        return chars_to_string(&chars);
    }
    // Split the path on '.' into segments, a trailing dot opening an
    // empty final segment.
    let mut segs: Vec<Vec<char>> = Vec::new();
    let mut cur: Vec<char> = Vec::new();
    let mut i: usize = 0;
    proof {
        assert(cur@ + chars@.skip(0) =~= chars@);
    }
    while i < n
        invariant
            i <= n,
            n == chars@.len(),
            forall|k: int| 0 <= k < cur@.len() ==> cur@[k] != '.',
            spec_split_sep(chars@, '.') =~= segs.deep_view() + spec_split_sep(
                cur@ + chars@.skip(i as int),
                '.',
            ),
        decreases n - i,
    {
        let c = chars[i];
        let ghost pre_segs = segs.deep_view();
        let ghost pre_cur = cur@;
        if c == '.' {
            let seg = cur;
            cur = Vec::new();
            segs.push(seg);
            proof {
                assert(!pre_cur.contains('.')) by {
                    if pre_cur.contains('.') {
                        let w = choose|w: int| 0 <= w < pre_cur.len() && pre_cur[w] == '.';
                    }
                }
                lemma_split_prefix(pre_cur, '.', chars@.skip(i + 1));
                assert(pre_cur + chars@.skip(i as int) =~= pre_cur + seq!['.'] + chars@.skip(
                    i + 1,
                ));
                assert(segs.deep_view() =~~= pre_segs.push(pre_cur));
                assert(cur@ + chars@.skip(i + 1) =~= chars@.skip(i + 1));
            }
        } else {
            cur.push(c);
            proof {
                assert(pre_cur + chars@.skip(i as int) =~= cur@ + chars@.skip(i + 1));
            }
        }
        i = i + 1;
    }
    proof {
        assert(cur@ + chars@.skip(n as int) =~= cur@);
    }
    let ghost pre_segs = segs.deep_view();
    let ghost last_seg = cur@;
    segs.push(cur);
    proof {
        assert(!last_seg.contains('.')) by {
            if last_seg.contains('.') {
                let w = choose|w: int| 0 <= w < last_seg.len() && last_seg[w] == '.';
            }
        }
        lemma_split_single(last_seg, '.');
        assert(segs.deep_view() =~~= pre_segs.push(last_seg));
        assert(spec_split_sep(chars@, '.') =~= segs.deep_view());
    }
    // Concatenate each segment's pointer contribution.
    let mut out: Vec<char> = Vec::new();
    let mut k: usize = 0;
    proof {
        assert(segs.deep_view().take(0) =~= Seq::<Seq<char>>::empty());
    }
    while k < segs.len()
        invariant
            k <= segs@.len(),
            segs.deep_view().len() == segs@.len(),
            forall|j: int| 0 <= j < segs@.len() ==> segs.deep_view()[j] == #[trigger] segs@[j]@,
            out@ == spec_norm_segments(segs.deep_view().take(k as int)),
        decreases segs@.len() - k,
    {
        let piece = segment_pointer(&segs[k]);
        crate::text::append_chars(&mut out, &piece);
        proof {
            let sv = segs.deep_view();
            assert(sv.take(k + 1).drop_last() =~= sv.take(k as int));
            assert(sv.take(k + 1).last() == sv[k as int]);
            assert(out@ =~= spec_norm_segments(sv.take(k + 1)));
        }
        k = k + 1;
    }
    proof {
        assert(segs.deep_view().take(segs@.len() as int) =~= segs.deep_view());
        assert(out@ == spec_normalize(path@));
    }
    chars_to_string(&out)
}

proof fn lemma_split_prefix(seg: Seq<char>, sep: char, rest: Seq<char>)
    requires
        !seg.contains(sep),
    ensures
        spec_split_sep(seg + seq![sep] + rest, sep) == seq![seg] + spec_split_sep(rest, sep),
    decreases seg.len(),
{
    let text = seg + seq![sep] + rest;
    if seg.len() == 0 {
        assert(text =~= seq![sep] + rest);
        assert(text[0] == sep);
        assert(text.drop_first() =~= rest);
        assert(seg =~= Seq::<char>::empty());
    } else {
        assert(text[0] == seg[0]);
        assert(seg[0] != sep);
        assert(!seg.drop_first().contains(sep)) by {
            if seg.drop_first().contains(sep) {
                let w = choose|w: int|
                    0 <= w < seg.drop_first().len() && seg.drop_first()[w] == sep;
                assert(seg[w + 1] == sep);
            }
        }
        lemma_split_prefix(seg.drop_first(), sep, rest);
        assert(text.drop_first() =~= seg.drop_first() + seq![sep] + rest);
        let sub = spec_split_sep(text.drop_first(), sep);
        assert(sub == seq![seg.drop_first()] + spec_split_sep(rest, sep));
        assert(sub[0] == seg.drop_first());
        assert(spec_split_sep(text, sep) == seq![seq![text[0]] + sub[0]] + sub.drop_first());
        assert(seq![text[0]] + seg.drop_first() =~= seg);
        assert(sub.drop_first() =~= spec_split_sep(rest, sep));
        assert(spec_split_sep(text, sep) =~= seq![seg] + spec_split_sep(rest, sep));
    }
}

proof fn lemma_split_single(seg: Seq<char>, sep: char)
    requires
        !seg.contains(sep),
    ensures
        spec_split_sep(seg, sep) == seq![seg],
    decreases seg.len(),
{
    if seg.len() == 0 {
        assert(seg =~= Seq::<char>::empty());
        assert(spec_split_sep(seg, sep) =~= seq![seg]);
    } else {
        assert(seg[0] != sep);
        assert(!seg.drop_first().contains(sep)) by {
            if seg.drop_first().contains(sep) {
                let w = choose|w: int|
                    0 <= w < seg.drop_first().len() && seg.drop_first()[w] == sep;
                assert(seg[w + 1] == sep);
            }
        }
        lemma_split_single(seg.drop_first(), sep);
        let rest = spec_split_sep(seg.drop_first(), sep);
        assert(rest[0] == seg.drop_first());
        assert(spec_split_sep(seg, sep) == seq![seq![seg[0]] + rest[0]] + rest.drop_first());
        assert(seq![seg[0]] + seg.drop_first() =~= seg);
        assert(rest.drop_first() =~= Seq::<Seq<char>>::empty());
        assert(spec_split_sep(seg, sep) =~= seq![seg]);
    }
}

// ── Parsing a spec source ────────────────────────────────────────────

/// The stack a vector of `(indent, key)` frames denotes.
pub open spec fn stack_views(stack: Seq<(usize, Vec<char>)>) -> Seq<(nat, Seq<char>)> {
    stack.map_values(|f: (usize, Vec<char>)| (f.0 as nat, f.1@))
}

proof fn lemma_indent_is_count(l: Seq<char>, i: int)
    requires
        0 <= i <= l.len(),
        forall|k: int| 0 <= k < i ==> is_indent_char(l[k]),
        i < l.len() ==> !is_indent_char(l[i]),
    ensures
        spec_indent(l) == i,
    decreases i,
{
    if i == 0 {
    } else {
        let d = l.drop_first();
        assert(forall|k: int| 0 <= k < i - 1 ==> d[k] == l[k + 1] && is_indent_char(d[k]));
        assert(i - 1 < d.len() ==> d[i - 1] == l[i]);
        lemma_indent_is_count(d, i - 1);
    }
}

/// Count the leading indentation characters of a line.
fn indent_of(v: &Vec<char>) -> (r: usize)
    ensures
        r == spec_indent(v@),
        r <= v@.len(),
{
    let mut i: usize = 0;
    while i < v.len() && (v[i] == ' ' || v[i] == '\t')
        invariant
            i <= v@.len(),
            forall|k: int| 0 <= k < i ==> is_indent_char(v@[k]),
        decreases v@.len() - i,
    {
        i = i + 1;
    }
    proof {
        lemma_indent_is_count(v@, i as int);
    }
    i
}

proof fn lemma_trim_start_len(l: Seq<char>)
    ensures
        crate::text::spec_trim_start(l).len() <= l.len(),
    decreases l.len(),
{
    if l.len() > 0 && is_ws(l[0]) {
        lemma_trim_start_len(l.drop_first());
    }
}

proof fn lemma_trim_end_len(l: Seq<char>)
    ensures
        crate::text::spec_trim_end(l).len() <= l.len(),
    decreases l.len(),
{
    if l.len() > 0 && is_ws(l.last()) {
        lemma_trim_end_len(l.drop_last());
    }
}

/// Indentation and the trimmed line together never exceed the line.
proof fn lemma_indent_plus_trim(l: Seq<char>)
    ensures
        spec_indent(l) + spec_trim(l).len() <= l.len(),
    decreases l.len(),
{
    lemma_trim_end_len(spec_trim_start(l));
    if l.len() > 0 && is_ws(l[0]) {
        lemma_indent_plus_trim(l.drop_first());
        if is_indent_char(l[0]) {
        } else {
            lemma_trim_start_len(l.drop_first());
        }
    }
}

/// Assemble the JSON Pointer a key stack denotes.
pub fn build_json_pointer(stack: &Vec<(usize, Vec<char>)>) -> (r: Vec<char>)
    ensures
        r@ == spec_pointer(stack_views(stack@)),
{
    let mut out: Vec<char> = Vec::new();
    let mut i: usize = 0;
    proof {
        assert(stack_views(stack@).take(0) =~= Seq::<(nat, Seq<char>)>::empty());
    }
    while i < stack.len()
        invariant
            i <= stack@.len(),
            out@ == spec_pointer(stack_views(stack@).take(i as int)),
        decreases stack@.len() - i,
    {
        let ghost sv = stack_views(stack@);
        out.push('/');
        let esc = escape_chars(&stack[i].1);
        crate::text::append_chars(&mut out, &esc);
        proof {
            assert(sv.take(i + 1).drop_last() =~= sv.take(i as int));
            assert(sv.take(i + 1).last() == sv[i as int]);
            assert(sv[i as int].1 == stack@[i as int].1@);
            assert(out@ =~= spec_pointer(sv.take(i as int)) + seq!['/'] + spec_escape(
                sv[i as int].1,
            ));
        }
        i = i + 1;
    }
    proof {
        assert(stack_views(stack@).take(stack@.len() as int) =~= stack_views(stack@));
    }
    out
}

/// Parse a raw spec source (YAML or prettified JSON) and build a
/// `SpecIndex` mapping JSON Pointers to source locations.
pub fn parse_spec(raw: &str) -> (r: SpecIndex)
    ensures
        r.spans_map() == spec_spec_index(raw@),
        r.lines_view() == spec_lines(raw@),
{
    let lines = split_lines(raw);
    let ghost lv = lines.deep_view();
    let mut entries: Vec<(String, SourceSpan)> = Vec::new();
    let mut stack: Vec<(usize, Vec<char>)> = Vec::new();
    let mut i: usize = 0;
    proof {
        assert(stack_views(stack@) =~= spec_index_fold(lv, 0).0);
        assert(spec_entries_map(entry_views(entries@)) =~= spec_index_fold(lv, 0).1);
    }
    while i < lines.len()
        invariant
            i <= lines@.len(),
            lv == lines.deep_view(),
            lv == spec_lines(raw@),
            lines@.len() == lv.len(),
            forall|k: int| 0 <= k < lv.len() ==> lv[k] == #[trigger] lines@[k]@,
            stack_views(stack@) == spec_index_fold(lv, i as int).0,
            spec_entries_map(entry_views(entries@)) == spec_index_fold(lv, i as int).1,
        decreases lines@.len() - i,
    {
        let ghost prev_fold = spec_index_fold(lv, i as int);
        let chars = str_to_chars(lines[i].as_str());
        let t = trim_chars(&chars);
        proof {
            assert(chars@ == lv[i as int]);
            assert(spec_index_fold(lv, i + 1) == spec_step(
                prev_fold.0,
                prev_fold.1,
                lv[i as int],
                i + 1,
            ));
        }
        if t.len() == 0 || t[0] == '#' || t[0] == '{' || t[0] == '[' {
            proof {
                assert(spec_skip_line(spec_trim(chars@)));
                assert(spec_index_fold(lv, i + 1) == prev_fold);
            }
        } else {
            let indent = indent_of(&chars);
            match extract_yaml_key(&t) {
                None => {
                    proof {
                        assert(!spec_skip_line(spec_trim(chars@)));
                        assert(spec_key_of(spec_trim(chars@)) is None);
                        assert(spec_index_fold(lv, i + 1) == prev_fold);
                    }
                },
                Some((key, off)) => {
                    let ghost orig_views = stack_views(stack@);
                    while stack.len() > 0 && stack[stack.len() - 1].0 >= indent
                        invariant
                            spec_pop(stack_views(stack@), indent as nat) == spec_pop(
                                orig_views,
                                indent as nat,
                            ),
                        decreases stack@.len(),
                    {
                        let ghost before = stack_views(stack@);
                        stack.pop();
                        proof {
                            assert(stack_views(stack@) =~= before.drop_last());
                            assert(before.last().0 >= indent as nat);
                        }
                    }
                    proof {
                        assert(spec_pop(stack_views(stack@), indent as nat) == stack_views(
                            stack@,
                        ));
                    }
                    let ghost popped = stack_views(stack@);
                    stack.push((indent, key));
                    proof {
                        assert(stack_views(stack@) =~= popped.push(
                            (indent as nat, stack@.last().1@),
                        ));
                    }
                    let pointer = build_json_pointer(&stack);
                    proof {
                        lemma_indent_plus_trim(chars@);
                        if off == 2 {
                            assert(spec_trim(chars@).len() >= 2);
                        }
                        assert(indent + off <= chars@.len());
                    }
                    let col: usize = indent + off;
                    let ghost pre_entries = entry_views(entries@);
                    entries.push((chars_to_string(&pointer), SourceSpan { line: i + 1, col }));
                    proof {
                        assert(entry_views(entries@) =~= pre_entries.push(
                            (pointer@, SourceSpan { line: (i + 1) as usize, col }),
                        ));
                        assert(entry_views(entries@).drop_last() =~= pre_entries);
                        let next_fold = spec_index_fold(lv, i + 1);
                        assert(next_fold.0 =~= stack_views(stack@));
                        assert(spec_entries_map(entry_views(entries@)) == prev_fold.1.insert(
                            pointer@,
                            SourceSpan { line: (i + 1) as usize, col },
                        ));
                        assert(spec_entries_map(entry_views(entries@)) == next_fold.1);
                    }
                },
            }
        }
        i = i + 1;
    }
    proof {
        assert(spec_lines(raw@).len() == lv.len());
    }
    SpecIndex::new(entries, lines)
}

} // verus!
