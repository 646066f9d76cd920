//! Diffs of generated output: compare a directory snapshot taken before
//! a run against one taken after, producing per-file line diffs, plus
//! the navigation state of the diff view.
//!
//! Snapshots are association lists from relative path to file text; the
//! walking and reading happen outside the library.

use vstd::prelude::*;

use crate::text::{spec_lines, split_lines, string_pair_views};

verus! {

/// How a file changed between the two snapshots.
#[derive(Debug, Clone, Copy, PartialEq, Eq, Structural)]
pub enum ChangeKind {
    Added,
    Modified,
    Deleted,
}

/// One rendered diff line.
#[derive(Debug, Clone, PartialEq, Eq)]
pub enum DiffLine {
    Context(String),
    Insert(String),
    Delete(String),
    HunkHeader(String),
}

/// The diff of one file.
#[derive(Debug, Clone, PartialEq, Eq)]
pub struct FileDiff {
    pub rel_path: String,
    pub kind: ChangeKind,
    pub lines: Vec<DiffLine>,
}

/// The diffs of one generator's output directory.
#[derive(Debug, Clone, PartialEq, Eq)]
pub struct GeneratorDiff {
    pub generator: String,
    pub scope: String,
    pub files: Vec<FileDiff>,
}

/// Which sub-panel has focus within the diff view.
#[derive(Debug, Clone, Copy, PartialEq, Eq, Structural)]
pub enum DiffPanel {
    FileList,
    DiffContent,
}

// ── The association-list view of a snapshot ──────────────────────────

/// The first text stored under a path, if any.
pub open spec fn spec_snapshot_get(snap: Seq<(Seq<char>, Seq<char>)>, path: Seq<char>) -> Option<
    Seq<char>,
> {
    crate::config::spec_override_for(snap, path)
}

/// Look up a path in a snapshot.
fn snapshot_get<'a>(snap: &'a Vec<(String, String)>, path: &String) -> (r: Option<&'a String>)
    ensures
        match r {
            Some(text) => spec_snapshot_get(string_pair_views(snap@), path@) == Some(text@),
            None => spec_snapshot_get(string_pair_views(snap@), path@) is None,
        },
{
    let ghost sv = string_pair_views(snap@);
    let mut i: usize = 0;
    proof {
        assert(sv.skip(0) =~= sv);
    }
    while i < snap.len()
        invariant
            i <= snap@.len(),
            sv == string_pair_views(snap@),
            sv.len() == snap@.len(),
            forall|k: int|
                0 <= k < sv.len() ==> #[trigger] sv[k] == (snap@[k].0@, snap@[k].1@),
            crate::config::spec_override_for(sv, path@) == crate::config::spec_override_for(
                sv.skip(i as int),
                path@,
            ),
        decreases snap@.len() - i,
    {
        if snap[i].0 == *path {
            proof {
                assert(sv.skip(i as int)[0] == sv[i as int]);
            }
            return Some(&snap[i].1);
        }
        proof {
            assert(sv.skip(i as int)[0] == sv[i as int]);
            assert(sv.skip(i as int).drop_first() =~= sv.skip(i + 1));
        }
        i = i + 1;
    }
    proof {
        assert(sv.skip(sv.len() as int) =~= Seq::<(Seq<char>, Seq<char>)>::empty());
    }
    None
}

// ── Rendering one file's diff ────────────────────────────────────────

/// The lines of a whole-file addition: a header, then every line as an
/// insertion.
pub open spec fn add_lines_match(lines: Seq<DiffLine>, content: Seq<char>) -> bool {
    &&& lines.len() == 1 + spec_lines(content).len()
    &&& lines[0] matches DiffLine::HunkHeader(h) && h@ == "@@ new file @@"@
    &&& forall|k: int|
        0 <= k < spec_lines(content).len() ==> (match #[trigger] lines[k + 1] {
            DiffLine::Insert(l) => l@ == spec_lines(content)[k],
            _ => false,
        })
}

/// The lines of a whole-file deletion: a header, then every line as a
/// deletion.
pub open spec fn delete_lines_match(lines: Seq<DiffLine>, content: Seq<char>) -> bool {
    &&& lines.len() == 1 + spec_lines(content).len()
    &&& lines[0] matches DiffLine::HunkHeader(h) && h@ == "@@ deleted file @@"@
    &&& forall|k: int|
        0 <= k < spec_lines(content).len() ==> (match #[trigger] lines[k + 1] {
            DiffLine::Delete(l) => l@ == spec_lines(content)[k],
            _ => false,
        })
}

/// Render a newly added file.
pub fn make_add_lines(content: &str) -> (r: Vec<DiffLine>)
    ensures
        add_lines_match(r@, content@),
{
    let mut lines: Vec<DiffLine> = Vec::new();
    lines.push(DiffLine::HunkHeader(String::from_str("@@ new file @@")));
    let text_lines = split_lines(content);
    let mut i: usize = 0;
    while i < text_lines.len()
        invariant
            i <= text_lines@.len(),
            text_lines.deep_view() == spec_lines(content@),
            text_lines@.len() == spec_lines(content@).len(),
            forall|k: int|
                0 <= k < text_lines@.len() ==> #[trigger] text_lines@[k]@ == spec_lines(
                    content@,
                )[k],
            lines@.len() == i + 1,
            lines@[0] matches DiffLine::HunkHeader(h) && h@ == "@@ new file @@"@,
            forall|k: int|
                0 <= k < i ==> (match #[trigger] lines@[k + 1] {
                    DiffLine::Insert(l) => l@ == spec_lines(content@)[k],
                    _ => false,
                }),
        decreases text_lines@.len() - i,
    {
        lines.push(DiffLine::Insert(text_lines[i].clone()));
        i = i + 1;
    }
    lines
}

/// Render a deleted file.
pub fn make_delete_lines(content: &str) -> (r: Vec<DiffLine>)
    ensures
        delete_lines_match(r@, content@),
{
    let mut lines: Vec<DiffLine> = Vec::new();
    lines.push(DiffLine::HunkHeader(String::from_str("@@ deleted file @@")));
    let text_lines = split_lines(content);
    let mut i: usize = 0;
    while i < text_lines.len()
        invariant
            i <= text_lines@.len(),
            text_lines.deep_view() == spec_lines(content@),
            text_lines@.len() == spec_lines(content@).len(),
            forall|k: int|
                0 <= k < text_lines@.len() ==> #[trigger] text_lines@[k]@ == spec_lines(
                    content@,
                )[k],
            lines@.len() == i + 1,
            lines@[0] matches DiffLine::HunkHeader(h) && h@ == "@@ deleted file @@"@,
            forall|k: int|
                0 <= k < i ==> (match #[trigger] lines@[k + 1] {
                    DiffLine::Delete(l) => l@ == spec_lines(content@)[k],
                    _ => false,
                }),
        decreases text_lines@.len() - i,
    {
        lines.push(DiffLine::Delete(text_lines[i].clone()));
        i = i + 1;
    }
    lines
}

/// What the unified diff of two texts holds, line by line: a tag (0 a
/// hunk header, 1 a context line, 2 an insertion, 3 a deletion) and the
/// line's text, trailing newlines included. The diff depends on the two
/// texts alone.
pub uninterp spec fn spec_unified_diff(old: Seq<char>, new: Seq<char>) -> Seq<(u8, Seq<char>)>;

/// Relies on similar's `TextDiff`: the unified diff of the two texts,
/// grouped into hunks of three context lines, each line tagged with its
/// change kind; the result is a function of the two texts alone.
#[verifier::external_body]
fn unified_diff_raw(old: &str, new: &str) -> (r: Vec<(u8, String)>)
    ensures
        r@.len() == spec_unified_diff(old@, new@).len(),
        forall|i: int|
            0 <= i < r@.len() ==> (#[trigger] r@[i]).0 == spec_unified_diff(old@, new@)[i].0
                && r@[i].1@ == spec_unified_diff(old@, new@)[i].1,
{
    let text_diff = similar::TextDiff::from_lines(old, new);
    let mut out: Vec<(u8, String)> = Vec::new();
    for hunk in text_diff.unified_diff().context_radius(3).iter_hunks() {
        out.push((0u8, format!("{}", hunk.header())));
        for change in hunk.iter_changes() {
            let tag = match change.tag() {
                similar::ChangeTag::Equal => 1u8,
                similar::ChangeTag::Insert => 2u8,
                similar::ChangeTag::Delete => 3u8,
            };
            out.push((tag, change.value().to_string()));
        }
    }
    out
}

/// The text with trailing newlines removed.
pub open spec fn spec_strip_newlines(t: Seq<char>) -> Seq<char>
    decreases t.len(),
{
    if t.len() > 0 && t.last() == '\n' {
        spec_strip_newlines(t.drop_last())
    } else {
        t
    }
}

proof fn lemma_strip_newlines_is_take(t: Seq<char>, i: int)
    requires
        0 <= i <= t.len(),
        forall|k: int| i <= k < t.len() ==> t[k] == '\n',
        i > 0 ==> t[i - 1] != '\n',
    ensures
        spec_strip_newlines(t) == t.take(i),
    decreases t.len() - i,
{
    if i == t.len() as int {
        assert(t.take(i) =~= t);
    } else {
        let d = t.drop_last();
        assert(forall|k: int| i <= k < d.len() ==> d[k] == t[k] && d[k] == '\n');
        assert(i > 0 ==> d[i - 1] == t[i - 1]);
        lemma_strip_newlines_is_take(d, i);
        assert(d.take(i) =~= t.take(i));
    }
}

/// Strip trailing newlines from one diff line's text.
fn strip_newlines(s: &String) -> (r: String)
    ensures
        r@ == spec_strip_newlines(s@),
{
    let chars = crate::text::str_to_chars(s.as_str());
    let mut end: usize = chars.len();
    while end > 0 && chars[end - 1] == '\n'
        invariant
            end <= chars@.len(),
            forall|k: int| end <= k < chars@.len() ==> chars@[k] == '\n',
        decreases end,
    {
        end = end - 1;
    }
    proof {
        lemma_strip_newlines_is_take(chars@, end as int);
    }
    let cut = crate::text::subrange_chars(&chars, 0, end);
    proof {
        assert(cut@ =~= chars@.take(end as int));
    }
    crate::text::chars_to_string(&cut)
}

/// How the rendered lines of a modified file relate to the raw unified
/// diff: headers verbatim, changed lines with trailing newlines
/// stripped; an unknown tag reads as a context line.
pub open spec fn unified_lines_match(lines: Seq<DiffLine>, old: Seq<char>, new: Seq<char>)
    -> bool {
    let raw = spec_unified_diff(old, new);
    &&& lines.len() == raw.len()
    &&& forall|k: int|
        0 <= k < raw.len() ==> if raw[k].0 == 0 {
            lines[k] matches DiffLine::HunkHeader(h) && h@ == raw[k].1
        } else if raw[k].0 == 2 {
            lines[k] matches DiffLine::Insert(l) && l@ == spec_strip_newlines(raw[k].1)
        } else if raw[k].0 == 3 {
            lines[k] matches DiffLine::Delete(l) && l@ == spec_strip_newlines(raw[k].1)
        } else {
            lines[k] matches DiffLine::Context(l) && l@ == spec_strip_newlines(raw[k].1)
        }
}

/// Render a modified file as a unified diff.
fn make_unified_diff(old: &String, new: &String) -> (r: Vec<DiffLine>)
    ensures
        unified_lines_match(r@, old@, new@),
{
    let raw = unified_diff_raw(old.as_str(), new.as_str());
    let mut lines: Vec<DiffLine> = Vec::new();
    let mut i: usize = 0;
    while i < raw.len()
        invariant
            i <= raw@.len(),
            raw@.len() == spec_unified_diff(old@, new@).len(),
            forall|k: int|
                0 <= k < raw@.len() ==> (#[trigger] raw@[k]).0 == spec_unified_diff(
                    old@,
                    new@,
                )[k].0 && raw@[k].1@ == spec_unified_diff(old@, new@)[k].1,
            lines@.len() == i,
            forall|k: int|
                0 <= k < i ==> {
                    let raw_k = spec_unified_diff(old@, new@)[k];
                    if raw_k.0 == 0 {
                        (#[trigger] lines@[k]) matches DiffLine::HunkHeader(h) && h@ == raw_k.1
                    } else if raw_k.0 == 2 {
                        lines@[k] matches DiffLine::Insert(l) && l@ == spec_strip_newlines(
                            raw_k.1,
                        )
                    } else if raw_k.0 == 3 {
                        lines@[k] matches DiffLine::Delete(l) && l@ == spec_strip_newlines(
                            raw_k.1,
                        )
                    } else {
                        lines@[k] matches DiffLine::Context(l) && l@ == spec_strip_newlines(
                            raw_k.1,
                        )
                    }
                },
        decreases raw@.len() - i,
    {
        let tag = raw[i].0;
        if tag == 0 {
            lines.push(DiffLine::HunkHeader(raw[i].1.clone()));
        } else if tag == 2 {
            lines.push(DiffLine::Insert(strip_newlines(&raw[i].1)));
        } else if tag == 3 {
            lines.push(DiffLine::Delete(strip_newlines(&raw[i].1)));
        } else {
            lines.push(DiffLine::Context(strip_newlines(&raw[i].1)));
        }
        i = i + 1;
    }
    lines
}

// ── Comparing two snapshots ──────────────────────────────────────────

/// Whether one file diff correctly reflects the two snapshots.
pub open spec fn file_diff_valid(
    f: FileDiff,
    before: Seq<(Seq<char>, Seq<char>)>,
    after: Seq<(Seq<char>, Seq<char>)>,
) -> bool {
    match f.kind {
        ChangeKind::Deleted => {
            &&& spec_snapshot_get(before, f.rel_path@) matches Some(content)
                && delete_lines_match(f.lines@, content)
            &&& spec_snapshot_get(after, f.rel_path@) is None
        },
        ChangeKind::Added => {
            &&& spec_snapshot_get(after, f.rel_path@) matches Some(content)
                && add_lines_match(f.lines@, content)
            &&& spec_snapshot_get(before, f.rel_path@) is None
        },
        ChangeKind::Modified => {
            &&& spec_snapshot_get(before, f.rel_path@) matches Some(old)
                && spec_snapshot_get(after, f.rel_path@) matches Some(new) && old != new
                && unified_lines_match(f.lines@, old, new)
        },
    }
}

/// Lexicographic order on paths, by character code.
pub open spec fn spec_path_le(a: Seq<char>, b: Seq<char>) -> bool
    decreases a.len(),
{
    if a.len() == 0 {
        true
    } else if b.len() == 0 {
        false
    } else if a[0] != b[0] {
        a[0] < b[0]
    } else {
        spec_path_le(a.drop_first(), b.drop_first())
    }
}

proof fn lemma_path_le_total(a: Seq<char>, b: Seq<char>)
    ensures
        spec_path_le(a, b) || spec_path_le(b, a),
    decreases a.len(),
{
    if a.len() == 0 {
    } else if b.len() == 0 {
        assert(spec_path_le(b, a));
    } else if a[0] == b[0] {
        lemma_path_le_total(a.drop_first(), b.drop_first());
    } else {
    }
}

/// Whether the files are sorted by path.
pub open spec fn files_sorted(files: Seq<FileDiff>) -> bool {
    forall|k: int|
        0 <= k && k + 1 < files.len() ==> spec_path_le(
            (#[trigger] files[k]).rel_path@,
            files[k + 1].rel_path@,
        )
}

/// Compare two paths.
fn path_le(a: &String, b: &String) -> (r: bool)
    ensures
        r == spec_path_le(a@, b@),
{
    let ac = crate::text::str_to_chars(a.as_str());
    let bc = crate::text::str_to_chars(b.as_str());
    let mut i: usize = 0;
    proof {
        assert(a@.skip(0) =~= a@);
        assert(b@.skip(0) =~= b@);
    }
    while i < ac.len() && i < bc.len()
        invariant
            i <= ac@.len(),
            i <= bc@.len(),
            ac@ == a@,
            bc@ == b@,
            spec_path_le(a@, b@) == spec_path_le(a@.skip(i as int), b@.skip(i as int)),
        decreases ac@.len() - i,
    {
        let x = ac[i];
        let y = bc[i];
        if x != y {
            proof {
                assert(a@.skip(i as int)[0] == x);
                assert(b@.skip(i as int)[0] == y);
            }
            return x < y;
        }
        proof {
            assert(a@.skip(i as int)[0] == b@.skip(i as int)[0]);
            assert(a@.skip(i as int).drop_first() =~= a@.skip(i + 1));
            assert(b@.skip(i as int).drop_first() =~= b@.skip(i + 1));
        }
        i = i + 1;
    }
    proof {
        assert(a@.skip(i as int).len() == 0 || b@.skip(i as int).len() == 0);
    }
    ac.len() <= bc.len()
}

/// Insert a file diff at its sorted position: the result is the old
/// list with the new entry spliced in, still sorted.
#[verifier::rlimit(100)]
fn insert_sorted(files: &mut Vec<FileDiff>, f: FileDiff)
    requires
        files_sorted(old(files)@),
    ensures
        files_sorted(final(files)@),
        exists|p: int|
            0 <= p <= old(files)@.len() && final(files)@ == #[trigger] old(files)@.insert(
                p,
                f,
            ),
{
    let mut p: usize = 0;
    while p < files.len() && path_le(&files[p].rel_path, &f.rel_path)
        invariant
            p <= files@.len(),
            files@ == old(files)@,
            forall|k: int| 0 <= k < p ==> spec_path_le((#[trigger] files@[k]).rel_path@, f.rel_path@),
        decreases files@.len() - p,
    {
        p = p + 1;
    }
    proof {
        if p < files@.len() {
            lemma_path_le_total(files@[p as int].rel_path@, f.rel_path@);
        }
    }
    files.insert(p, f);
    proof {
        lemma_insert_keeps_sorted(old(files)@, p as int, f);
        assert(files@ == old(files)@.insert(p as int, f));
    }
}

#[verifier::rlimit(100)]
proof fn lemma_insert_keeps_sorted(pre: Seq<FileDiff>, p: int, f: FileDiff)
    requires
        files_sorted(pre),
        0 <= p <= pre.len(),
        forall|k: int| 0 <= k < p ==> spec_path_le((#[trigger] pre[k]).rel_path@, f.rel_path@),
        p < pre.len() ==> spec_path_le(f.rel_path@, pre[p].rel_path@),
    ensures
        files_sorted(pre.insert(p, f)),
{
    let new = pre.insert(p, f);
    assert(new =~= pre.subrange(0, p).push(f) + pre.subrange(p, pre.len() as int));
    assert(new.len() == pre.len() + 1);
    assert forall|k: int| 0 <= k && k + 1 < new.len() implies spec_path_le(
        (#[trigger] new[k]).rel_path@,
        new[k + 1].rel_path@,
    ) by {
        let a = pre.subrange(0, p);
        let b = pre.subrange(p, pre.len() as int);
        assert(new == a.push(f) + b);
        if k + 1 < p {
            assert(new[k] == a[k]);
            assert(a[k] == pre[k]);
            assert(new[k + 1] == a[k + 1]);
            assert(a[k + 1] == pre[k + 1]);
        } else if k + 1 == p {
            assert(new[k] == a[k]);
            assert(a[k] == pre[k]);
            assert(new[k + 1] == f);
        } else if k == p {
            assert(new[k] == f);
            assert(new[k + 1] == b[k - p]);
            assert(b[k - p] == pre[k]);
        } else {
            assert(new[k] == b[k - p - 1]);
            assert(b[k - p - 1] == pre[k - 1]);
            assert(new[k + 1] == b[k - p]);
            assert(b[k - p] == pre[k]);
        }
    }
}

/// Splicing a valid entry into a list of valid entries keeps every
/// entry valid.
proof fn lemma_spliced_valid(
    pre: Seq<FileDiff>,
    new: Seq<FileDiff>,
    f: FileDiff,
    before: Seq<(Seq<char>, Seq<char>)>,
    after: Seq<(Seq<char>, Seq<char>)>,
)
    requires
        forall|k: int| 0 <= k < pre.len() ==> file_diff_valid(#[trigger] pre[k], before, after),
        file_diff_valid(f, before, after),
        exists|p: int| 0 <= p <= pre.len() && new == #[trigger] pre.insert(p, f),
    ensures
        forall|k: int| 0 <= k < new.len() ==> file_diff_valid(#[trigger] new[k], before, after),
{
    let p = choose|p: int| 0 <= p <= pre.len() && new == #[trigger] pre.insert(p, f);
    pre.insert_ensures(p, f);
    assert forall|k: int| 0 <= k < new.len() implies file_diff_valid(
        #[trigger] new[k],
        before,
        after,
    ) by {
        if k < p {
            assert(new[k] == pre[k]);
        } else if k == p {
            assert(new[k] == f);
        } else {
            assert(new[k] == pre[k - 1]);
        }
    }
}

/// Compare a prior snapshot against a later one and render per-file
/// diffs: files only in the earlier snapshot are deletions, files only
/// in the later one are additions, files whose text changed are
/// modifications; unchanged files are left out. The result is sorted by
/// path, and every file diff reflects the snapshots.
#[verifier::rlimit(100)]
pub fn compute_diff(
    generator: &str,
    scope: &str,
    before: &Vec<(String, String)>,
    after: &Vec<(String, String)>,
) -> (r: GeneratorDiff)
    ensures
        r.generator@ == generator@,
        r.scope@ == scope@,
        files_sorted(r.files@),
        forall|k: int|
            0 <= k < r.files@.len() ==> file_diff_valid(
                #[trigger] r.files@[k],
                string_pair_views(before@),
                string_pair_views(after@),
            ),
{
    let ghost bv = string_pair_views(before@);
    let ghost av = string_pair_views(after@);
    let mut files: Vec<FileDiff> = Vec::new();

    // Deleted files: in `before` but not `after`.
    let mut i: usize = 0;
    while i < before.len()
        invariant
            i <= before@.len(),
            bv == string_pair_views(before@),
            av == string_pair_views(after@),
            bv.len() == before@.len(),
            forall|k: int|
                0 <= k < bv.len() ==> #[trigger] bv[k] == (before@[k].0@, before@[k].1@),
            files_sorted(files@),
            forall|k: int|
                0 <= k < files@.len() ==> file_diff_valid(#[trigger] files@[k], bv, av),
        decreases before@.len() - i,
    {
        // Only the first entry for a path is the snapshot's text.
        let path = &before[i].0;
        match snapshot_get(after, path) {
            Some(_) => {},
            None => {
                match snapshot_get(before, path) {
                    Some(content) => {
                        let f = FileDiff {
                            rel_path: path.clone(),
                            kind: ChangeKind::Deleted,
                            lines: make_delete_lines(content.as_str()),
                        };
                        let ghost pre = files@;
                        proof {
                            assert(f.rel_path@ == path@);
                            assert(spec_snapshot_get(bv, path@) == Some(content@));
                            assert(file_diff_valid(f, bv, av));
                        }
                        insert_sorted(&mut files, f);
                        proof {
                            lemma_spliced_valid(pre, files@, f, bv, av);
                        }
                    },
                    None => {},
                }
            },
        }
        i = i + 1;
    }

    // Added and modified files.
    let mut j: usize = 0;
    while j < after.len()
        invariant
            j <= after@.len(),
            bv == string_pair_views(before@),
            av == string_pair_views(after@),
            av.len() == after@.len(),
            forall|k: int|
                0 <= k < av.len() ==> #[trigger] av[k] == (after@[k].0@, after@[k].1@),
            files_sorted(files@),
            forall|k: int|
                0 <= k < files@.len() ==> file_diff_valid(#[trigger] files@[k], bv, av),
        decreases after@.len() - j,
    {
        let path = &after[j].0;
        match snapshot_get(after, path) {
            Some(after_text) => {
                match snapshot_get(before, path) {
                    None => {
                        let f = FileDiff {
                            rel_path: path.clone(),
                            kind: ChangeKind::Added,
                            lines: make_add_lines(after_text.as_str()),
                        };
                        let ghost pre = files@;
                        proof {
                            assert(f.rel_path@ == path@);
                            assert(spec_snapshot_get(av, path@) == Some(after_text@));
                            assert(file_diff_valid(f, bv, av));
                        }
                        insert_sorted(&mut files, f);
                        proof {
                            lemma_spliced_valid(pre, files@, f, bv, av);
                        }
                    },
                    Some(before_text) => {
                        if !(*before_text == *after_text) {
                            let f = FileDiff {
                                rel_path: path.clone(),
                                kind: ChangeKind::Modified,
                                lines: make_unified_diff(before_text, after_text),
                            };
                            let ghost pre = files@;
                            proof {
                                assert(f.rel_path@ == path@);
                                assert(spec_snapshot_get(bv, path@) == Some(before_text@));
                                assert(spec_snapshot_get(av, path@) == Some(after_text@));
                                assert(before_text@ != after_text@);
                                assert(file_diff_valid(f, bv, av));
                            }
                            insert_sorted(&mut files, f);
                            proof {
                                lemma_spliced_valid(pre, files@, f, bv, av);
                            }
                        }
                    },
                }
            },
            None => {},
        }
        j = j + 1;
    }

    GeneratorDiff {
        generator: crate::text::chars_to_string(&crate::text::str_to_chars(generator)),
        scope: crate::text::chars_to_string(&crate::text::str_to_chars(scope)),
        files,
    }
}

// ── Diff view state ──────────────────────────────────────────────────

/// Persistent state for the diff toggle mode inside the code browser.
/// Computed diffs are keyed by `{generator}-{scope}`.
pub struct DiffViewState {
    pub diffs: Vec<(String, GeneratorDiff)>,
    pub active: bool,
    pub file_index: usize,
    pub scroll: u16,
    pub focus: DiffPanel,
    pub active_generator: Option<String>,
}

/// The first diff stored under a generator key, as an index.
pub open spec fn spec_diff_index(diffs: Seq<(String, GeneratorDiff)>, key: Seq<char>) -> Option<
    int,
>
    decreases diffs.len(),
{
    if diffs.len() == 0 {
        None
    } else if diffs[0].0@ == key {
        Some(0)
    } else {
        match spec_diff_index(diffs.drop_first(), key) {
            Some(i) => Some(i + 1),
            None => None,
        }
    }
}

impl DiffViewState {
    /// Fresh state: no diffs, diff mode off, navigation at the origin.
    pub fn new() -> (r: Self)
        ensures
            r.diffs@.len() == 0,
            r.active == false,
            r.file_index == 0,
            r.scroll == 0,
            r.focus is FileList,
            r.active_generator is None,
    {
        DiffViewState {
            diffs: Vec::new(),
            active: false,
            file_index: 0,
            scroll: 0,
            focus: DiffPanel::FileList,
            active_generator: None,
        }
    }

    /// Reset navigation state, as when switching generators or entering
    /// diff mode.
    pub fn reset_nav(&mut self)
        ensures
            final(self).file_index == 0,
            final(self).scroll == 0,
            final(self).focus is FileList,
            final(self).diffs == old(self).diffs,
            final(self).active == old(self).active,
            final(self).active_generator == old(self).active_generator,
    {
        self.file_index = 0;
        self.scroll = 0;
        self.focus = DiffPanel::FileList;
    }

    /// The diff for the currently active generator, if any.
    pub fn active_diff(&self) -> (r: Option<&GeneratorDiff>)
        ensures
            match r {
                Some(d) => self.active_generator matches Some(key) && spec_diff_index(
                    self.diffs@,
                    key@,
                ) matches Some(i) && *d == self.diffs@[i].1,
                None => match self.active_generator {
                    Some(key) => spec_diff_index(self.diffs@, key@) is None,
                    None => true,
                },
            },
    {
        let key = match &self.active_generator {
            Some(k) => k,
            None => {
                return None;
            },
        };
        let mut i: usize = 0;
        proof {
            assert(self.diffs@.skip(0) =~= self.diffs@);
        }
        while i < self.diffs.len()
            invariant
                i <= self.diffs@.len(),
                self.active_generator matches Some(k0) && k0@ == key@,
                match spec_diff_index(self.diffs@.skip(i as int), key@) {
                    Some(x) => spec_diff_index(self.diffs@, key@) == Some(x + i),
                    None => spec_diff_index(self.diffs@, key@) is None,
                },
            decreases self.diffs@.len() - i,
        {
            if self.diffs[i].0 == *key {
                proof {
                    assert(self.diffs@.skip(i as int)[0] == self.diffs@[i as int]);
                    assert(spec_diff_index(self.diffs@.skip(i as int), key@) == Some(0int));
                    assert(spec_diff_index(self.diffs@, key@) == Some(i as int));
                }
                return Some(&self.diffs[i].1);
            }
            proof {
                assert(self.diffs@.skip(i as int)[0] == self.diffs@[i as int]);
                assert(self.diffs@.skip(i as int).drop_first() =~= self.diffs@.skip(i + 1));
            }
            i = i + 1;
        }
        proof {
            assert(self.diffs@.skip(self.diffs@.len() as int) =~= Seq::<
                (String, GeneratorDiff),
            >::empty());
        }
        None
    }

    /// Total number of changed files across all generators, saturating
    /// at the integer limit.
    pub fn total_changed_files(&self) -> (r: usize)
        ensures
            spec_total_files(self.diffs@) <= usize::MAX ==> r == spec_total_files(self.diffs@),
    {
        let mut total: usize = 0;
        let mut i: usize = 0;
        proof {
            assert(self.diffs@.take(0) =~= Seq::<(String, GeneratorDiff)>::empty());
        }
        while i < self.diffs.len()
            invariant
                i <= self.diffs@.len(),
                spec_total_files(self.diffs@.take(i as int)) <= usize::MAX ==> total
                    == spec_total_files(self.diffs@.take(i as int)),
                total as int <= spec_total_files(self.diffs@.take(i as int)),
            decreases self.diffs@.len() - i,
        {
            proof {
                assert(self.diffs@.take(i + 1).drop_last() =~= self.diffs@.take(i as int));
                assert(self.diffs@.take(i + 1).last() == self.diffs@[i as int]);
                lemma_total_files_nonneg(self.diffs@.take(i as int));
            }
            total = total.saturating_add(self.diffs[i].1.files.len());
            i = i + 1;
        }
        proof {
            assert(self.diffs@.take(self.diffs@.len() as int) =~= self.diffs@);
        }
        total
    }
}

/// The number of changed files across all generators.
pub open spec fn spec_total_files(diffs: Seq<(String, GeneratorDiff)>) -> int
    decreases diffs.len(),
{
    if diffs.len() == 0 {
        0
    } else {
        spec_total_files(diffs.drop_last()) + diffs.last().1.files@.len()
    }
}

proof fn lemma_total_files_nonneg(diffs: Seq<(String, GeneratorDiff)>)
    ensures
        spec_total_files(diffs) >= 0,
    decreases diffs.len(),
{
    if diffs.len() > 0 {
        lemma_total_files_nonneg(diffs.drop_last());
    }
}

} // verus!
