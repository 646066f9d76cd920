//! Text primitives shared by the parsers: conversion between `String` and
//! character vectors, splitting text into lines, and joining lines back.
//!
//! Lines end at `'\n'` or at a `'\r'`-`'\n'` pair; a trailing line ending
//! does not open an empty final line. All contracts are stated over
//! `Seq<char>` views.

use vstd::prelude::*;

verus! {

/// Relies on `String::push`: appends the given character to the end.
#[verifier::external_body]
pub fn push_char(s: &mut String, c: char)
    ensures
        final(s)@ == old(s)@.push(c),
{
    s.push(c);
}

/// Copy the characters of a string slice into a vector.
pub fn str_to_chars(s: &str) -> (v: Vec<char>)
    ensures
        v@ == s@,
{
    let n: usize = s.unicode_len();
    let mut v: Vec<char> = Vec::new();
    let mut i: usize = 0;
    while i < n
        invariant
            i <= n,
            n == s@.len(),
            v@ == s@.subrange(0, i as int),
        decreases n - i,
    {
        v.push(s.get_char(i));
        i = i + 1;
        proof {
            assert(v@ =~= s@.subrange(0, i as int));
        }
    }
    proof {
        assert(v@ =~= s@);
    }
    v
}

/// Build a string holding exactly the given characters.
pub fn chars_to_string(v: &Vec<char>) -> (s: String)
    ensures
        s@ == v@,
{
    let mut s = String::new();
    let mut i: usize = 0;
    while i < v.len()
        invariant
            i <= v.len(),
            s@ == v@.subrange(0, i as int),
        decreases v.len() - i,
    {
        push_char(&mut s, v[i]);
        i = i + 1;
        proof {
            assert(s@ =~= v@.subrange(0, i as int));
        }
    }
    proof {
        assert(s@ =~= v@);
    }
    s
}

/// The lines of a text: segments between line endings, where a line
/// ending is `'\n'` or the pair `'\r'`-`'\n'`, and a final ending closes
/// the last line rather than opening an empty one. A carriage return not
/// followed by a newline stays part of its line.
pub open spec fn spec_lines(s: Seq<char>) -> Seq<Seq<char>>
    decreases s.len(),
{
    if s.len() == 0 {
        Seq::empty()
    } else if s[0] == '\n' {
        seq![Seq::<char>::empty()] + spec_lines(s.drop_first())
    } else if s[0] == '\r' && s.len() >= 2 && s[1] == '\n' {
        seq![Seq::<char>::empty()] + spec_lines(s.skip(2))
    } else {
        let rest = spec_lines(s.drop_first());
        if rest.len() == 0 {
            seq![seq![s[0]]]
        } else {
            seq![seq![s[0]] + rest[0]] + rest.drop_first()
        }
    }
}

/// `spec_lines` on the text still to scan, with the partially read first
/// line put back in front.
pub open spec fn spec_lines_with_partial(cur: Seq<char>, rest: Seq<Seq<char>>) -> Seq<Seq<char>> {
    if rest.len() == 0 {
        if cur.len() == 0 {
            Seq::empty()
        } else {
            seq![cur]
        }
    } else {
        seq![cur + rest[0]] + rest.drop_first()
    }
}

/// Split a text into its lines.
pub fn split_lines(s: &str) -> (r: Vec<String>)
    ensures
        r.deep_view() == spec_lines(s@),
{
    let chars = str_to_chars(s);
    let n: usize = chars.len();
    let mut out: Vec<String> = Vec::new();
    let mut cur: Vec<char> = Vec::new();
    let mut i: usize = 0;
    proof {
        assert(s@.skip(0) =~= s@);
        let l = spec_lines(s@);
        if l.len() == 0 {
            assert(spec_lines_with_partial(Seq::<char>::empty(), l) =~= l);
        } else {
            assert(Seq::<char>::empty() + l[0] =~= l[0]);
            assert(spec_lines_with_partial(Seq::<char>::empty(), l) =~= l);
        }
        assert(spec_lines(s@) =~= out.deep_view() + spec_lines_with_partial(
            cur@,
            spec_lines(s@.skip(0)),
        ));
    }
    while i < n
        invariant
            i <= n,
            n == chars@.len(),
            chars@ == s@,
            spec_lines(s@) == out.deep_view() + spec_lines_with_partial(
                cur@,
                spec_lines(s@.skip(i as int)),
            ),
        decreases n - i,
    {
        let ghost pre_out = out.deep_view();
        let ghost pre_cur = cur@;
        let c = chars[i];
        if c == '\n' {
            let line = chars_to_string(&cur);
            out.push(line);
            cur = Vec::new();
            proof {
                assert(out.deep_view() =~= pre_out.push(pre_cur));
                assert(s@.skip(i as int).drop_first() =~= s@.skip(i + 1));
                assert(spec_lines(s@.skip(i as int)) == seq![Seq::<char>::empty()]
                    + spec_lines(s@.skip(i + 1)));
                assert(spec_lines_with_partial(pre_cur, spec_lines(s@.skip(i as int)))
                    =~= seq![pre_cur] + spec_lines_with_partial(
                    Seq::<char>::empty(),
                    spec_lines(s@.skip(i + 1)),
                ));
                assert(spec_lines(s@) =~= out.deep_view() + spec_lines_with_partial(
                    cur@,
                    spec_lines(s@.skip(i + 1)),
                ));
            }
            i = i + 1;
        } else if c == '\r' && i + 1 < n && chars[i + 1] == '\n' {
            let line = chars_to_string(&cur);
            out.push(line);
            cur = Vec::new();
            proof {
                assert(out.deep_view() =~= pre_out.push(pre_cur));
                assert(s@.skip(i as int)[0] == '\r');
                assert(s@.skip(i as int)[1] == s@[i + 1]);
                assert(s@.skip(i as int).skip(2) =~= s@.skip(i + 2));
                assert(spec_lines(s@.skip(i as int)) == seq![Seq::<char>::empty()]
                    + spec_lines(s@.skip(i + 2)));
                assert(spec_lines_with_partial(pre_cur, spec_lines(s@.skip(i as int)))
                    =~= seq![pre_cur] + spec_lines_with_partial(
                    Seq::<char>::empty(),
                    spec_lines(s@.skip(i + 2)),
                ));
                assert(spec_lines(s@) =~= out.deep_view() + spec_lines_with_partial(
                    cur@,
                    spec_lines(s@.skip(i + 2)),
                ));
            }
            i = i + 2;
        } else {
            cur.push(c);
            proof {
                let tail = spec_lines(s@.skip(i + 1));
                assert(s@.skip(i as int).drop_first() =~= s@.skip(i + 1));
                assert(s@.skip(i as int)[0] == c);
                if c == '\r' && i + 1 < n {
                    assert(s@.skip(i as int)[1] == s@[i + 1]);
                }
                if tail.len() == 0 {
                    assert(spec_lines(s@.skip(i as int)) == seq![seq![c]]);
                    assert(spec_lines_with_partial(pre_cur, spec_lines(s@.skip(i as int)))
                        =~= seq![pre_cur + seq![c]]);
                    assert(pre_cur + seq![c] =~= cur@);
                    assert(spec_lines_with_partial(cur@, tail) =~= seq![cur@]);
                } else {
                    assert(spec_lines(s@.skip(i as int)) == seq![seq![c] + tail[0]]
                        + tail.drop_first());
                    assert(spec_lines_with_partial(pre_cur, spec_lines(s@.skip(i as int)))
                        =~= seq![pre_cur + (seq![c] + tail[0])] + tail.drop_first());
                    assert(pre_cur + (seq![c] + tail[0]) =~= cur@ + tail[0]);
                    assert(spec_lines_with_partial(cur@, tail) =~= seq![cur@ + tail[0]]
                        + tail.drop_first());
                }
                assert(spec_lines(s@) =~= out.deep_view() + spec_lines_with_partial(cur@, tail));
            }
            i = i + 1;
        }
    }
    proof {
        assert(s@.skip(n as int) =~= Seq::<char>::empty());
    }
    if cur.len() > 0 {
        let ghost pre_out = out.deep_view();
        let line = chars_to_string(&cur);
        out.push(line);
        proof {
            assert(out.deep_view() =~= pre_out.push(cur@));
            assert(spec_lines(s@) =~= out.deep_view());
        }
    } else {
        proof {
            assert(spec_lines(s@) =~= out.deep_view());
        }
    }
    out
}

/// The sequence obtained by joining parts with a single separator.
pub open spec fn spec_join_sep(parts: Seq<Seq<char>>, sep: char) -> Seq<char>
    decreases parts.len(),
{
    if parts.len() == 0 {
        Seq::empty()
    } else if parts.len() == 1 {
        parts[0]
    } else {
        parts[0] + seq![sep] + spec_join_sep(parts.drop_first(), sep)
    }
}

/// The text obtained by joining lines with `'\n'` separators.
pub open spec fn spec_join(lines: Seq<Seq<char>>) -> Seq<char> {
    spec_join_sep(lines, '\n')
}

/// The text of a whole file: joined lines, plus a final newline when asked.
pub open spec fn spec_join_text(lines: Seq<Seq<char>>, trailing_newline: bool) -> Seq<char> {
    if trailing_newline {
        spec_join(lines) + seq!['\n']
    } else {
        spec_join(lines)
    }
}

pub proof fn lemma_join_sep_snoc(parts: Seq<Seq<char>>, sep: char)
    requires
        parts.len() >= 2,
    ensures
        spec_join_sep(parts, sep) == spec_join_sep(parts.drop_last(), sep) + seq![sep]
            + parts.last(),
    decreases parts.len(),
{
    if parts.len() == 2 {
        assert(parts.drop_first().len() == 1);
        assert(spec_join_sep(parts.drop_first(), sep) == parts[1]);
        assert(parts.drop_last() =~= seq![parts[0]]);
        assert(spec_join_sep(parts.drop_last(), sep) == parts[0]);
        assert(parts.last() == parts[1]);
    } else {
        let d = parts.drop_first();
        lemma_join_sep_snoc(d, sep);
        assert(d.drop_last() =~= parts.drop_last().drop_first());
        assert(d.last() == parts.last());
        assert(parts.drop_last().len() >= 2);
        assert(parts.drop_last()[0] == parts[0]);
        assert(spec_join_sep(parts.drop_last(), sep) == parts[0] + seq![sep] + spec_join_sep(
            parts.drop_last().drop_first(),
            sep,
        ));
        assert(spec_join_sep(parts, sep) == parts[0] + seq![sep] + (spec_join_sep(
            d.drop_last(),
            sep,
        ) + seq![sep] + d.last()));
        assert(parts[0] + seq![sep] + (spec_join_sep(d.drop_last(), sep) + seq![sep] + d.last())
            =~= (parts[0] + seq![sep] + spec_join_sep(d.drop_last(), sep)) + seq![sep]
            + parts.last());
    }
}

/// Join lines with `'\n'`, appending a final newline when `trailing_newline`.
pub fn join_lines(lines: &Vec<String>, trailing_newline: bool) -> (r: String)
    ensures
        r@ == spec_join_text(lines.deep_view(), trailing_newline),
{
    let mut s = String::new();
    let mut i: usize = 0;
    proof {
        assert(lines.deep_view().take(0) =~= Seq::<Seq<char>>::empty());
    }
    while i < lines.len()
        invariant
            i <= lines.len(),
            s@ == spec_join(lines.deep_view().take(i as int)),
        decreases lines.len() - i,
    {
        if i > 0 {
            push_char(&mut s, '\n');
        }
        s.append(lines[i].as_str());
        proof {
            let l = lines.deep_view();
            assert(l.take(i + 1).drop_last() =~= l.take(i as int));
            assert(l.take(i + 1).last() == l[i as int]);
            if i == 0 {
                assert(l.take(1) =~= seq![l[0]]);
                assert(s@ =~= spec_join(l.take(1)));
            } else {
                lemma_join_sep_snoc(l.take(i + 1), '\n');
                assert(s@ =~= spec_join(l.take(i as int)) + seq!['\n'] + l[i as int]);
            }
        }
        i = i + 1;
    }
    proof {
        assert(lines.deep_view().take(lines@.len() as int) =~= lines.deep_view());
    }
    if trailing_newline {
        push_char(&mut s, '\n');
        proof {
            assert(s@ =~= spec_join(lines.deep_view()) + seq!['\n']);
        }
    }
    s
}

/// No line produced by `spec_lines` contains a newline.
pub proof fn lemma_lines_no_newline(s: Seq<char>)
    ensures
        forall|j: int|
            0 <= j < spec_lines(s).len() ==> !spec_lines(s)[j].contains('\n'),
    decreases s.len(),
{
    if s.len() == 0 {
    } else if s[0] == '\n' {
        lemma_lines_no_newline(s.drop_first());
        assert forall|j: int| 0 <= j < spec_lines(s).len() implies !spec_lines(
            s,
        )[j].contains('\n') by {
            if j == 0 {
                assert(!Seq::<char>::empty().contains('\n'));
            } else {
                assert(spec_lines(s)[j] == spec_lines(s.drop_first())[j - 1]);
            }
        }
    } else if s[0] == '\r' && s.len() >= 2 && s[1] == '\n' {
        lemma_lines_no_newline(s.skip(2));
        assert forall|j: int| 0 <= j < spec_lines(s).len() implies !spec_lines(
            s,
        )[j].contains('\n') by {
            if j == 0 {
                assert(!Seq::<char>::empty().contains('\n'));
            } else {
                assert(spec_lines(s)[j] == spec_lines(s.skip(2))[j - 1]);
            }
        }
    } else {
        lemma_lines_no_newline(s.drop_first());
        let rest = spec_lines(s.drop_first());
        if rest.len() == 0 {
            assert forall|j: int| 0 <= j < spec_lines(s).len() implies !spec_lines(
                s,
            )[j].contains('\n') by {
                assert(spec_lines(s)[j] == seq![s[0]]);
                assert(forall|k: int| 0 <= k < seq![s[0]].len() ==> seq![s[0]][k] == s[0]);
            }
        } else {
            assert forall|j: int| 0 <= j < spec_lines(s).len() implies !spec_lines(
                s,
            )[j].contains('\n') by {
                if j == 0 {
                    assert(!rest[0].contains('\n'));
                    assert forall|k: int| 0 <= k < (seq![s[0]] + rest[0]).len() implies (
                    seq![s[0]] + rest[0])[k] != '\n' by {
                        if k > 0 {
                            assert((seq![s[0]] + rest[0])[k] == rest[0][k - 1]);
                            assert(!rest[0].contains('\n'));
                        }
                    }
                } else {
                    assert(spec_lines(s)[j] == rest[j]);
                }
            }
        }
    }
}

/// A character absent from the text is absent from every line.
pub proof fn lemma_lines_char_free(s: Seq<char>, c: char)
    requires
        !s.contains(c),
    ensures
        forall|j: int|
            0 <= j < spec_lines(s).len() ==> !(#[trigger] spec_lines(s)[j]).contains(c),
    decreases s.len(),
{
    if s.len() > 0 {
        assert(forall|k: int| 0 <= k < s.len() ==> s[k] != c);
        assert(!s.drop_first().contains(c)) by {
            if s.drop_first().contains(c) {
                let w = choose|w: int|
                    0 <= w < s.drop_first().len() && s.drop_first()[w] == c;
                assert(s[w + 1] == c);
            }
        }
        if s.len() >= 2 {
            assert(!s.skip(2).contains(c)) by {
                if s.skip(2).contains(c) {
                    let w = choose|w: int| 0 <= w < s.skip(2).len() && s.skip(2)[w] == c;
                    assert(s[w + 2] == c);
                }
            }
        }
        if s[0] == '\n' {
            lemma_lines_char_free(s.drop_first(), c);
            assert forall|j: int| 0 <= j < spec_lines(s).len() implies !(
            #[trigger] spec_lines(s)[j]).contains(c) by {
                if j > 0 {
                    assert(spec_lines(s)[j] == spec_lines(s.drop_first())[j - 1]);
                }
            }
        } else if s[0] == '\r' && s.len() >= 2 && s[1] == '\n' {
            lemma_lines_char_free(s.skip(2), c);
            assert forall|j: int| 0 <= j < spec_lines(s).len() implies !(
            #[trigger] spec_lines(s)[j]).contains(c) by {
                if j > 0 {
                    assert(spec_lines(s)[j] == spec_lines(s.skip(2))[j - 1]);
                }
            }
        } else {
            lemma_lines_char_free(s.drop_first(), c);
            let rest = spec_lines(s.drop_first());
            assert forall|j: int| 0 <= j < spec_lines(s).len() implies !(
            #[trigger] spec_lines(s)[j]).contains(c) by {
                if rest.len() == 0 {
                    assert(spec_lines(s)[j] == seq![s[0]]);
                    assert(forall|k: int|
                        0 <= k < seq![s[0]].len() ==> seq![s[0]][k] == s[0]);
                } else if j == 0 {
                    assert(!rest[0].contains(c));
                    assert forall|k: int|
                        0 <= k < (seq![s[0]] + rest[0]).len() implies (seq![s[0]]
                        + rest[0])[k] != c by {
                        if k > 0 {
                            assert((seq![s[0]] + rest[0])[k] == rest[0][k - 1]);
                        }
                    }
                } else {
                    assert(spec_lines(s)[j] == rest[j]);
                }
            }
        }
    }
}

/// Splitting `l + '\n' + rest` yields `l` followed by the lines of `rest`,
/// provided `l` holds no newline of its own.
pub proof fn lemma_lines_prefix(l: Seq<char>, rest: Seq<char>)
    requires
        !l.contains('\n'),
        l.len() > 0 ==> l.last() != '\r',
    ensures
        spec_lines(l + seq!['\n'] + rest) == seq![l] + spec_lines(rest),
    decreases l.len(),
{
    let text = l + seq!['\n'] + rest;
    if l.len() == 0 {
        assert(text =~= seq!['\n'] + rest);
        assert(text[0] == '\n');
        assert(text.drop_first() =~= rest);
        assert(spec_lines(text) == seq![Seq::<char>::empty()] + spec_lines(rest));
        assert(l =~= Seq::<char>::empty());
    } else {
        assert(l.contains('\n') <==> exists|k: int| 0 <= k < l.len() && l[k] == '\n');
        assert(text[0] == l[0]);
        assert(l[0] != '\n');
        assert(!l.drop_first().contains('\n')) by {
            if l.drop_first().contains('\n') {
                let k = choose|k: int|
                    0 <= k < l.drop_first().len() && l.drop_first()[k] == '\n';
                assert(l[k + 1] == '\n');
            }
        }
        // The head is no line ending: the next character is either a
        // character of `l` (no newline there) or the separator, and in
        // the latter case the head is not a carriage return.
        assert(text.len() >= 2);
        assert(text[1] == (if l.len() == 1 {
            '\n'
        } else {
            l[1]
        }));
        assert(!(text[0] == '\r' && text[1] == '\n')) by {
            if l.len() == 1 {
                assert(l.last() == l[0]);
            }
        }
        assert(l.len() > 1 ==> l.drop_first().last() == l.last());
        lemma_lines_prefix(l.drop_first(), rest);
        assert(text.drop_first() =~= l.drop_first() + seq!['\n'] + rest);
        let sub = spec_lines(text.drop_first());
        assert(sub == seq![l.drop_first()] + spec_lines(rest));
        assert(sub.len() >= 1);
        assert(sub[0] == l.drop_first());
        assert(spec_lines(text) == seq![seq![text[0]] + sub[0]] + sub.drop_first());
        assert(seq![text[0]] + sub[0] =~= l);
        assert(sub.drop_first() =~= spec_lines(rest));
        assert(spec_lines(text) =~= seq![l] + spec_lines(rest));
    }
}

/// Splitting a single newline-free line yields just that line.
pub proof fn lemma_lines_single(l: Seq<char>)
    requires
        !l.contains('\n'),
    ensures
        spec_lines(l) == if l.len() == 0 {
            Seq::<Seq<char>>::empty()
        } else {
            seq![l]
        },
    decreases l.len(),
{
    if l.len() > 0 {
        assert(l[0] != '\n');
        assert(!l.drop_first().contains('\n')) by {
            if l.drop_first().contains('\n') {
                let k = choose|k: int|
                    0 <= k < l.drop_first().len() && l.drop_first()[k] == '\n';
                assert(l[k + 1] == '\n');
            }
        }
        lemma_lines_single(l.drop_first());
        if l.len() == 1 {
            assert(l.drop_first().len() == 0);
            assert(spec_lines(l) == seq![seq![l[0]]]);
            assert(seq![l[0]] =~= l);
        } else {
            let rest = spec_lines(l.drop_first());
            assert(rest == seq![l.drop_first()]);
            assert(spec_lines(l) == seq![seq![l[0]] + l.drop_first()] + rest.drop_first());
            assert(seq![l[0]] + l.drop_first() =~= l);
            assert(spec_lines(l) =~= seq![l]);
        }
    }
}

/// Joining lines and splitting the result gives the lines back, for any
/// well-formed pair of lines and trailing-newline flag: no line holds a
/// newline, no line followed by a separator ends in a carriage return
/// (which would read as part of the line ending), a trailing newline
/// implies at least one line, and without one the last line is
/// non-empty.
pub proof fn lemma_lines_of_join(lines: Seq<Seq<char>>, trailing_newline: bool)
    requires
        forall|j: int| 0 <= j < lines.len() ==> !lines[j].contains('\n'),
        forall|j: int|
            0 <= j < lines.len() && (trailing_newline || j < lines.len() - 1) ==> ((
            #[trigger] lines[j]).len() > 0 ==> lines[j].last() != '\r'),
        trailing_newline ==> lines.len() >= 1,
        !trailing_newline && lines.len() > 0 ==> lines.last().len() > 0,
    ensures
        spec_lines(spec_join_text(lines, trailing_newline)) == lines,
    decreases lines.len(),
{
    if lines.len() == 0 {
        assert(spec_join_text(lines, trailing_newline) =~= Seq::<char>::empty());
        assert(spec_lines(Seq::<char>::empty()) =~= lines);
    } else if lines.len() == 1 {
        let l = lines[0];
        if trailing_newline {
            assert(spec_join_text(lines, true) =~= l + seq!['\n'] + Seq::<char>::empty());
            lemma_lines_prefix(l, Seq::<char>::empty());
            assert(spec_lines(spec_join_text(lines, true)) =~= lines);
        } else {
            assert(spec_join_text(lines, false) == l);
            lemma_lines_single(l);
            assert(spec_lines(l) =~= lines);
        }
    } else {
        let d = lines.drop_first();
        assert(forall|j: int| 0 <= j < d.len() ==> d[j] == lines[j + 1]);
        assert(d.last() == lines.last());
        assert forall|j: int|
            0 <= j < d.len() && (trailing_newline || j < d.len() - 1) implies ((
        #[trigger] d[j]).len() > 0 ==> d[j].last() != '\r') by {
            assert(d[j] == lines[j + 1]);
        }
        lemma_lines_of_join(d, trailing_newline);
        assert(spec_join_text(lines, trailing_newline) =~= lines[0] + seq!['\n']
            + spec_join_text(d, trailing_newline)) by {
            if trailing_newline {
                assert(spec_join(lines) + seq!['\n'] =~= lines[0] + seq!['\n'] + (spec_join(d)
                    + seq!['\n']));
            }
        }
        lemma_lines_prefix(lines[0], spec_join_text(d, trailing_newline));
        assert(spec_lines(spec_join_text(lines, trailing_newline)) =~= seq![lines[0]] + d);
        assert(seq![lines[0]] + d =~= lines);
    }
}

/// Horizontal whitespace: the characters the parsers treat as blanks
/// inside a line.
pub open spec fn is_ws(c: char) -> bool {
    c == ' ' || c == '\t' || c == '\r'
}

/// Indentation characters: what counts toward a line's indent.
pub open spec fn is_indent_char(c: char) -> bool {
    c == ' ' || c == '\t'
}

/// Number of leading indentation characters of a line.
pub open spec fn spec_indent(l: Seq<char>) -> nat
    decreases l.len(),
{
    if l.len() == 0 {
        0
    } else if is_indent_char(l[0]) {
        1 + spec_indent(l.drop_first())
    } else {
        0
    }
}

/// A line whose every character is whitespace (or that is empty).
pub open spec fn spec_is_blank(l: Seq<char>) -> bool {
    forall|k: int| 0 <= k < l.len() ==> is_ws(l[k])
}

/// The line with leading whitespace removed.
pub open spec fn spec_trim_start(l: Seq<char>) -> Seq<char>
    decreases l.len(),
{
    if l.len() > 0 && is_ws(l[0]) {
        spec_trim_start(l.drop_first())
    } else {
        l
    }
}

/// The line with trailing whitespace removed.
pub open spec fn spec_trim_end(l: Seq<char>) -> Seq<char>
    decreases l.len(),
{
    if l.len() > 0 && is_ws(l.last()) {
        spec_trim_end(l.drop_last())
    } else {
        l
    }
}

/// The line trimmed at both ends.
pub open spec fn spec_trim(l: Seq<char>) -> Seq<char> {
    spec_trim_end(spec_trim_start(l))
}

pub proof fn lemma_trim_start_is_skip(l: Seq<char>, i: int)
    requires
        0 <= i <= l.len(),
        forall|k: int| 0 <= k < i ==> is_ws(l[k]),
        i < l.len() ==> !is_ws(l[i]),
    ensures
        spec_trim_start(l) == l.skip(i),
    decreases i,
{
    if i == 0 {
        assert(l.skip(0) =~= l);
    } else {
        let d = l.drop_first();
        assert(is_ws(l[0]));
        assert(forall|k: int| 0 <= k < i - 1 ==> d[k] == l[k + 1] && is_ws(d[k]));
        lemma_trim_start_is_skip(d, i - 1);
        assert(d.skip(i - 1) =~= l.skip(i));
    }
}

pub proof fn lemma_trim_end_is_take(l: Seq<char>, i: int)
    requires
        0 <= i <= l.len(),
        forall|k: int| i <= k < l.len() ==> is_ws(l[k]),
        i > 0 ==> !is_ws(l[i - 1]),
    ensures
        spec_trim_end(l) == l.take(i),
    decreases l.len() - i,
{
    if i == l.len() as int {
        assert(l.take(i) =~= l);
    } else {
        let d = l.drop_last();
        assert(is_ws(l.last()));
        assert(forall|k: int| i <= k < d.len() ==> d[k] == l[k] && is_ws(d[k]));
        assert(i > 0 ==> d[i - 1] == l[i - 1]);
        lemma_trim_end_is_take(d, i);
        assert(d.take(i) =~= l.take(i));
    }
}

/// Whether every character of the line is whitespace.
pub fn is_blank(v: &Vec<char>) -> (r: bool)
    ensures
        r == spec_is_blank(v@),
{
    let mut i: usize = 0;
    while i < v.len()
        invariant
            i <= v.len(),
            forall|k: int| 0 <= k < i ==> is_ws(v@[k]),
        decreases v.len() - i,
    {
        let c = v[i];
        if !(c == ' ' || c == '\t' || c == '\r') {
            return false;
        }
        i = i + 1;
    }
    true
}

/// Index of the first non-whitespace character, or the length if none.
pub fn first_non_ws(v: &Vec<char>) -> (i: usize)
    ensures
        i <= v@.len(),
        forall|k: int| 0 <= k < i ==> is_ws(v@[k]),
        i < v@.len() ==> !is_ws(v@[i as int]),
        spec_trim_start(v@) == v@.skip(i as int),
{
    let mut i: usize = 0;
    while i < v.len()
        invariant
            i <= v.len(),
            forall|k: int| 0 <= k < i ==> is_ws(v@[k]),
        decreases v.len() - i,
    {
        let c = v[i];
        if !(c == ' ' || c == '\t' || c == '\r') {
            proof {
                lemma_trim_start_is_skip(v@, i as int);
            }
            return i;
        }
        i = i + 1;
    }
    proof {
        lemma_trim_start_is_skip(v@, i as int);
    }
    i
}

/// Copy a sub-range of a character vector.
pub fn subrange_chars(v: &Vec<char>, from: usize, to: usize) -> (r: Vec<char>)
    requires
        from <= to <= v@.len(),
    ensures
        r@ == v@.subrange(from as int, to as int),
{
    let mut r: Vec<char> = Vec::new();
    let mut i: usize = from;
    while i < to
        invariant
            from <= i <= to <= v@.len(),
            r@ == v@.subrange(from as int, i as int),
        decreases to - i,
    {
        r.push(v[i]);
        proof {
            assert(r@ =~= v@.subrange(from as int, i + 1));
        }
        i = i + 1;
    }
    r
}

/// The line with leading whitespace removed.
pub fn trim_start_chars(v: &Vec<char>) -> (r: Vec<char>)
    ensures
        r@ == spec_trim_start(v@),
{
    let i = first_non_ws(v);
    let r = subrange_chars(v, i, v.len());
    proof {
        assert(v@.subrange(i as int, v@.len() as int) =~= v@.skip(i as int));
    }
    r
}

/// Whether a character is horizontal whitespace.
pub fn ws_char(c: char) -> (r: bool)
    ensures
        r == is_ws(c),
{
    c == ' ' || c == '\t' || c == '\r'
}

/// The line trimmed at both ends.
pub fn trim_chars(v: &Vec<char>) -> (r: Vec<char>)
    ensures
        r@ == spec_trim(v@),
{
    let start = first_non_ws(v);
    let mut end: usize = v.len();
    while end > start && ws_char(v[end - 1])
        invariant
            start <= end <= v@.len(),
            forall|k: int| end <= k < v@.len() ==> is_ws(v@[k]),
            forall|k: int| 0 <= k < start ==> is_ws(v@[k]),
            start < v@.len() ==> !is_ws(v@[start as int]),
        decreases end,
    {
        end = end - 1;
    }
    let r = subrange_chars(v, start, end);
    proof {
        let t = spec_trim_start(v@);
        assert(t =~= v@.skip(start as int));
        assert(forall|k: int| end - start <= k < t.len() ==> t[k] == v@[k + start] && is_ws(
            t[k],
        ));
        if end > start {
            assert(t[end - start - 1] == v@[end - 1]);
        }
        lemma_trim_end_is_take(t, end - start);
        assert(t.take(end - start) =~= v@.subrange(start as int, end as int));
    }
    r
}

/// Whether the vector holds the given character.
pub fn contains_char(v: &Vec<char>, c: char) -> (r: bool)
    ensures
        r == v@.contains(c),
{
    let mut i: usize = 0;
    while i < v.len()
        invariant
            i <= v.len(),
            forall|k: int| 0 <= k < i ==> v@[k] != c,
        decreases v.len() - i,
    {
        if v[i] == c {
            return true;
        }
        i = i + 1;
    }
    false
}

/// First index of the given character, if present.
pub fn index_of_char(v: &Vec<char>, c: char) -> (r: Option<usize>)
    ensures
        match r {
            Some(i) => i < v@.len() && v@[i as int] == c && forall|k: int|
                0 <= k < i ==> v@[k] != c,
            None => !v@.contains(c),
        },
{
    let mut i: usize = 0;
    while i < v.len()
        invariant
            i <= v.len(),
            forall|k: int| 0 <= k < i ==> v@[k] != c,
        decreases v.len() - i,
    {
        if v[i] == c {
            return Some(i);
        }
        i = i + 1;
    }
    None
}

/// Whether the characters equal the view of the given string slice.
pub fn chars_eq_str(v: &Vec<char>, s: &str) -> (r: bool)
    ensures
        r == (v@ == s@),
{
    let n: usize = s.unicode_len();
    if v.len() != n {
        return false;
    }
    let mut i: usize = 0;
    while i < n
        invariant
            i <= n,
            n == s@.len(),
            v@.len() == n,
            forall|k: int| 0 <= k < i ==> v@[k] == s@[k],
        decreases n - i,
    {
        if v[i] != s.get_char(i) {
            return false;
        }
        i = i + 1;
    }
    proof {
        assert(v@ =~= s@);
    }
    true
}

/// Whether the characters start with the view of the given string slice.
pub fn chars_start_with(v: &Vec<char>, s: &str) -> (r: bool)
    ensures
        r == (v@.len() >= s@.len() && v@.take(s@.len() as int) == s@),
{
    let n: usize = s.unicode_len();
    if v.len() < n {
        return false;
    }
    let mut i: usize = 0;
    while i < n
        invariant
            i <= n,
            n == s@.len(),
            v@.len() >= n,
            forall|k: int| 0 <= k < i ==> v@[k] == s@[k],
        decreases n - i,
    {
        if v[i] != s.get_char(i) {
            return false;
        }
        i = i + 1;
    }
    proof {
        assert(v@.take(s@.len() as int) =~= s@);
    }
    true
}

/// The whitespace-separated tokens of a line.
pub open spec fn spec_tokens(s: Seq<char>) -> Seq<Seq<char>>
    decreases s.len(),
{
    if s.len() == 0 {
        Seq::empty()
    } else if is_ws(s[0]) {
        spec_tokens(s.drop_first())
    } else if s.len() == 1 || is_ws(s[1]) {
        seq![seq![s[0]]] + spec_tokens(s.drop_first())
    } else {
        let rest = spec_tokens(s.drop_first());
        seq![seq![s[0]] + rest[0]] + rest.drop_first()
    }
}

pub proof fn lemma_tokens_head_nonempty(s: Seq<char>)
    requires
        s.len() > 0,
        !is_ws(s[0]),
    ensures
        spec_tokens(s).len() >= 1,
    decreases s.len(),
{
    if s.len() == 1 || is_ws(s[1]) {
    } else {
        lemma_tokens_head_nonempty(s.drop_first());
    }
}

/// Tokens of `tok + ws + rest` where `tok` is non-empty and whitespace-free:
/// `tok` first, then the tokens of `rest`.
pub proof fn lemma_tokens_prefix(tok: Seq<char>, w: char, rest: Seq<char>)
    requires
        tok.len() > 0,
        forall|k: int| 0 <= k < tok.len() ==> !is_ws(tok[k]),
        is_ws(w),
    ensures
        spec_tokens(tok + seq![w] + rest) == seq![tok] + spec_tokens(rest),
    decreases tok.len(),
{
    let text = tok + seq![w] + rest;
    assert(text[0] == tok[0]);
    assert(!is_ws(text[0]));
    if tok.len() == 1 {
        assert(text.len() >= 2);
        assert(text[1] == w);
        assert(text.drop_first() =~= seq![w] + rest);
        assert((seq![w] + rest).drop_first() =~= rest);
        assert(spec_tokens(text) == seq![seq![text[0]]] + spec_tokens(text.drop_first()));
        assert(spec_tokens(text.drop_first()) == spec_tokens(rest));
        assert(seq![text[0]] =~= tok);
        assert(spec_tokens(text) =~= seq![tok] + spec_tokens(rest));
    } else {
        assert(text[1] == tok[1]);
        assert(!is_ws(text[1]));
        let d = tok.drop_first();
        assert(forall|k: int| 0 <= k < d.len() ==> d[k] == tok[k + 1] && !is_ws(d[k]));
        lemma_tokens_prefix(d, w, rest);
        assert(text.drop_first() =~= d + seq![w] + rest);
        let sub = spec_tokens(text.drop_first());
        assert(sub == seq![d] + spec_tokens(rest));
        assert(sub[0] == d);
        assert(spec_tokens(text) == seq![seq![text[0]] + sub[0]] + sub.drop_first());
        assert(seq![text[0]] + d =~= tok);
        assert(sub.drop_first() =~= spec_tokens(rest));
        assert(spec_tokens(text) =~= seq![tok] + spec_tokens(rest));
    }
}

/// Tokens of a single non-empty whitespace-free word: just that word.
pub proof fn lemma_tokens_single(tok: Seq<char>)
    requires
        forall|k: int| 0 <= k < tok.len() ==> !is_ws(tok[k]),
    ensures
        spec_tokens(tok) == if tok.len() == 0 {
            Seq::<Seq<char>>::empty()
        } else {
            seq![tok]
        },
    decreases tok.len(),
{
    if tok.len() > 0 {
        let d = tok.drop_first();
        assert(forall|k: int| 0 <= k < d.len() ==> d[k] == tok[k + 1] && !is_ws(d[k]));
        lemma_tokens_single(d);
        if tok.len() == 1 {
            assert(spec_tokens(tok) == seq![seq![tok[0]]] + spec_tokens(d));
            assert(seq![tok[0]] =~= tok);
            assert(spec_tokens(tok) =~= seq![tok]);
        } else {
            assert(!is_ws(tok[1]));
            let rest = spec_tokens(d);
            assert(rest == seq![d]);
            assert(spec_tokens(tok) == seq![seq![tok[0]] + rest[0]] + rest.drop_first());
            assert(seq![tok[0]] + d =~= tok);
            assert(spec_tokens(tok) =~= seq![tok]);
        }
    }
}

/// Split a line into its whitespace-separated tokens.
pub fn tokenize(v: &Vec<char>) -> (r: Vec<Vec<char>>)
    ensures
        r.deep_view() == spec_tokens(v@),
{
    let n: usize = v.len();
    let mut out: Vec<Vec<char>> = Vec::new();
    let mut cur: Vec<char> = Vec::new();
    let mut i: usize = 0;
    proof {
        assert(cur@ + v@.skip(0) =~= v@);
    }
    while i < n
        invariant
            i <= n,
            n == v@.len(),
            forall|k: int| 0 <= k < cur@.len() ==> !is_ws(cur@[k]),
            spec_tokens(v@) == out.deep_view() + spec_tokens(cur@ + v@.skip(i as int)),
        decreases n - i,
    {
        let c = v[i];
        let ghost pre_out = out.deep_view();
        let ghost pre_cur = cur@;
        if c == ' ' || c == '\t' || c == '\r' {
            if cur.len() > 0 {
                let word = cur;
                cur = Vec::new();
                out.push(word);
                proof {
                    lemma_tokens_prefix(pre_cur, c, v@.skip(i + 1));
                    assert(pre_cur + v@.skip(i as int) =~= pre_cur + seq![c] + v@.skip(i + 1));
                    assert(out.deep_view() =~~= pre_out.push(pre_cur));
                    assert(cur@ + v@.skip(i + 1) =~= v@.skip(i + 1));
                    assert(spec_tokens(v@) =~= out.deep_view() + spec_tokens(
                        cur@ + v@.skip(i + 1),
                    ));
                }
            } else {
                proof {
                    assert(pre_cur + v@.skip(i as int) =~= v@.skip(i as int));
                    assert(is_ws(v@.skip(i as int)[0]));
                    assert(v@.skip(i as int).drop_first() =~= v@.skip(i + 1));
                    assert(cur@ + v@.skip(i + 1) =~= v@.skip(i + 1));
                }
            }
        } else {
            cur.push(c);
            proof {
                assert(pre_cur + v@.skip(i as int) =~= cur@ + v@.skip(i + 1));
            }
        }
        i = i + 1;
    }
    proof {
        assert(cur@ + v@.skip(n as int) =~= cur@);
        lemma_tokens_single(cur@);
    }
    if cur.len() > 0 {
        let ghost pre_out = out.deep_view();
        let ghost word = cur@;
        out.push(cur);
        proof {
            assert(out.deep_view() =~~= pre_out.push(word));
            assert(spec_tokens(v@) =~= out.deep_view());
        }
    } else {
        proof {
            assert(spec_tokens(v@) =~= out.deep_view());
        }
    }
    out
}

/// The final component of a slash-separated path: everything after the
/// last `'/'`, empty when the path ends in one.
pub open spec fn spec_basename(p: Seq<char>) -> Seq<char>
    decreases p.len(),
{
    if p.len() == 0 {
        Seq::empty()
    } else if p.last() == '/' {
        Seq::empty()
    } else {
        spec_basename(p.drop_last()) + seq![p.last()]
    }
}

pub proof fn lemma_basename_is_skip(p: Seq<char>, i: int)
    requires
        0 <= i <= p.len(),
        forall|k: int| i <= k < p.len() ==> p[k] != '/',
        i > 0 ==> p[i - 1] == '/',
    ensures
        spec_basename(p) == p.skip(i),
    decreases p.len() - i,
{
    if i == p.len() as int {
        assert(p.skip(i) =~= Seq::<char>::empty());
        if p.len() > 0 {
            assert(p.last() == '/');
        }
    } else {
        let d = p.drop_last();
        assert(p.last() != '/');
        assert(forall|k: int| i <= k < d.len() ==> d[k] == p[k] && d[k] != '/');
        assert(i > 0 ==> d[i - 1] == p[i - 1]);
        lemma_basename_is_skip(d, i);
        assert(d.skip(i) + seq![p.last()] =~= p.skip(i));
    }
}

/// The final component of a slash-separated path.
pub fn basename(path: &str) -> (r: String)
    ensures
        r@ == spec_basename(path@),
{
    let chars = str_to_chars(path);
    let mut i: usize = chars.len();
    while i > 0 && chars[i - 1] != '/'
        invariant
            i <= chars@.len(),
            forall|k: int| i <= k < chars@.len() ==> chars@[k] != '/',
        decreases i,
    {
        i = i - 1;
    }
    proof {
        lemma_basename_is_skip(chars@, i as int);
    }
    let tail = subrange_chars(&chars, i, chars.len());
    proof {
        assert(tail@ =~= chars@.skip(i as int));
    }
    chars_to_string(&tail)
}

/// The views of a sequence of string pairs.
pub open spec fn string_pair_views(pairs: Seq<(String, String)>) -> Seq<(Seq<char>, Seq<char>)> {
    pairs.map_values(|p: (String, String)| (p.0@, p.1@))
}

pub open spec fn is_digit(c: char) -> bool {
    c == '0' || c == '1' || c == '2' || c == '3' || c == '4' || c == '5' || c == '6' || c == '7'
        || c == '8' || c == '9'
}

pub open spec fn digit_val(c: char) -> int {
    if c == '0' {
        0
    } else if c == '1' {
        1
    } else if c == '2' {
        2
    } else if c == '3' {
        3
    } else if c == '4' {
        4
    } else if c == '5' {
        5
    } else if c == '6' {
        6
    } else if c == '7' {
        7
    } else if c == '8' {
        8
    } else if c == '9' {
        9
    } else {
        0
    }
}

/// The numeric value of a digit string, most significant digit first.
pub open spec fn spec_digits_val(t: Seq<char>) -> int
    decreases t.len(),
{
    if t.len() == 0 {
        0
    } else {
        spec_digits_val(t.drop_last()) * 10 + digit_val(t.last())
    }
}

pub open spec fn spec_is_digits(t: Seq<char>) -> bool {
    t.len() > 0 && forall|k: int| 0 <= k < t.len() ==> is_digit(t[k])
}

/// The value a decimal token denotes, when it is all digits and fits in
/// a `usize`.
pub open spec fn spec_parse_usize(t: Seq<char>) -> Option<int> {
    if spec_is_digits(t) && spec_digits_val(t) <= usize::MAX {
        Some(spec_digits_val(t))
    } else {
        None
    }
}

pub proof fn lemma_digits_val_nonneg(t: Seq<char>)
    ensures
        spec_digits_val(t) >= 0,
    decreases t.len(),
{
    if t.len() > 0 {
        lemma_digits_val_nonneg(t.drop_last());
    }
}

pub proof fn lemma_digits_val_mono(t: Seq<char>, i: int, j: int)
    requires
        0 <= i <= j <= t.len(),
    ensures
        spec_digits_val(t.take(i)) <= spec_digits_val(t.take(j)),
    decreases j - i,
{
    if i < j {
        lemma_digits_val_mono(t, i, j - 1);
        assert(t.take(j).drop_last() =~= t.take(j - 1));
        lemma_digits_val_nonneg(t.take(j - 1));
        assert(spec_digits_val(t.take(j)) == spec_digits_val(t.take(j - 1)) * 10 + digit_val(
            t.take(j).last(),
        ));
    }
}

/// Whether a character is a decimal digit, and its value.
pub fn digit_of(c: char) -> (r: Option<u8>)
    ensures
        match r {
            Some(d) => is_digit(c) && d as int == digit_val(c) && d < 10,
            None => !is_digit(c),
        },
{
    match c {
        '0' => Some(0),
        '1' => Some(1),
        '2' => Some(2),
        '3' => Some(3),
        '4' => Some(4),
        '5' => Some(5),
        '6' => Some(6),
        '7' => Some(7),
        '8' => Some(8),
        '9' => Some(9),
        _ => None,
    }
}

/// Parse a decimal token into a `usize`.
pub fn parse_usize(v: &Vec<char>) -> (r: Option<usize>)
    ensures
        match r {
            Some(u) => spec_parse_usize(v@) == Some(u as int),
            None => spec_parse_usize(v@) is None,
        },
{
    if v.len() == 0 {
        return None;
    }
    let mut acc: usize = 0;
    let mut i: usize = 0;
    proof {
        assert(v@.take(0) =~= Seq::<char>::empty());
    }
    while i < v.len()
        invariant
            i <= v@.len(),
            v@.len() > 0,
            forall|k: int| 0 <= k < i ==> is_digit(v@[k]),
            acc as int == spec_digits_val(v@.take(i as int)),
        decreases v@.len() - i,
    {
        let c = v[i];
        let d = match digit_of(c) {
            Some(d) => d,
            None => {
                return None;
            },
        };
        proof {
            assert(v@.take(i + 1).drop_last() =~= v@.take(i as int));
        }
        let shifted = match acc.checked_mul(10) {
            Some(s) => s,
            None => {
                proof {
                    lemma_digits_val_overflow(v@, i as int, acc as int, d as int);
                }
                return None;
            },
        };
        let next = match shifted.checked_add(d as usize) {
            Some(s) => s,
            None => {
                proof {
                    lemma_digits_val_overflow(v@, i as int, acc as int, d as int);
                }
                return None;
            },
        };
        acc = next;
        i = i + 1;
    }
    proof {
        assert(v@.take(v@.len() as int) =~= v@);
    }
    Some(acc)
}

/// When a prefix value already overflows, the whole token's value does too.
proof fn lemma_digits_val_overflow(t: Seq<char>, i: int, acc: int, d: int)
    requires
        0 <= i < t.len(),
        acc == spec_digits_val(t.take(i)),
        d == digit_val(t[i]),
        0 <= d,
        acc * 10 + d > usize::MAX,
    ensures
        spec_digits_val(t) > usize::MAX,
{
    assert(t.take(i + 1).drop_last() =~= t.take(i));
    assert(t.take(i + 1).last() == t[i]);
    assert(spec_digits_val(t.take(i + 1)) == acc * 10 + d);
    lemma_digits_val_mono(t, i + 1, t.len() as int);
    assert(t.take(t.len() as int) =~= t);
}

pub open spec fn spec_lower_char(c: char) -> char {
    if c == 'A' {
        'a'
    } else if c == 'B' {
        'b'
    } else if c == 'C' {
        'c'
    } else if c == 'D' {
        'd'
    } else if c == 'E' {
        'e'
    } else if c == 'F' {
        'f'
    } else if c == 'G' {
        'g'
    } else if c == 'H' {
        'h'
    } else if c == 'I' {
        'i'
    } else if c == 'J' {
        'j'
    } else if c == 'K' {
        'k'
    } else if c == 'L' {
        'l'
    } else if c == 'M' {
        'm'
    } else if c == 'N' {
        'n'
    } else if c == 'O' {
        'o'
    } else if c == 'P' {
        'p'
    } else if c == 'Q' {
        'q'
    } else if c == 'R' {
        'r'
    } else if c == 'S' {
        's'
    } else if c == 'T' {
        't'
    } else if c == 'U' {
        'u'
    } else if c == 'V' {
        'v'
    } else if c == 'W' {
        'w'
    } else if c == 'X' {
        'x'
    } else if c == 'Y' {
        'y'
    } else if c == 'Z' {
        'z'
    } else {
        c
    }
}

/// The line with ASCII upper-case letters lowered.
pub open spec fn spec_lower(s: Seq<char>) -> Seq<char> {
    s.map_values(|c: char| spec_lower_char(c))
}

pub fn lower_char(c: char) -> (r: char)
    ensures
        r == spec_lower_char(c),
{
    match c {
        'A' => 'a',
        'B' => 'b',
        'C' => 'c',
        'D' => 'd',
        'E' => 'e',
        'F' => 'f',
        'G' => 'g',
        'H' => 'h',
        'I' => 'i',
        'J' => 'j',
        'K' => 'k',
        'L' => 'l',
        'M' => 'm',
        'N' => 'n',
        'O' => 'o',
        'P' => 'p',
        'Q' => 'q',
        'R' => 'r',
        'S' => 's',
        'T' => 't',
        'U' => 'u',
        'V' => 'v',
        'W' => 'w',
        'X' => 'x',
        'Y' => 'y',
        'Z' => 'z',
        _ => c,
    }
}

/// Lower-case a character vector.
pub fn lower_chars(v: &Vec<char>) -> (r: Vec<char>)
    ensures
        r@ == spec_lower(v@),
{
    let mut r: Vec<char> = Vec::new();
    let mut i: usize = 0;
    while i < v.len()
        invariant
            i <= v@.len(),
            r@.len() == i,
            forall|k: int| 0 <= k < i ==> r@[k] == spec_lower_char(v@[k]),
        decreases v@.len() - i,
    {
        r.push(lower_char(v[i]));
        i = i + 1;
    }
    proof {
        assert(r@ =~= spec_lower(v@));
    }
    r
}

/// Append the characters of `src` to `dst`.
pub fn append_chars(dst: &mut Vec<char>, src: &Vec<char>)
    ensures
        final(dst)@ == old(dst)@ + src@,
{
    let mut i: usize = 0;
    while i < src.len()
        invariant
            i <= src@.len(),
            dst@ == old(dst)@ + src@.take(i as int),
        decreases src@.len() - i,
    {
        dst.push(src[i]);
        proof {
            assert(old(dst)@ + src@.take(i + 1) =~= (old(dst)@ + src@.take(i as int)).push(
                src@[i as int],
            ));
        }
        i = i + 1;
    }
    proof {
        assert(old(dst)@ + src@.take(src@.len() as int) =~= old(dst)@ + src@);
    }
}

/// Join parts with a single separator character.
pub fn join_with(parts: &Vec<Vec<char>>, sep: char) -> (r: Vec<char>)
    ensures
        r@ == spec_join_sep(parts.deep_view(), sep),
{
    let mut r: Vec<char> = Vec::new();
    let mut i: usize = 0;
    proof {
        assert(parts.deep_view().take(0) =~= Seq::<Seq<char>>::empty());
    }
    while i < parts.len()
        invariant
            i <= parts@.len(),
            parts.deep_view().len() == parts@.len(),
            forall|k: int|
                0 <= k < parts@.len() ==> parts.deep_view()[k] == parts@[k].deep_view(),
            r@ == spec_join_sep(parts.deep_view().take(i as int), sep),
        decreases parts@.len() - i,
    {
        let ghost l = parts.deep_view();
        if i > 0 {
            r.push(sep);
        }
        append_chars(&mut r, &parts[i]);
        proof {
            assert(parts@[i as int].deep_view() =~= parts@[i as int]@);
            assert(l.take(i + 1).drop_last() =~= l.take(i as int));
            assert(l.take(i + 1).last() == l[i as int]);
            if i == 0 {
                assert(l.take(1) =~= seq![l[0]]);
                assert(r@ =~= spec_join_sep(l.take(1), sep));
            } else {
                lemma_join_sep_snoc(l.take(i + 1), sep);
                assert(r@ =~= spec_join_sep(l.take(i as int), sep) + seq![sep] + l[i as int]);
            }
        }
        i = i + 1;
    }
    proof {
        assert(parts.deep_view().take(parts@.len() as int) =~= parts.deep_view());
    }
    r
}

} // verus!
