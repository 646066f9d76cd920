//! Mapping generated files to syntax names for the highlighter: the
//! file extension, lower-cased, selects the language.

use vstd::prelude::*;

use crate::text::{
    chars_eq_str, lower_chars, spec_basename, spec_lower, str_to_chars, subrange_chars,
};

verus! {

/// The extension of a path: what follows the last `'.'` of its final
/// component, empty when that component has no dot past its first
/// character.
pub open spec fn spec_extension(p: Seq<char>) -> Seq<char> {
    let b = spec_basename(p);
    let dot = spec_last_index_of(b, '.');
    if dot <= 0 {
        Seq::empty()
    } else {
        b.skip(dot + 1)
    }
}

/// Index of the last occurrence of `c`, or `-1`.
pub open spec fn spec_last_index_of(s: Seq<char>, c: char) -> int
    decreases s.len(),
{
    if s.len() == 0 {
        -1
    } else if s.last() == c {
        s.len() - 1
    } else {
        spec_last_index_of(s.drop_last(), c)
    }
}

pub proof fn lemma_last_index_of_props(s: Seq<char>, c: char, i: int)
    requires
        0 <= i <= s.len(),
        forall|k: int| i <= k < s.len() ==> s[k] != c,
        i > 0 ==> s[i - 1] == c,
    ensures
        spec_last_index_of(s, c) == i - 1,
    decreases s.len() - i,
{
    if i == s.len() as int {
        if i > 0 {
        }
        lemma_last_index_back(s, c, i);
    } else {
        let d = s.drop_last();
        assert(s.last() != c);
        assert(forall|k: int| i <= k < d.len() ==> d[k] == s[k] && d[k] != c);
        assert(i > 0 ==> d[i - 1] == s[i - 1]);
        lemma_last_index_of_props(d, c, i);
    }
}

proof fn lemma_last_index_back(s: Seq<char>, c: char, i: int)
    requires
        i == s.len(),
        i > 0 ==> s[i - 1] == c,
    ensures
        spec_last_index_of(s, c) == i - 1,
{
    if i > 0 {
        assert(s.last() == c);
    }
}

/// The extension of a path, lower-cased.
fn extension_lower(path: &str) -> (r: Vec<char>)
    ensures
        r@ == spec_lower(spec_extension(path@)),
{
    let chars = str_to_chars(path);
    // The final path component.
    let mut start: usize = chars.len();
    while start > 0 && chars[start - 1] != '/'
        invariant
            start <= chars@.len(),
            forall|k: int| start <= k < chars@.len() ==> chars@[k] != '/',
        decreases start,
    {
        start = start - 1;
    }
    let base = subrange_chars(&chars, start, chars.len());
    proof {
        crate::text::lemma_basename_is_skip(chars@, start as int);
        assert(base@ =~= chars@.skip(start as int));
    }
    // The last dot within it.
    let mut dot: usize = base.len();
    while dot > 0 && base[dot - 1] != '.'
        invariant
            dot <= base@.len(),
            forall|k: int| dot <= k < base@.len() ==> base@[k] != '.',
        decreases dot,
    {
        dot = dot - 1;
    }
    proof {
        lemma_last_index_of_props(base@, '.', dot as int);
    }
    if dot <= 1 {
        proof {
            assert(spec_extension(path@) =~= Seq::<char>::empty());
            assert(spec_lower(spec_extension(path@)) =~= Seq::<char>::empty());
        }
        return Vec::new();
    }
    let ext = subrange_chars(&base, dot, base.len());
    proof {
        assert(ext@ =~= base@.skip(dot as int));
        assert(spec_extension(path@) == base@.skip(dot - 1 + 1));
    }
    lower_chars(&ext)
}

/// The syntax name an extension selects.
pub open spec fn spec_syntax_name(p: Seq<char>) -> Seq<char> {
    let e = spec_lower(spec_extension(p));
    if e == "java"@ {
        "Java"@
    } else if e == "kt"@ || e == "kts"@ {
        "Kotlin"@
    } else if e == "ts"@ || e == "tsx"@ {
        "TypeScript"@
    } else if e == "js"@ || e == "jsx"@ || e == "mjs"@ || e == "cjs"@ {
        "JavaScript"@
    } else if e == "go"@ {
        "Go"@
    } else if e == "py"@ || e == "pyi"@ {
        "Python"@
    } else if e == "rs"@ {
        "Rust"@
    } else if e == "cs"@ {
        "C#"@
    } else if e == "rb"@ {
        "Ruby"@
    } else if e == "swift"@ {
        "Swift"@
    } else if e == "c"@ || e == "h"@ {
        "C"@
    } else if e == "cpp"@ || e == "cc"@ || e == "cxx"@ || e == "hpp"@ || e == "hxx"@ {
        "C++"@
    } else if e == "json"@ {
        "JSON"@
    } else if e == "yaml"@ || e == "yml"@ {
        "YAML"@
    } else if e == "xml"@ || e == "xsd"@ || e == "wsdl"@ {
        "XML"@
    } else if e == "html"@ || e == "htm"@ {
        "HTML"@
    } else if e == "css"@ {
        "CSS"@
    } else if e == "md"@ || e == "markdown"@ {
        "Markdown"@
    } else if e == "sh"@ || e == "bash"@ || e == "zsh"@ {
        "Bourne Again Shell (bash)"@
    } else if e == "toml"@ {
        "TOML"@
    } else if e == "sql"@ {
        "SQL"@
    } else if e == "gradle"@ {
        "Groovy"@
    } else if e == "dart"@ {
        "Dart"@
    } else if e == "php"@ {
        "PHP"@
    } else if e == "scala"@ {
        "Scala"@
    } else {
        "Plain Text"@
    }
}

/// Map a file path to the highlighter's syntax name, by its extension.
pub fn syntax_name_for_path(path: &str) -> (r: &'static str)
    ensures
        r@ == spec_syntax_name(path@),
{
    let e = extension_lower(path);
    if chars_eq_str(&e, "java") {
        "Java"
    } else if chars_eq_str(&e, "kt") || chars_eq_str(&e, "kts") {
        "Kotlin"
    } else if chars_eq_str(&e, "ts") || chars_eq_str(&e, "tsx") {
        "TypeScript"
    } else if chars_eq_str(&e, "js") || chars_eq_str(&e, "jsx") || chars_eq_str(&e, "mjs")
        || chars_eq_str(&e, "cjs") {
        "JavaScript"
    } else if chars_eq_str(&e, "go") {
        "Go"
    } else if chars_eq_str(&e, "py") || chars_eq_str(&e, "pyi") {
        "Python"
    } else if chars_eq_str(&e, "rs") {
        "Rust"
    } else if chars_eq_str(&e, "cs") {
        "C#"
    } else if chars_eq_str(&e, "rb") {
        "Ruby"
    } else if chars_eq_str(&e, "swift") {
        "Swift"
    } else if chars_eq_str(&e, "c") || chars_eq_str(&e, "h") {
        "C"
    } else if chars_eq_str(&e, "cpp") || chars_eq_str(&e, "cc") || chars_eq_str(&e, "cxx")
        || chars_eq_str(&e, "hpp") || chars_eq_str(&e, "hxx") {
        "C++"
    } else if chars_eq_str(&e, "json") {
        "JSON"
    } else if chars_eq_str(&e, "yaml") || chars_eq_str(&e, "yml") {
        "YAML"
    } else if chars_eq_str(&e, "xml") || chars_eq_str(&e, "xsd") || chars_eq_str(&e, "wsdl") {
        "XML"
    } else if chars_eq_str(&e, "html") || chars_eq_str(&e, "htm") {
        "HTML"
    } else if chars_eq_str(&e, "css") {
        "CSS"
    } else if chars_eq_str(&e, "md") || chars_eq_str(&e, "markdown") {
        "Markdown"
    } else if chars_eq_str(&e, "sh") || chars_eq_str(&e, "bash") || chars_eq_str(&e, "zsh") {
        "Bourne Again Shell (bash)"
    } else if chars_eq_str(&e, "toml") {
        "TOML"
    } else if chars_eq_str(&e, "sql") {
        "SQL"
    } else if chars_eq_str(&e, "gradle") {
        "Groovy"
    } else if chars_eq_str(&e, "dart") {
        "Dart"
    } else if chars_eq_str(&e, "php") {
        "PHP"
    } else if chars_eq_str(&e, "scala") {
        "Scala"
    } else {
        "Plain Text"
    }
}

} // verus!
