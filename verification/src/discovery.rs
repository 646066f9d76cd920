//! Spec-file discovery rules: resolving a configured spec path against
//! the project root, and deciding which files and directories the
//! auto-discovery walk considers. The walk itself, and reading files,
//! happen outside the library.

use vstd::prelude::*;

use crate::browser::spec_extension;
use crate::text::{
    chars_eq_str, chars_start_with, chars_to_string, spec_is_blank, str_to_chars, subrange_chars,
};

verus! {

/// Why a configured spec path is rejected.
#[derive(Debug, Clone, Copy, PartialEq, Eq, Structural)]
pub enum SpecPathError {
    /// The configured path is blank.
    Blank,
    /// An absolute path that does not lie inside the project root.
    OutsideRoot,
}

/// The project-relative form of a configured spec path: a relative path
/// stays as it is; an absolute path must extend the root and is
/// stripped down to the part after it.
pub open spec fn spec_normalized_path(root: Seq<char>, spec: Seq<char>) -> Result<
    Seq<char>,
    SpecPathError,
> {
    if spec_is_blank(spec) {
        Err(SpecPathError::Blank)
    } else if spec.len() > 0 && spec[0] == '/' {
        if spec.len() > root.len() && spec.take(root.len() as int) == root && spec[root.len() as int]
            == '/' {
            Ok(spec.skip(root.len() as int + 1))
        } else {
            Err(SpecPathError::OutsideRoot)
        }
    } else {
        Ok(spec)
    }
}

/// Resolve a configured spec path to a path relative to the project
/// root. A blank path and an absolute path outside the root are
/// rejected; whether the file exists is checked by the caller.
pub fn normalize_spec_path(root: &str, spec: &str) -> (r: Result<String, SpecPathError>)
    ensures
        match r {
            Ok(p) => spec_normalized_path(root@, spec@) == Ok::<Seq<char>, SpecPathError>(p@),
            Err(e) => spec_normalized_path(root@, spec@) == Err::<Seq<char>, SpecPathError>(e),
        },
{
    let chars = str_to_chars(spec);
    if crate::text::is_blank(&chars) {
        return Err(SpecPathError::Blank);
    }
    if chars.len() > 0 && chars[0] == '/' {
        let root_chars = str_to_chars(root);
        let rl: usize = root_chars.len();
        if chars.len() > rl && chars_start_with(&chars, root) && chars[rl] == '/' {
            let rel = subrange_chars(&chars, rl + 1, chars.len());
            proof {
                assert(rel@ =~= spec@.skip(root@.len() as int + 1));
            }
            return Ok(chars_to_string(&rel));
        }
        return Err(SpecPathError::OutsideRoot);
    }
    Ok(chars_to_string(&chars))
}

/// Whether a path names a YAML file, by its extension.
pub open spec fn spec_is_yaml(p: Seq<char>) -> bool {
    let e = spec_extension(p);
    e == "yaml"@ || e == "yml"@ || e == "YAML"@ || e == "YML"@
}

/// Whether a path names a YAML file.
pub fn is_yaml(path: &str) -> (r: bool)
    ensures
        r == spec_is_yaml(path@),
{
    let e = extension_of(path);
    chars_eq_str(&e, "yaml") || chars_eq_str(&e, "yml") || chars_eq_str(&e, "YAML")
        || chars_eq_str(&e, "YML")
}

/// The extension of a path, case preserved.
fn extension_of(path: &str) -> (r: Vec<char>)
    ensures
        r@ == spec_extension(path@),
{
    let chars = str_to_chars(path);
    let mut start: usize = chars.len();
    while start > 0 && chars[start - 1] != '/'
        invariant
            start <= chars@.len(),
            forall|k: int| start <= k < chars@.len() ==> chars@[k] != '/',
        decreases start,
    {
        start = start - 1;
    }
    let base = subrange_chars(&chars, start, chars.len());
    proof {
        crate::text::lemma_basename_is_skip(chars@, start as int);
        assert(base@ =~= chars@.skip(start as int));
    }
    let mut dot: usize = base.len();
    while dot > 0 && base[dot - 1] != '.'
        invariant
            dot <= base@.len(),
            forall|k: int| dot <= k < base@.len() ==> base@[k] != '.',
        decreases dot,
    {
        dot = dot - 1;
    }
    proof {
        crate::browser::lemma_last_index_of_props(base@, '.', dot as int);
    }
    if dot <= 1 {
        proof {
            assert(spec_extension(path@) =~= Seq::<char>::empty());
        }
        return Vec::new();
    }
    let ext = subrange_chars(&base, dot, base.len());
    proof {
        assert(ext@ =~= base@.skip(dot as int));
        assert(spec_extension(path@) == base@.skip(dot - 1 + 1));
    }
    ext
}

/// Whether the auto-discovery walk skips a directory of this name.
pub open spec fn spec_skipped_dir(name: Seq<char>) -> bool {
    name == ".git"@ || name == ".oav"@ || name == "target"@ || name == "node_modules"@ || name
        == ".idea"@ || name == ".vscode"@
}

/// Whether the auto-discovery walk skips a directory of this name.
pub fn is_skipped_dir(name: &str) -> (r: bool)
    ensures
        r == spec_skipped_dir(name@),
{
    let chars = str_to_chars(name);
    chars_eq_str(&chars, ".git") || chars_eq_str(&chars, ".oav") || chars_eq_str(
        &chars,
        "target",
    ) || chars_eq_str(&chars, "node_modules") || chars_eq_str(&chars, ".idea") || chars_eq_str(
        &chars,
        ".vscode",
    )
}

} // verus!
