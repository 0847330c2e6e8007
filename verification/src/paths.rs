//! Paths as text, and how a path given from the invocation directory is
//! written for use inside the working directory.

use crate::text::{repeat, repeated, same_text};
use camino::{Utf8Component, Utf8Path};
use vstd::prelude::*;

verus! {

/// The kind of one component of a path.
#[derive(Copy, Clone, PartialEq, Eq, Structural, Debug)]
pub enum PathPart {
    Prefix,
    RootDir,
    CurDir,
    ParentDir,
    Normal,
}

/// The text of an optional string.
pub open spec fn text_of(s: Option<String>) -> Option<Seq<char>> {
    match s {
        Some(t) => Some(t@),
        None => None,
    }
}

/// Whether a path is absolute, on the platform that the crate is built for.
pub uninterp spec fn path_is_absolute(path: Seq<char>) -> bool;

/// What is left of `path` behind the leading components `base`, if it
/// starts with them.
pub uninterp spec fn path_strip_prefix(path: Seq<char>, base: Seq<char>) -> Option<Seq<char>>;

/// The kinds of the components of a path, in order.
pub uninterp spec fn path_parts(path: Seq<char>) -> Seq<PathPart>;

/// The final component of a path without its extension, if it has a final
/// component.
pub uninterp spec fn path_file_stem(path: Seq<char>) -> Option<Seq<char>>;

/// The extension of the final component of a path, if it has one.
pub uninterp spec fn path_extension(path: Seq<char>) -> Option<Seq<char>>;

/// `Utf8Path::is_absolute`. The claim is that the answer depends on the text
/// of the path alone.
#[verifier::external_body]
pub(crate) fn is_absolute(path: &str) -> (r: bool)
    ensures
        r == path_is_absolute(path@),
{
    Utf8Path::new(path).is_absolute()
}

/// `Utf8Path::strip_prefix`, with `None` for its error. The claim is that the
/// outcome depends on the two texts alone.
#[verifier::external_body]
pub(crate) fn strip_prefix(path: &str, base: &str) -> (r: Option<String>)
    ensures
        text_of(r) == path_strip_prefix(path@, base@),
{
    Utf8Path::new(path).strip_prefix(base).ok().map(|rest| rest.as_str().to_string())
}

/// `Utf8Path::components`, each component given by its kind. The claim is
/// that the components depend on the text of the path alone.
#[verifier::external_body]
pub(crate) fn parts(path: &str) -> (r: Vec<PathPart>)
    ensures
        r@ == path_parts(path@),
{
    let mut kinds = Vec::new();
    for component in Utf8Path::new(path).components() {
        kinds.push(
            match component {
                Utf8Component::Prefix(_) => PathPart::Prefix,
                Utf8Component::RootDir => PathPart::RootDir,
                Utf8Component::CurDir => PathPart::CurDir,
                Utf8Component::ParentDir => PathPart::ParentDir,
                Utf8Component::Normal(_) => PathPart::Normal,
            },
        );
    }
    kinds
}

/// `Utf8Path::file_stem`. The claim is that the stem depends on the text of
/// the path alone.
#[verifier::external_body]
pub(crate) fn file_stem(path: &str) -> (r: Option<String>)
    ensures
        text_of(r) == path_file_stem(path@),
{
    Utf8Path::new(path).file_stem().map(|stem| stem.to_string())
}

/// `Utf8Path::extension`. The claim is that the extension depends on the text
/// of the path alone.
#[verifier::external_body]
pub(crate) fn extension(path: &str) -> (r: Option<String>)
    ensures
        text_of(r) == path_extension(path@),
{
    Utf8Path::new(path).extension().map(|ext| ext.to_string())
}

/// The base is the invocation directory: written `.`, or made of that one
/// component.
pub open spec fn is_current_dir(base: Seq<char>, base_parts: Seq<PathPart>) -> bool {
    base == "."@ || base_parts == seq![PathPart::CurDir]
}

/// The path that names, from `base`, what `path` names from the invocation
/// directory, given what is known of the two paths:
/// - `path` itself, where `base` is the invocation directory or `path` is
///   absolute;
/// - what follows `base` in `path`, where `path` starts with `base`;
/// - `path` behind one `..` for each component of `base`, where `base` is
///   relative and has no `..` of its own;
/// - nothing otherwise: only the file system can tell.
pub open spec fn relative_from_spec(
    path: Seq<char>,
    base: Seq<char>,
    base_parts: Seq<PathPart>,
    path_absolute: bool,
    base_absolute: bool,
    stripped: Option<Seq<char>>,
) -> Option<Seq<char>> {
    if is_current_dir(base, base_parts) || path_absolute {
        Some(path)
    } else if stripped is Some {
        stripped
    } else if !base_absolute && !base_parts.contains(PathPart::ParentDir) {
        Some(repeated("../"@, base_parts.len()) + path)
    } else {
        None
    }
}

/// `relative_from_spec` on what the two paths are.
pub open spec fn relative_path_spec(path: Seq<char>, base: Seq<char>) -> Option<Seq<char>> {
    relative_from_spec(
        path,
        base,
        path_parts(base),
        path_is_absolute(path),
        path_is_absolute(base),
        path_strip_prefix(path, base),
    )
}

/// Whether one of `kinds` is `wanted`.
pub fn has_part(kinds: &Vec<PathPart>, wanted: PathPart) -> (r: bool)
    ensures
        r == kinds@.contains(wanted),
{
    let mut i: usize = 0;
    while i < kinds.len()
        invariant
            i <= kinds.len(),
            forall|j: int| 0 <= j < i ==> kinds@[j] != wanted,
        decreases kinds.len() - i,
    {
        if kinds[i] == wanted {
            return true;
        }
        i = i + 1;
    }
    false
}

/// Relativizes `path` from what is known of it and of `base`: the kinds of
/// the components of `base`, whether each path is absolute, and what is left
/// of `path` behind `base`.
pub fn relative_from(
    path: &str,
    base: &str,
    base_parts: &Vec<PathPart>,
    path_absolute: bool,
    base_absolute: bool,
    stripped: Option<String>,
) -> (r: Option<String>)
    ensures
        text_of(r) == relative_from_spec(
            path@,
            base@,
            base_parts@,
            path_absolute,
            base_absolute,
            text_of(stripped),
        ),
{
    let one_dot = base_parts.len() == 1 && base_parts[0] == PathPart::CurDir;
    assert(one_dot == (base_parts@ =~= seq![PathPart::CurDir]));
    if same_text(base, ".") || one_dot || path_absolute {
        return Some(String::from_str(path));
    }
    match stripped {
        Some(rest) => Some(rest),
        None => {
            if !base_absolute && !has_part(base_parts, PathPart::ParentDir) {
                Some(repeat("../", base_parts.len()).concat(path))
            } else {
                None
            }
        },
    }
}

/// Get a version of `path` that works when the working directory is `base`.
/// This is opportunistically a relative path; `None` where only an absolute
/// path would do, which the file system has to supply.
pub fn relative_path(path: &str, base: &str) -> (r: Option<String>)
    ensures
        text_of(r) == relative_path_spec(path@, base@),
{
    let base_parts = parts(base);
    let path_absolute = is_absolute(path);
    let base_absolute = is_absolute(base);
    let stripped = strip_prefix(path, base);
    relative_from(path, base, &base_parts, path_absolute, base_absolute, stripped)
}

/// A path is left as it is where the working directory is the invocation
/// directory.
pub proof fn lemma_relative_to_current_dir(path: Seq<char>)
    ensures
        relative_path_spec(path, "."@) == Some(path),
{
}

} // verus!
