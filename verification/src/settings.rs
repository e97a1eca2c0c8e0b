//! How a source file is named relative to the configuration root, the
//! spelling configuration entries match file paths by.
//!
//! What only the file system knows (whether a path exists, and the
//! canonical form of a path) the caller looks up and hands in.

use vstd::prelude::*;

use crate::findings::option_text;
use crate::load::forward_slashes;
use crate::load::normalize_relative_path;
use crate::load::strip_path_prefix;
use crate::load::stripped_path;

verus! {

/// What `std::path::Path::is_relative` answers for a path, given as text.
pub uninterp spec fn path_is_relative(path: Seq<char>) -> bool;

/// What `std::path::Path::join` gives for a base and a path, as text.
pub uninterp spec fn joined_path(base: Seq<char>, path: Seq<char>) -> Seq<char>;

/// Whether `path` is relative.
///
/// Wraps `Path::is_relative`; the contract only names its result.
#[verifier::external_body]
fn is_relative_path(path: &str) -> (r: bool)
    ensures
        r == path_is_relative(path@),
{
    std::path::Path::new(path).is_relative()
}

/// `path` below `base`.
///
/// Wraps `Path::join` (and `to_string_lossy`, lossless on text input); the
/// contract only names its result.
#[verifier::external_body]
pub(crate) fn join_path(base: &str, path: &str) -> (r: String)
    ensures
        r@ == joined_path(base@, path@),
{
    std::path::Path::new(base).join(path).to_string_lossy().into_owned()
}

/// The configuration-relative spelling of a path, once its prefix is
/// stripped.
pub open spec fn relative_spelling(stripped: Option<Seq<char>>) -> Option<Seq<char>> {
    match stripped {
        Some(rel) => Some(forward_slashes(rel)),
        None => None,
    }
}

/// The file's path below the configuration root, with forward slashes: as
/// given when it lies below the root as given, else as the canonical forms
/// of both give it, when the caller could canonicalize both.
pub open spec fn config_relative_spec(
    file_path: Seq<char>,
    config_root: Seq<char>,
    canonical: Option<(Seq<char>, Seq<char>)>,
) -> Option<Seq<char>> {
    match stripped_path(file_path, config_root) {
        Some(rel) => Some(forward_slashes(rel)),
        None => match canonical {
            Some((file, root)) => relative_spelling(stripped_path(file, root)),
            None => None,
        },
    }
}

pub open spec fn canonical_view(canonical: Option<(String, String)>) -> Option<(Seq<char>, Seq<char>)> {
    match canonical {
        Some((file, root)) => Some((file@, root@)),
        None => None,
    }
}

/// The file's path relative to the configuration root. `canonical` holds
/// the canonical forms of the file path and of the root, when the caller
/// could resolve both.
pub fn config_relative_path(
    file_path: &str,
    config_root: &str,
    canonical: Option<(String, String)>,
) -> (r: Option<String>)
    ensures
        option_text(r) == config_relative_spec(file_path@, config_root@, canonical_view(canonical)),
{
    match strip_path_prefix(file_path, config_root) {
        Some(rel) => Some(normalize_relative_path(rel.as_str())),
        None => match canonical {
            Some((file, root)) => match strip_path_prefix(file.as_str(), root.as_str()) {
                Some(rel) => Some(normalize_relative_path(rel.as_str())),
                None => None,
            },
            None => None,
        },
    }
}

/// The path a file path is resolved against the configuration root by: a
/// relative path is taken below the package root.
pub open spec fn settings_candidate(file_path: Seq<char>, package_root: Seq<char>) -> Seq<char> {
    if path_is_relative(file_path) {
        joined_path(package_root, file_path)
    } else {
        file_path
    }
}

/// The configuration-relative spelling of a file path the compiler
/// reported. A relative path is read as relative to the configuration root
/// when the file exists there, else as relative to the package root, and
/// kept as written when neither resolves; an absolute path must lie below
/// the configuration root.
pub open spec fn config_relative_for_settings_spec(
    file_path: Seq<char>,
    config_root: Seq<char>,
    package_root: Seq<char>,
    exists_below_config_root: bool,
    canonical: Option<(Seq<char>, Seq<char>)>,
) -> Option<Seq<char>> {
    if path_is_relative(file_path) {
        if exists_below_config_root {
            Some(forward_slashes(file_path))
        } else {
            match config_relative_spec(
                joined_path(package_root, file_path),
                config_root,
                canonical,
            ) {
                Some(rel) => Some(rel),
                None => Some(forward_slashes(file_path)),
            }
        }
    } else {
        config_relative_spec(file_path, config_root, canonical)
    }
}

/// The path [`config_relative_path_for_settings`] resolves against the
/// configuration root, so that the caller can canonicalize it.
pub fn settings_candidate_path(file_path: &str, package_root: &str) -> (r: String)
    ensures
        r@ == settings_candidate(file_path@, package_root@),
{
    if is_relative_path(file_path) {
        join_path(package_root, file_path)
    } else {
        file_path.to_owned()
    }
}

/// The configuration-relative spelling of a file path the compiler
/// reported. `exists_below_config_root` says whether the configuration
/// root joined with the path names an existing file; `canonical` holds the
/// canonical forms of [`settings_candidate_path`] and of the configuration
/// root, when the caller could resolve both.
pub fn config_relative_path_for_settings(
    file_path: &str,
    config_root: &str,
    package_root: &str,
    exists_below_config_root: bool,
    canonical: Option<(String, String)>,
) -> (r: Option<String>)
    ensures
        option_text(r) == config_relative_for_settings_spec(
            file_path@,
            config_root@,
            package_root@,
            exists_below_config_root,
            canonical_view(canonical),
        ),
{
    if is_relative_path(file_path) {
        let workspace_relative = normalize_relative_path(file_path);
        if exists_below_config_root {
            return Some(workspace_relative);
        }
        let package_relative = join_path(package_root, file_path);
        match config_relative_path(package_relative.as_str(), config_root, canonical) {
            Some(rel) => Some(rel),
            None => Some(workspace_relative),
        }
    } else {
        config_relative_path(file_path, config_root, canonical)
    }
}

} // verus!
