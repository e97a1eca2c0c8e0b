//! Names of the per-target findings cache files, and the fingerprint of a
//! `cargo check` scope.

use vstd::prelude::*;
use std::collections::hash_map::DefaultHasher;
use std::hash::Hash;
use crate::constants::FINGERPRINT_HEX_WIDTH;

verus! {

/// Which build of a crate a cache entry belongs to.
#[derive(Debug, Clone, Copy, Hash, PartialEq, Eq, Structural)]
pub enum CacheBuildKind {
    Library,
    Test,
}

/// The lowercase hexadecimal digit for `d`.
pub open spec fn hex_digit(d: int) -> char {
    if d == 0 { '0' } else if d == 1 { '1' } else if d == 2 { '2' } else if d == 3 { '3' }
    else if d == 4 { '4' } else if d == 5 { '5' } else if d == 6 { '6' } else if d == 7 { '7' }
    else if d == 8 { '8' } else if d == 9 { '9' } else if d == 10 { 'a' } else if d == 11 { 'b' }
    else if d == 12 { 'c' } else if d == 13 { 'd' } else if d == 14 { 'e' } else { 'f' }
}

/// The last `width` hexadecimal digits of `h`, most significant first,
/// padded with zeros.
pub open spec fn hex_text(h: nat, width: nat) -> Seq<char>
    decreases width,
{
    if width == 0 {
        Seq::empty()
    } else {
        hex_text(h / 16, (width - 1) as nat).push(hex_digit((h % 16) as int))
    }
}

/// `{fingerprint:016x}.json`.
pub open spec fn cache_filename_spec(fingerprint: u64) -> Seq<char> {
    hex_text(fingerprint as nat, FINGERPRINT_HEX_WIDTH as nat) + ".json"@
}

fn hex_char(d: u64) -> (c: char)
    requires
        d < 16,
    ensures
        c == hex_digit(d as int),
{
    match d {
        0 => '0',
        1 => '1',
        2 => '2',
        3 => '3',
        4 => '4',
        5 => '5',
        6 => '6',
        7 => '7',
        8 => '8',
        9 => '9',
        10 => 'a',
        11 => 'b',
        12 => 'c',
        13 => 'd',
        14 => 'e',
        _ => 'f',
    }
}

fn hex_chars(h: u64, width: usize) -> (v: Vec<char>)
    ensures
        v@ == hex_text(h as nat, width as nat),
    decreases width,
{
    if width == 0 {
        Vec::new()
    } else {
        let mut v = hex_chars(h / 16, width - 1);
        v.push(hex_char(h % 16));
        v
    }
}

/// The cache file name for a fingerprint: the fingerprint as sixteen
/// zero-padded lowercase hexadecimal digits, then `.json`.
pub fn cache_filename_from_fingerprint(fingerprint: u64) -> (name: String)
    ensures
        name@ == cache_filename_spec(fingerprint),
{
    let digits = hex_chars(fingerprint, FINGERPRINT_HEX_WIDTH);
    let mut name = crate::text::string_from_chars(&digits);
    name.append(".json");
    proof {
        reveal_strlit(".json");
    }
    name
}

/// Feeds a path to the hasher the way `Path`'s `Hash` impl does.
///
/// Wraps `<std::path::Path as Hash>::hash`. What it writes into the hasher
/// depends on the path's components and on the machine's byte order, and
/// `DefaultHasher::write_str` bypasses the write-sequence model vstd gives
/// the hasher, so nothing is stated of the hasher afterwards.
#[verifier::external_body]
fn hash_path(hasher: &mut DefaultHasher, path: &str) {
    std::path::Path::new(path).hash(hasher);
}

/// Feeds a build kind to the hasher through its derived `Hash` impl, which
/// writes the variant's discriminant in the machine's byte order; nothing is
/// stated of the hasher afterwards.
#[verifier::external_body]
fn hash_build_kind(hasher: &mut DefaultHasher, build_kind: CacheBuildKind) {
    build_kind.hash(hasher);
}

/// The cache file for one build of one crate: the default hasher's digest
/// of the package root, the crate root file and the build kind, in that
/// order, written by [`cache_filename_from_fingerprint`].
pub fn cache_filename_for(
    package_root: &str,
    crate_root_file: &str,
    build_kind: CacheBuildKind,
) -> (name: String)
    ensures
        exists|fingerprint: u64| name@ == cache_filename_spec(fingerprint),
{
    let mut hasher = DefaultHasher::new();
    hash_path(&mut hasher, package_root);
    hash_path(&mut hasher, crate_root_file);
    hash_build_kind(&mut hasher, build_kind);
    let fingerprint = std::hash::Hasher::finish(&hasher);
    cache_filename_from_fingerprint(fingerprint)
}

/// A fingerprint as sixteen zero-padded lowercase hexadecimal digits.
pub fn fingerprint_text(fingerprint: u64) -> (text: String)
    ensures
        text@ == hex_text(fingerprint as nat, FINGERPRINT_HEX_WIDTH as nat),
{
    let digits = hex_chars(fingerprint, FINGERPRINT_HEX_WIDTH);
    crate::text::string_from_chars(&digits)
}

/// Feeds a byte string to the hasher through the `Hash` impl of `[u8]`,
/// which writes its length and then its bytes.
///
/// Wraps `<[u8] as Hash>::hash`; the length is written in the machine's
/// byte order, so nothing is stated of the hasher afterwards.
#[verifier::external_body]
fn hash_bytes(hasher: &mut DefaultHasher, bytes: &[u8]) {
    bytes.hash(hasher);
}

/// The fingerprint of a `cargo check` scope: the default hasher's digest of
/// the manifest path and then of each cargo argument's encoded bytes, in
/// order, as sixteen hexadecimal digits.
pub fn scope_fingerprint_for(manifest_path: &str, cargo_args: &Vec<Vec<u8>>) -> (text: String)
    ensures
        exists|fingerprint: u64| text@ == hex_text(fingerprint as nat, FINGERPRINT_HEX_WIDTH as nat),
{
    let mut hasher = DefaultHasher::new();
    hash_path(&mut hasher, manifest_path);
    let mut i: usize = 0;
    while i < cargo_args.len()
        invariant
            i <= cargo_args.len(),
        decreases cargo_args.len() - i,
    {
        hash_bytes(&mut hasher, cargo_args[i].as_slice());
        i = i + 1;
    }
    let fingerprint = std::hash::Hasher::finish(&hasher);
    fingerprint_text(fingerprint)
}

} // verus!
