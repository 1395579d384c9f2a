//! File paths, as far as their parts are needed.

use std::collections::hash_map::DefaultHasher;
use std::hash::Hasher;
use std::path::Path;
use vstd::prelude::*;
use vstd::string::*;
use vstd::utf8::*;

verus! {

/// What `Path::file_stem` says of a path.
pub uninterp spec fn file_stem_of(path: Seq<char>) -> Option<Seq<char>>;

/// `Path::file_stem`: the file name without its extension, by the rules of the platform that the library
/// is built for, which the claim names and does not spell out.
#[verifier::external_body]
pub(crate) fn file_stem(path: &str) -> (r: Option<String>)
    ensures
        crate::text::opt_text(r) == file_stem_of(path@),
{
    Path::new(path).file_stem().map(|s| s.to_string_lossy().into_owned())
}

/// What `Path::file_name` says of a path.
pub uninterp spec fn file_name_of(path: Seq<char>) -> Option<Seq<char>>;

/// `Path::file_name`: the last component of the path, by the rules of the platform that the library is
/// built for, which the claim names and does not spell out.
#[verifier::external_body]
pub(crate) fn file_name(path: &str) -> (r: Option<String>)
    ensures
        crate::text::opt_text(r) == file_name_of(path@),
{
    Path::new(path).file_name().map(|s| s.to_string_lossy().into_owned())
}

/// What `Path::extension` says of a path.
pub uninterp spec fn extension_of(path: Seq<char>) -> Option<Seq<char>>;

/// `Path::extension`: what follows the last dot of the file name, by the rules of the platform that the
/// library is built for, which the claim names and does not spell out.
#[verifier::external_body]
pub(crate) fn extension(path: &str) -> (r: Option<String>)
    ensures
        crate::text::opt_text(r) == extension_of(path@),
{
    Path::new(path).extension().map(|s| s.to_string_lossy().into_owned())
}

/// What `Path::parent` says of a path.
pub uninterp spec fn parent_of(path: Seq<char>) -> Option<Seq<char>>;

/// `Path::parent`: the path without its last component, by the rules of the platform that the library is
/// built for, which the claim names and does not spell out.
#[verifier::external_body]
pub(crate) fn parent(path: &str) -> (r: Option<String>)
    ensures
        crate::text::opt_text(r) == parent_of(path@),
{
    Path::new(path).parent().map(|s| s.to_string_lossy().into_owned())
}

/// What `Path::is_relative` says of a path.
pub uninterp spec fn is_relative_path(path: Seq<char>) -> bool;

/// `Path::is_relative`: the path does not say by itself where it is, by the rules of the platform that the
/// library is built for, which the claim names and does not spell out.
#[verifier::external_body]
pub(crate) fn is_relative(path: &str) -> (r: bool)
    ensures
        r == is_relative_path(path@),
{
    Path::new(path).is_relative()
}

/// The byte that ends a text in what is hashed. No text holds it, so where one ends is never in doubt.
pub open spec fn end_of_text() -> Seq<u8> {
    seq![0xffu8]
}

/// A text in what is hashed.
pub open spec fn text_writes(s: Seq<char>) -> Seq<Seq<u8>> {
    seq![encode_utf8(s), end_of_text()]
}

/// Has a text hashed.
pub(crate) fn hash_text(hasher: &mut DefaultHasher, s: &str)
    ensures
        final(hasher)@ == old(hasher)@ + text_writes(s@),
{
    hasher.write(s.as_bytes());
    let end: [u8; 1] = [0xff];
    hasher.write(&end);
    assert(end@ =~= end_of_text());
    assert(hasher@ =~= old(hasher)@ + text_writes(s@));
}

} // verus!
