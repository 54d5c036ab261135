//! The parts of a path's text, as `std::path` reads them.
//!
//! How a path divides into components is the standard library's business
//! and differs between platforms. The library names the parts and calls
//! the standard library for them.

use vstd::prelude::*;

verus! {

/// What `std::path::Path::file_name` gives for the path `path`.
pub uninterp spec fn file_name_of(path: Seq<char>) -> Option<Seq<char>>;

/// What `std::path::Path::parent` gives for the path `path`.
pub uninterp spec fn parent_of(path: Seq<char>) -> Option<Seq<char>>;

/// What `std::path::Path::extension` gives for the path `path`.
pub uninterp spec fn extension_of(path: Seq<char>) -> Option<Seq<char>>;

/// What `std::path::Path::file_stem` gives for the path `path`.
pub uninterp spec fn file_stem_of(path: Seq<char>) -> Option<Seq<char>>;

/// The text of an optional string.
pub open spec fn text_of(s: Option<String>) -> Option<Seq<char>> {
    match s {
        Some(t) => Some(t@),
        None => None,
    }
}

/// Calls `std::path::Path::file_name`: the last component of the path,
/// if it has one that is a name.
#[verifier::external_body]
pub(crate) fn file_name(path: &str) -> (name: Option<String>)
    ensures
        text_of(name) == file_name_of(path@),
{
    let part = std::path::Path::new(path).file_name()?;
    Some(part.to_string_lossy().into_owned())
}

/// Calls `std::path::Path::parent`: the path without its last component,
/// if it has one.
#[verifier::external_body]
pub(crate) fn parent(path: &str) -> (dir: Option<String>)
    ensures
        text_of(dir) == parent_of(path@),
{
    let part = std::path::Path::new(path).parent()?;
    Some(part.to_string_lossy().into_owned())
}

/// Calls `std::path::Path::extension`: what follows the last dot of the
/// file name, if the name has a dot that is not its first character.
#[verifier::external_body]
pub(crate) fn extension(path: &str) -> (ext: Option<String>)
    ensures
        text_of(ext) == extension_of(path@),
{
    let part = std::path::Path::new(path).extension()?;
    Some(part.to_string_lossy().into_owned())
}

/// Calls `std::path::Path::file_stem`: the file name without its
/// extension.
#[verifier::external_body]
pub(crate) fn file_stem(path: &str) -> (stem: Option<String>)
    ensures
        text_of(stem) == file_stem_of(path@),
{
    let part = std::path::Path::new(path).file_stem()?;
    Some(part.to_string_lossy().into_owned())
}

/// The text, or the empty text where there is none.
pub open spec fn or_empty(text: Option<Seq<char>>) -> Seq<char> {
    match text {
        Some(t) => t,
        None => Seq::empty(),
    }
}

/// The string, or an empty string where there is none.
pub fn string_or_empty(s: Option<String>) -> (out: String)
    ensures
        out@ == or_empty(text_of(s)),
{
    match s {
        Some(t) => t,
        None => String::new(),
    }
}

} // verus!
