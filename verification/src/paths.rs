//! Taking paths apart and putting them together.
//!
//! Paths are read as the standard library reads them on the system that
//! the library is built for. What it gives is named here, not stated: the
//! rules fill pages and differ between systems.

use vstd::prelude::*;

verus! {

/// The parent that `Path::parent` of the standard library gives for the
/// path `path`, if it gives one.
pub uninterp spec fn parent_text(path: Seq<char>) -> Option<Seq<char>>;

/// The last component that `Path::file_name` of the standard library
/// gives for the path `path`, if it gives one.
pub uninterp spec fn file_name_text(path: Seq<char>) -> Option<Seq<char>>;

/// The path that `Path::join` of the standard library gives for the path
/// `base` and the path `name`.
pub uninterp spec fn join_text(base: Seq<char>, name: Seq<char>) -> Seq<char>;

/// The directory that holds `path`.
///
/// Calls `std::path::Path::parent`, which gives nothing for a path that
/// ends in a root, and for the empty path. The argument is valid text, so
/// a part of it is too, and turning it into a `String` changes nothing.
/// The contract claims only that the result is a function of the
/// argument.
#[verifier::external_body]
pub(crate) fn parent_of(path: &str) -> (r: Option<String>)
    ensures
        match r {
            Some(parent) => parent_text(path@) == Some(parent@),
            None => parent_text(path@) is None,
        },
{
    match std::path::Path::new(path).parent() {
        Some(parent) => Some(parent.to_string_lossy().into_owned()),
        None => None,
    }
}

/// The name of the file or directory that `path` leads to.
///
/// Calls `std::path::Path::file_name`, which gives nothing for a path
/// that ends in `..`, and for a path without a component. The argument
/// is valid text, so a part of it is too, and turning it into a `String`
/// changes nothing. The contract claims only that the result is a
/// function of the argument.
#[verifier::external_body]
pub(crate) fn file_name_of(path: &str) -> (r: Option<String>)
    ensures
        match r {
            Some(name) => file_name_text(path@) == Some(name@),
            None => file_name_text(path@) is None,
        },
{
    match std::path::Path::new(path).file_name() {
        Some(name) => Some(name.to_string_lossy().into_owned()),
        None => None,
    }
}

/// The path of `name` inside the directory `base`.
///
/// Calls `std::path::Path::join`. Both arguments are valid text, so the
/// result is too, and turning it into a `String` changes nothing. The
/// contract claims only that the result is a function of the two
/// arguments.
#[verifier::external_body]
pub(crate) fn join(base: &str, name: &str) -> (r: String)
    ensures
        r@ == join_text(base@, name@),
{
    std::path::Path::new(base).join(name).to_string_lossy().into_owned()
}

/// The path that `Path::with_extension` of the standard library gives
/// for the path `path` and the extension `extension`, on the system that
/// the library is built for.
pub uninterp spec fn with_extension_text(path: Seq<char>, extension: Seq<char>) -> Seq<char>;

/// Whether `extension` holds no path separator.
pub open spec fn is_plain_extension(extension: Seq<char>) -> bool {
    forall|i: int|
        0 <= i < extension.len() ==> (#[trigger] extension[i]) != '/' && extension[i] != '\\'
}

/// `path` with its extension replaced by `extension`.
///
/// Calls `std::path::Path::with_extension`, which replaces the
/// extension of the last component of the path, or adds one where it has
/// none. It panics on an extension that holds a path separator, so such
/// an extension is not admitted. Both arguments are valid text, so the
/// result is too, and turning it back into a `String` changes nothing.
/// The contract claims only that the result is a function of the two
/// arguments.
#[verifier::external_body]
pub(crate) fn with_extension(path: &str, extension: &str) -> (r: String)
    requires
        is_plain_extension(extension@),
    ensures
        r@ == with_extension_text(path@, extension@),
{
    std::path::Path::new(path).with_extension(extension).to_string_lossy().into_owned()
}

} // verus!
