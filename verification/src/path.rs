//! Paths as the standard library splits them.

use std::path::Component;
use std::path::Path;
use vstd::prelude::*;

verus! {

/// One component of a path.
#[derive(Clone, Debug, PartialEq, Eq)]
pub enum PathPart {
    /// A volume or drive prefix.
    Prefix,
    /// The root directory.
    RootDir,
    /// A leading `.`.
    CurDir,
    /// A `..`.
    ParentDir,
    /// An ordinary name.
    Normal(String),
}

/// A path component with its name as a sequence of characters.
pub enum PartView {
    Prefix,
    RootDir,
    CurDir,
    ParentDir,
    Normal(Seq<char>),
}

impl View for PathPart {
    type V = PartView;

    open spec fn view(&self) -> PartView {
        match self {
            PathPart::Prefix => PartView::Prefix,
            PathPart::RootDir => PartView::RootDir,
            PathPart::CurDir => PartView::CurDir,
            PathPart::ParentDir => PartView::ParentDir,
            PathPart::Normal(name) => PartView::Normal(name@),
        }
    }
}

/// The views of a sequence of components.
pub open spec fn parts_view(parts: Seq<PathPart>) -> Seq<PartView> {
    Seq::new(parts.len(), |i: int| parts[i]@)
}

/// The components `std::path::Path::components` yields for a path.
pub uninterp spec fn path_components(path: Seq<char>) -> Seq<PartView>;

/// What `std::path::Path::strip_prefix` leaves of a path, if anything.
pub uninterp spec fn path_strip_prefix(path: Seq<char>, prefix: Seq<char>) -> Option<Seq<char>>;

/// What `std::path::Path::ancestors` yields for a path: the path itself,
/// then each parent in turn.
pub uninterp spec fn path_ancestors(path: Seq<char>) -> Seq<Seq<char>>;

/// The texts of a sequence of strings.
pub open spec fn texts(items: Seq<String>) -> Seq<Seq<char>> {
    Seq::new(items.len(), |i: int| items[i]@)
}

/// Calls `std::path::Path::components` and hands out each component as a
/// value of this library. Trusted: the result is what that iterator
/// yields, in its order.
#[verifier::external_body]
pub(crate) fn components(path: &str) -> (parts: Vec<PathPart>)
    ensures
        parts_view(parts@) == path_components(path@),
{
    Path::new(path).components().map(|c| match c {
        Component::Prefix(_) => PathPart::Prefix,
        Component::RootDir => PathPart::RootDir,
        Component::CurDir => PathPart::CurDir,
        Component::ParentDir => PathPart::ParentDir,
        Component::Normal(name) => PathPart::Normal(name.to_string_lossy().into_owned()),
    }).collect()
}

/// Calls `std::path::Path::strip_prefix`. Trusted: the result is the rest
/// of the path where the prefix matches, and nothing where it does not.
#[verifier::external_body]
pub(crate) fn strip_prefix(path: &str, prefix: &str) -> (rest: Option<String>)
    ensures
        match rest {
            Some(r) => path_strip_prefix(path@, prefix@) == Some(r@),
            None => path_strip_prefix(path@, prefix@).is_none(),
        },
{
    Path::new(path).strip_prefix(prefix).ok().map(|rest| rest.to_string_lossy().into_owned())
}

/// Calls `std::path::Path::ancestors`. Trusted: the result is what that
/// iterator yields, in its order.
#[verifier::external_body]
pub(crate) fn ancestors(path: &str) -> (all: Vec<String>)
    ensures
        texts(all@) == path_ancestors(path@),
{
    Path::new(path).ancestors().map(|a| a.to_string_lossy().into_owned()).collect()
}

} // verus!
