//! Error values shared by the bundle codec and the virtual filesystem.

use vstd::prelude::*;

verus! {

/// The input is not acceptable: a module that does not parse, a path
/// outside the configured prefix, an archive path with a component that is
/// not a plain name.
#[derive(Clone, Copy, Debug, PartialEq, Eq, Structural)]
pub struct InvalidInput;

/// Why a read-only bundled file refuses or fails an operation.
#[derive(Clone, Copy, Debug, PartialEq, Eq, Structural)]
pub enum Errno {
    /// The archive no longer holds the member.
    Noent,
    /// The operation or an argument is not valid for a read-only file.
    Inval,
    /// The member's data could not be read in full.
    Io,
    /// A size does not fit the machine's word.
    Overflow,
}

} // verus!
