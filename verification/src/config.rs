//! The deployment configuration that a bundle may carry.

use vstd::prelude::*;

verus! {

/// Where a standard stream of the workload comes from or goes to.
#[derive(Clone, Debug, PartialEq, Eq)]
pub enum HandleFrom {
    /// Nowhere: reads find the end, writes are discarded.
    Null,
    /// The loader's own stream.
    Inherit,
    /// A file of the host, by its path.
    File(String),
    /// A file of the bundle, by its path in it. Standard input only: the
    /// bundle is read-only.
    Bundle(String),
}

/// A stream's source or sink with its path as a sequence of characters.
pub enum HandleView {
    Null,
    Inherit,
    File(Seq<char>),
    Bundle(Seq<char>),
}

impl View for HandleFrom {
    type V = HandleView;

    open spec fn view(&self) -> HandleView {
        match self {
            HandleFrom::Null => HandleView::Null,
            HandleFrom::Inherit => HandleView::Inherit,
            HandleFrom::File(path) => HandleView::File(path@),
            HandleFrom::Bundle(path) => HandleView::Bundle(path@),
        }
    }
}

impl Default for HandleFrom {
    /// A stream that nothing is said of is the loader's own.
    fn default() -> (handle: Self)
        ensures
            handle == HandleFrom::Inherit,
    {
        HandleFrom::Inherit
    }
}

/// The standard streams of a workload.
#[derive(Clone, Debug, PartialEq, Eq)]
pub struct DeployConfig {
    pub stdin: HandleFrom,
    pub stdout: HandleFrom,
    pub stderr: HandleFrom,
}

impl Default for DeployConfig {
    /// The configuration of a bundle that carries none.
    fn default() -> (config: Self)
        ensures
            config.stdin == HandleFrom::Inherit,
            config.stdout == HandleFrom::Inherit,
            config.stderr == HandleFrom::Inherit,
    {
        DeployConfig {
            stdin: HandleFrom::Inherit,
            stdout: HandleFrom::Inherit,
            stderr: HandleFrom::Inherit,
        }
    }
}

} // verus!
