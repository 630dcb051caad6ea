//! What the loader decides before and while a workload runs: what the
//! bundle mounts, where the standard streams lead, in which order the
//! engine is driven and which error each failure becomes.

use crate::archive::listing_of;
use crate::bundle::parse;
use crate::bundle::parsed;
use crate::bundle::RESOURCES_SECTION;
use crate::config::DeployConfig;
use crate::config::HandleFrom;
use crate::config::HandleView;
use crate::path::path_components;
use crate::virtfs::tree::empty_tree;
use crate::virtfs::tree::mount_spec;
use crate::virtfs::file::contents_spec;
use crate::virtfs::file::FileView;
use crate::virtfs::MountError;
use crate::virtfs::TarDirEntry;
use crate::virtfs::TarFileContents;
use crate::virtfs::tree::Tree;
use std::rc::Rc;
use vstd::prelude::*;

verus! {

/// The name of the configuration document at the root of a bundle.
pub const CONFIG_FILE: &'static str = "config.yaml";

/// What went wrong in host input or output.
#[derive(Clone, Copy, Debug, PartialEq, Eq, Structural)]
pub enum IoFailure {
    /// The input is not acceptable.
    InvalidInput,
    /// The operating system gave this `errno`.
    Os(i32),
    /// Anything else.
    Other,
}

/// The error codes of workload execution.
#[derive(Clone, Copy, Debug, PartialEq, Eq, Structural)]
pub enum Error {
    /// The bundled configuration does not parse, or refers to what the
    /// bundle does not hold as a file.
    ConfigurationError,
    /// The module has no default export.
    ExportNotFound,
    /// The engine refuses the module, or its imports cannot be linked.
    InstantiationFailed,
    /// The call trapped or failed in the engine.
    CallFailed,
    /// Host input or output failed.
    IoError(IoFailure),
    /// Arguments or environment are too large.
    StringTableError,
}

impl Error {
    /// The error in words.
    pub fn message(&self) -> (text: &'static str)
        ensures
            text@ == match self {
                Error::ConfigurationError => "configuration error"@,
                Error::ExportNotFound => "export not found"@,
                Error::InstantiationFailed => "module instantiation failed"@,
                Error::CallFailed => "call failed"@,
                Error::IoError(_) => "I/O error"@,
                Error::StringTableError => "arguments or environment too large"@,
            },
    {
        match self {
            Error::ConfigurationError => "configuration error",
            Error::ExportNotFound => "export not found",
            Error::InstantiationFailed => "module instantiation failed",
            Error::CallFailed => "call failed",
            Error::IoError(_) => "I/O error",
            Error::StringTableError => "arguments or environment too large",
        }
    }
}

/// Shares a copy of some bytes by `Rc::from`. Trusted: the shared slice
/// holds the bytes it was made from.
#[verifier::external_body]
fn share(bytes: &[u8]) -> (shared: Rc<[u8]>)
    ensures
        shared@ == bytes@,
{
    Rc::from(bytes)
}

/// The tree after the archives of some sections were mounted into it one
/// after the other, or the first failure.
pub open spec fn mount_sections_spec(m: Tree, sections: Seq<Seq<u8>>) -> Result<Tree, MountError>
    decreases sections.len(),
{
    if sections.len() == 0 {
        Ok(m)
    } else {
        match mount_spec(m, sections[0], listing_of(sections[0])) {
            Ok(next) => mount_sections_spec(next, sections.drop_first()),
            Err(e) => Err(e),
        }
    }
}

/// The error that a failure to mount becomes.
pub open spec fn mount_error(e: MountError) -> Error {
    match e {
        MountError::Unreadable => Error::IoError(IoFailure::Other),
        MountError::InvalidInput => Error::IoError(IoFailure::InvalidInput),
    }
}

/// Mounts the archives that the resource sections of a module carried,
/// in their order, into one tree.
pub fn mount_sections(sections: &Vec<Vec<u8>>) -> (r: Result<TarDirEntry, Error>)
    ensures
        match mount_sections_spec(
            empty_tree(),
            Seq::new(sections@.len(), |i: int| sections@[i]@),
        ) {
            Ok(tree) => r matches Ok(root) && root@ == tree && root.wf(),
            Err(e) => r == Err::<TarDirEntry, Error>(mount_error(e)),
        },
{
    let ghost all = Seq::new(sections@.len(), |i: int| sections@[i]@);
    let mut root = TarDirEntry::empty_directory();
    let mut i: usize = 0;
    proof {
        assert(all.skip(0) =~= all);
    }
    while i < sections.len()
        invariant
            i <= sections.len(),
            all == Seq::new(sections@.len(), |i: int| sections@[i]@),
            root.wf(),
            mount_sections_spec(empty_tree(), all) == mount_sections_spec(
                root@,
                all.skip(i as int),
            ),
        decreases sections.len() - i,
    {
        proof {
            assert(all.skip(i as int)[0] == all[i as int]);
            assert(all.skip(i as int).drop_first() =~= all.skip(i as int + 1));
        }
        match root.populate_all(share(sections[i].as_slice())) {
            Ok(()) => {},
            Err(MountError::Unreadable) => {
                return Err(Error::IoError(IoFailure::Other));
            },
            Err(MountError::InvalidInput) => {
                return Err(Error::IoError(IoFailure::InvalidInput));
            },
        }
        i += 1;
    }
    Ok(root)
}

/// Mounts what a module bundles: the archives of its resource sections,
/// as [`parse`] hands them out. A module that does not parse, and a
/// bundle that does not mount, are errors of input; a module without
/// resources mounts an empty tree.
pub fn load(bytes: &[u8]) -> (r: Result<TarDirEntry, Error>)
    ensures
        match parsed(bytes@, RESOURCES_SECTION@) {
            Some(split) => match mount_sections_spec(empty_tree(), split.custom) {
                Ok(tree) => r matches Ok(root) && root@ == tree && root.wf(),
                Err(e) => r == Err::<TarDirEntry, Error>(mount_error(e)),
            },
            None => r == Err::<TarDirEntry, Error>(Error::IoError(IoFailure::InvalidInput)),
        },
{
    match parse(bytes, RESOURCES_SECTION) {
        Ok(split) => mount_sections(&split.custom),
        Err(_) => Err(Error::IoError(IoFailure::InvalidInput)),
    }
}

/// Where the workload's standard input comes from.
#[derive(Debug, PartialEq)]
pub enum Source<'a> {
    /// Nowhere.
    Null,
    /// The loader's own standard input.
    Inherit,
    /// A file of the host, to be opened for reading.
    File(&'a str),
    /// A file of the bundle.
    Bundle(&'a TarFileContents),
}

/// Where a standard output of the workload goes to.
#[derive(Debug, PartialEq)]
pub enum Sink<'a> {
    /// Nowhere.
    Null,
    /// The loader's own stream.
    Inherit,
    /// A file of the host, to be created or truncated and written.
    File(&'a str),
}

/// The standard streams of a workload, resolved.
#[derive(Debug, PartialEq)]
pub struct Stdio<'a> {
    pub stdin: Source<'a>,
    pub stdout: Sink<'a>,
    pub stderr: Sink<'a>,
}

/// A source with its path or its file as plain values.
pub enum SourceView {
    Null,
    Inherit,
    File(Seq<char>),
    Bundle(FileView),
}

/// A sink with its path as a plain value.
pub enum SinkView {
    Null,
    Inherit,
    File(Seq<char>),
}

/// The resolved streams as plain values.
pub struct StdioView {
    pub stdin: SourceView,
    pub stdout: SinkView,
    pub stderr: SinkView,
}

impl<'a> View for Source<'a> {
    type V = SourceView;

    open spec fn view(&self) -> SourceView {
        match self {
            Source::Null => SourceView::Null,
            Source::Inherit => SourceView::Inherit,
            Source::File(path) => SourceView::File(path@),
            Source::Bundle(file) => SourceView::Bundle(file@),
        }
    }
}

impl<'a> View for Sink<'a> {
    type V = SinkView;

    open spec fn view(&self) -> SinkView {
        match self {
            Sink::Null => SinkView::Null,
            Sink::Inherit => SinkView::Inherit,
            Sink::File(path) => SinkView::File(path@),
        }
    }
}

impl<'a> View for Stdio<'a> {
    type V = StdioView;

    open spec fn view(&self) -> StdioView {
        StdioView { stdin: self.stdin@, stdout: self.stdout@, stderr: self.stderr@ }
    }
}

/// What the configured source of standard input resolves to against a
/// tree: a file of the bundle must be there, and be a file.
pub open spec fn source_spec(handle: HandleView, root: TarDirEntry) -> Result<SourceView, Error> {
    match handle {
        HandleView::Null => Ok(SourceView::Null),
        HandleView::Inherit => Ok(SourceView::Inherit),
        HandleView::File(path) => Ok(SourceView::File(path)),
        HandleView::Bundle(path) => match root.lookup_spec(path_components(path)) {
            Some(TarDirEntry::File(file)) => Ok(SourceView::Bundle(file@)),
            _ => Err(Error::ConfigurationError),
        },
    }
}

/// What the configured sink of a standard output resolves to: the bundle
/// is read-only, and cannot hold one.
pub open spec fn sink_spec(handle: HandleView) -> Result<SinkView, Error> {
    match handle {
        HandleView::Null => Ok(SinkView::Null),
        HandleView::Inherit => Ok(SinkView::Inherit),
        HandleView::File(path) => Ok(SinkView::File(path)),
        HandleView::Bundle(_) => Err(Error::ConfigurationError),
    }
}

/// What the three streams resolve to, input first: the first that cannot
/// be resolved fails the whole.
pub open spec fn stdio_spec(
    stdin: HandleView,
    stdout: HandleView,
    stderr: HandleView,
    root: TarDirEntry,
) -> Result<StdioView, Error> {
    match source_spec(stdin, root) {
        Ok(stdin) => match sink_spec(stdout) {
            Ok(stdout) => match sink_spec(stderr) {
                Ok(stderr) => Ok(StdioView { stdin, stdout, stderr }),
                Err(e) => Err(e),
            },
            Err(e) => Err(e),
        },
        Err(e) => Err(e),
    }
}

/// Takes what a lookup in the bundle found for a file: a file is taken,
/// a directory is a configuration error, and nothing is nothing.
pub fn file_found<'a>(found: Option<&'a TarDirEntry>) -> (r: Result<
    Option<&'a TarFileContents>,
    Error,
>)
    ensures
        match found {
            Some(TarDirEntry::File(file)) => r matches Ok(Some(f)) && *f == **file,
            Some(TarDirEntry::Directory(_)) => r == Err::<Option<&TarFileContents>, Error>(
                Error::ConfigurationError,
            ),
            None => r == Ok::<Option<&TarFileContents>, Error>(None),
        },
{
    match found {
        Some(TarDirEntry::File(file)) => Ok(Some(&**file)),
        Some(TarDirEntry::Directory(_)) => Err(Error::ConfigurationError),
        None => Ok(None),
    }
}

/// Resolves the configured source of standard input.
///
/// It fails with a configuration error where the configuration names a
/// file of the bundle that the bundle does not hold, or holds as a
/// directory; otherwise it yields the configured source, a bundled file
/// as the file that the lookup finds.
pub fn resolve_source<'a>(handle: &'a HandleFrom, root: &'a TarDirEntry) -> (r: Result<
    Source<'a>,
    Error,
>)
    ensures
        match source_spec(handle@, *root) {
            Ok(source) => r matches Ok(found) && found@ == source,
            Err(e) => r == Err::<Source, Error>(e),
        },
{
    match handle {
        HandleFrom::Null => Ok(Source::Null),
        HandleFrom::Inherit => Ok(Source::Inherit),
        HandleFrom::File(path) => Ok(Source::File(path.as_str())),
        HandleFrom::Bundle(path) => match file_found(root.lookup(path.as_str())) {
            Ok(Some(file)) => Ok(Source::Bundle(file)),
            _ => Err(Error::ConfigurationError),
        },
    }
}

/// Resolves the configured sink of a standard output.
///
/// The bundle is read-only: a sink in it is a configuration error.
pub fn resolve_sink<'a>(handle: &'a HandleFrom) -> (r: Result<Sink<'a>, Error>)
    ensures
        match sink_spec(handle@) {
            Ok(sink) => r matches Ok(found) && found@ == sink,
            Err(e) => r == Err::<Sink, Error>(e),
        },
{
    match handle {
        HandleFrom::Null => Ok(Sink::Null),
        HandleFrom::Inherit => Ok(Sink::Inherit),
        HandleFrom::File(path) => Ok(Sink::File(path.as_str())),
        HandleFrom::Bundle(_) => Err(Error::ConfigurationError),
    }
}

/// Resolves the three standard streams, input first: the first that
/// cannot be resolved fails the whole.
pub fn resolve_stdio<'a>(config: &'a DeployConfig, root: &'a TarDirEntry) -> (r: Result<
    Stdio<'a>,
    Error,
>)
    ensures
        match stdio_spec(config.stdin@, config.stdout@, config.stderr@, *root) {
            Ok(stdio) => r matches Ok(found) && found@ == stdio,
            Err(e) => r == Err::<Stdio, Error>(e),
        },
{
    let stdin = match resolve_source(&config.stdin, root) {
        Ok(stdin) => stdin,
        Err(e) => {
            return Err(e);
        },
    };
    let stdout = match resolve_sink(&config.stdout) {
        Ok(stdout) => stdout,
        Err(e) => {
            return Err(e);
        },
    };
    let stderr = match resolve_sink(&config.stderr) {
        Ok(stderr) => stderr,
        Err(e) => {
            return Err(e);
        },
    };
    Ok(Stdio { stdin, stdout, stderr })
}

/// Standard input that the configuration takes from the bundle is the
/// bundled file: it resolves to the file that stands at the path, and to
/// nothing else.
pub proof fn law_bundled_stdin_is_the_file(
    path: Seq<char>,
    stdout: HandleView,
    stderr: HandleView,
    root: TarDirEntry,
)
    requires
        root.lookup_spec(path_components(path)) matches Some(TarDirEntry::File(_)),
    ensures
        source_spec(HandleView::Bundle(path), root) == Ok::<SourceView, Error>(
            SourceView::Bundle(root.lookup_spec(path_components(path)).unwrap()->File_0@),
        ),
        stdio_spec(HandleView::Bundle(path), stdout, stderr, root) matches Ok(stdio) ==> stdio.stdin
            == SourceView::Bundle(root.lookup_spec(path_components(path)).unwrap()->File_0@),
{
}

/// Standard input that the configuration takes from the bundle, where the
/// bundle holds no file at the path, is a configuration error, and the
/// run ends on it before the workload is instantiated or called.
pub proof fn law_missing_stdin_ends_the_run(
    path: Seq<char>,
    stdout: HandleView,
    stderr: HandleView,
    root: TarDirEntry,
    step: Step,
)
    requires
        !(root.lookup_spec(path_components(path)) matches Some(TarDirEntry::File(_))),
    ensures
        stdio_spec(HandleView::Bundle(path), stdout, stderr, root) == Err::<StdioView, Error>(
            Error::ConfigurationError,
        ),
        advance_spec(step, Outcome::Refused(Error::ConfigurationError)) == Next::Fail(
            Error::ConfigurationError,
        ),
{
}

/// A stream that the bundle is to supply is resolved only where the
/// bundle holds it as a file: whatever the tree, streams resolve either
/// to what the configuration names or to a configuration error.
pub proof fn law_streams_resolve_or_misconfigured(
    stdin: HandleView,
    stdout: HandleView,
    stderr: HandleView,
    root: TarDirEntry,
)
    ensures
        match stdio_spec(stdin, stdout, stderr, root) {
            Ok(stdio) => {
                &&& stdin matches HandleView::Bundle(path) ==> root.lookup_spec(
                    path_components(path),
                ) matches Some(TarDirEntry::File(file)) && stdio.stdin == SourceView::Bundle(
                    file@,
                )
                &&& !(stdout is Bundle)
                &&& !(stderr is Bundle)
            },
            Err(e) => e == Error::ConfigurationError,
        },
{
}

/// Finds the configuration document of a bundle: the file named
/// `config.yaml` at its root. A bundle without one has none; one that
/// holds a directory of that name is misconfigured.
pub fn config_file<'a>(root: &'a TarDirEntry) -> (r: Result<Option<&'a TarFileContents>, Error>)
    ensures
        match root.lookup_spec(path_components(CONFIG_FILE@)) {
            Some(TarDirEntry::File(file)) => r matches Ok(Some(f)) && *f == *file,
            Some(TarDirEntry::Directory(_)) => r == Err::<Option<&TarFileContents>, Error>(
                Error::ConfigurationError,
            ),
            None => r == Ok::<Option<&TarFileContents>, Error>(None),
        },
{
    file_found(root.lookup(CONFIG_FILE))
}

/// The bytes of the configuration document of a bundle: those of the
/// file named `config.yaml` at its root. A bundle without one has none;
/// one that holds a directory of that name, or a file that cannot be
/// read, is misconfigured.
pub open spec fn document_spec(root: TarDirEntry) -> Result<Option<Seq<u8>>, Error> {
    match root.lookup_spec(path_components(CONFIG_FILE@)) {
        Some(TarDirEntry::File(file)) => match contents_spec(file@) {
            Ok(bytes) => Ok(Some(bytes)),
            Err(_) => Err(Error::ConfigurationError),
        },
        Some(TarDirEntry::Directory(_)) => Err(Error::ConfigurationError),
        None => Ok(None),
    }
}

/// Reads the configuration document of a bundle: see [`document_spec`].
pub fn config_document(root: &TarDirEntry) -> (r: Result<Option<Vec<u8>>, Error>)
    ensures
        match document_spec(*root) {
            Ok(Some(bytes)) => r matches Ok(Some(found)) && found@ == bytes,
            Ok(None) => r == Ok::<Option<Vec<u8>>, Error>(None),
            Err(e) => r == Err::<Option<Vec<u8>>, Error>(e),
        },
{
    match config_file(root) {
        Ok(Some(file)) => match file.contents() {
            Ok(bytes) => Ok(Some(bytes)),
            Err(_) => Err(Error::ConfigurationError),
        },
        Ok(None) => Ok(None),
        Err(e) => Err(e),
    }
}

/// The configuration of a run, from what was made of the configuration
/// document: a bundle without a document has the configuration that
/// inherits every stream, and a document that does not parse is a
/// configuration error.
pub fn configuration(read: Option<Option<DeployConfig>>) -> (r: Result<DeployConfig, Error>)
    ensures
        match read {
            Some(Some(config)) => r == Ok::<DeployConfig, Error>(config),
            Some(None) => r == Err::<DeployConfig, Error>(Error::ConfigurationError),
            None => r matches Ok(config) && config.stdin == HandleFrom::Inherit && config.stdout
                == HandleFrom::Inherit && config.stderr == HandleFrom::Inherit,
        },
{
    match read {
        Some(Some(config)) => Ok(config),
        Some(None) => Err(Error::ConfigurationError),
        None => Ok(
            DeployConfig {
                stdin: HandleFrom::Inherit,
                stdout: HandleFrom::Inherit,
                stderr: HandleFrom::Inherit,
            },
        ),
    }
}

/// A step of a run, in the order in which the steps are taken.
#[derive(Clone, Copy, Debug, PartialEq, Eq, Structural)]
pub enum Step {
    /// Configure the engine: dynamic memory, nested modules, several
    /// memories.
    Configure,
    /// Link the WASI imports.
    Link,
    /// Mount the bundle and read its configuration.
    Mount,
    /// Hand the arguments to the WASI context.
    Args,
    /// Hand the environment to the WASI context.
    Envs,
    /// Resolve the standard streams and open what they lead to.
    Stdio,
    /// Preopen the root of the bundle at `.`.
    Preopen,
    /// Instantiate the module.
    Instantiate,
    /// Resolve the default export.
    Resolve,
    /// Call the default export without arguments.
    Invoke,
}

/// What the loader does after a step.
#[derive(Clone, Copy, Debug, PartialEq, Eq, Structural)]
pub enum Next {
    /// Take this step.
    Take(Step),
    /// Return what the call returned.
    Return,
    /// Give up with this error.
    Fail(Error),
}

/// How a step ended.
#[derive(Clone, Copy, Debug, PartialEq, Eq, Structural)]
pub enum Outcome {
    /// The step was taken.
    Done,
    /// The step failed, with this failure of input or output if it was
    /// one.
    Failed(Option<IoFailure>),
    /// The step failed with an error of the loader's own making.
    Refused(Error),
}

/// The step that follows a step, if any.
pub open spec fn step_after(step: Step) -> Option<Step> {
    match step {
        Step::Configure => Some(Step::Link),
        Step::Link => Some(Step::Mount),
        Step::Mount => Some(Step::Args),
        Step::Args => Some(Step::Envs),
        Step::Envs => Some(Step::Stdio),
        Step::Stdio => Some(Step::Preopen),
        Step::Preopen => Some(Step::Instantiate),
        Step::Instantiate => Some(Step::Resolve),
        Step::Resolve => Some(Step::Invoke),
        Step::Invoke => None,
    }
}

/// The error that the failure of a step becomes.
pub open spec fn failure_of(step: Step, cause: Option<IoFailure>) -> Error {
    match step {
        Step::Configure => Error::InstantiationFailed,
        Step::Link => Error::InstantiationFailed,
        Step::Mount => Error::IoError(
            match cause {
                Some(io) => io,
                None => IoFailure::Other,
            },
        ),
        Step::Args => Error::StringTableError,
        Step::Envs => Error::StringTableError,
        Step::Stdio => Error::IoError(
            match cause {
                Some(io) => io,
                None => IoFailure::Other,
            },
        ),
        Step::Preopen => Error::IoError(
            match cause {
                Some(io) => io,
                None => IoFailure::Other,
            },
        ),
        Step::Instantiate => Error::InstantiationFailed,
        Step::Resolve => Error::ExportNotFound,
        Step::Invoke => Error::CallFailed,
    }
}

/// What follows a step that ended in this way.
pub open spec fn advance_spec(step: Step, outcome: Outcome) -> Next {
    match outcome {
        Outcome::Done => match step_after(step) {
            Some(next) => Next::Take(next),
            None => Next::Return,
        },
        Outcome::Failed(cause) => Next::Fail(failure_of(step, cause)),
        Outcome::Refused(e) => Next::Fail(e),
    }
}

/// The first step of a run.
pub fn first_step() -> (step: Step)
    ensures
        step == Step::Configure,
{
    Step::Configure
}

/// Decides what follows a step of a run: the next step in order, the
/// return after the call, or the error that the step's failure becomes.
pub fn advance(step: Step, outcome: Outcome) -> (next: Next)
    ensures
        next == advance_spec(step, outcome),
{
    match outcome {
        Outcome::Done => match step {
            Step::Configure => Next::Take(Step::Link),
            Step::Link => Next::Take(Step::Mount),
            Step::Mount => Next::Take(Step::Args),
            Step::Args => Next::Take(Step::Envs),
            Step::Envs => Next::Take(Step::Stdio),
            Step::Stdio => Next::Take(Step::Preopen),
            Step::Preopen => Next::Take(Step::Instantiate),
            Step::Instantiate => Next::Take(Step::Resolve),
            Step::Resolve => Next::Take(Step::Invoke),
            Step::Invoke => Next::Return,
        },
        Outcome::Failed(cause) => {
            let io = match cause {
                Some(io) => io,
                None => IoFailure::Other,
            };
            Next::Fail(
                match step {
                    Step::Configure => Error::InstantiationFailed,
                    Step::Link => Error::InstantiationFailed,
                    Step::Mount => Error::IoError(io),
                    Step::Args => Error::StringTableError,
                    Step::Envs => Error::StringTableError,
                    Step::Stdio => Error::IoError(io),
                    Step::Preopen => Error::IoError(io),
                    Step::Instantiate => Error::InstantiationFailed,
                    Step::Resolve => Error::ExportNotFound,
                    Step::Invoke => Error::CallFailed,
                },
            )
        },
        Outcome::Refused(e) => Next::Fail(e),
    }
}

/// A step that does not end well ends the run: after a failure no step
/// is taken, the call of the workload least of all, and the run returns
/// only after the call.
pub proof fn law_failure_ends_the_run(step: Step, outcome: Outcome)
    ensures
        !(outcome is Done) ==> advance_spec(step, outcome) is Fail,
        advance_spec(step, outcome) is Return ==> step is Invoke && outcome is Done,
        advance_spec(step, outcome) == Next::Take(Step::Invoke) ==> step is Resolve
            && outcome is Done,
{
}

/// The exit code of the loader: 0 after a workload that returned, 1 after
/// any error.
pub fn exit_code(failed: bool) -> (code: i32)
    ensures
        code == if failed {
            1i32
        } else {
            0i32
        },
{
    if failed {
        1
    } else {
        0
    }
}

} // verus!
