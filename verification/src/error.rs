//! What can go wrong with a Go workspace.
use vstd::prelude::*;

verus! {

/// Declares `std::io::Error`, the error of an input or output operation. It is
/// carried along unread.
#[verifier::external_type_specification]
#[verifier::external_body]
pub struct ExIoError(std::io::Error);

/// A path that cannot be used.
#[derive(Debug)]
pub enum PathError {
    /// The path holds what is not Unicode text.
    InvalidUnicode(String),
    /// `path` does not lie under `root`.
    NotParent { root: String, path: String },
}

/// What can go wrong with a Go workspace.
#[allow(inconsistent_fields)]
#[derive(Debug)]
pub enum Error {
    Read { path: String, source: std::io::Error },
    Parse { path: String, message: String },
    MissingModule(String),
    MissingManifest { path: String },
    OutsideRepository { path: String, root: String },
    DuplicateModule { name: String },
    UnknownLocalReplacement { path: String },
    MissingChecksum { path: String, version: String },
    Spawn { command: String, cwd: String, source: std::io::Error },
    Command { command: String, cwd: String, stderr: String },
    /// `source` says what the JSON reader found wrong.
    Json { command: String, cwd: String, source: String },
    Path(PathError),
}

/// The model of a `PathError`.
pub enum PathFailure {
    InvalidUnicode(Seq<char>),
    NotParent { root: Seq<char>, path: Seq<char> },
}

/// The model of an `Error`.
#[allow(inconsistent_fields)]
pub enum Failure {
    Read { path: Seq<char>, source: std::io::Error },
    Parse { path: Seq<char>, message: Seq<char> },
    MissingModule(Seq<char>),
    MissingManifest { path: Seq<char> },
    OutsideRepository { path: Seq<char>, root: Seq<char> },
    DuplicateModule { name: Seq<char> },
    UnknownLocalReplacement { path: Seq<char> },
    MissingChecksum { path: Seq<char>, version: Seq<char> },
    Spawn { command: Seq<char>, cwd: Seq<char>, source: std::io::Error },
    Command { command: Seq<char>, cwd: Seq<char>, stderr: Seq<char> },
    Json { command: Seq<char>, cwd: Seq<char>, source: Seq<char> },
    Path(PathFailure),
}

impl DeepView for PathError {
    type V = PathFailure;

    open spec fn deep_view(&self) -> PathFailure {
        match self {
            PathError::InvalidUnicode(path) => PathFailure::InvalidUnicode(path@),
            PathError::NotParent { root, path } => PathFailure::NotParent {
                root: root@,
                path: path@,
            },
        }
    }
}

impl DeepView for Error {
    type V = Failure;

    open spec fn deep_view(&self) -> Failure {
        match self {
            Error::Read { path, source } => Failure::Read { path: path@, source: *source },
            Error::Parse { path, message } => Failure::Parse { path: path@, message: message@ },
            Error::MissingModule(path) => Failure::MissingModule(path@),
            Error::MissingManifest { path } => Failure::MissingManifest { path: path@ },
            Error::OutsideRepository { path, root } => Failure::OutsideRepository {
                path: path@,
                root: root@,
            },
            Error::DuplicateModule { name } => Failure::DuplicateModule { name: name@ },
            Error::UnknownLocalReplacement { path } => Failure::UnknownLocalReplacement {
                path: path@,
            },
            Error::MissingChecksum { path, version } => Failure::MissingChecksum {
                path: path@,
                version: version@,
            },
            Error::Spawn { command, cwd, source } => Failure::Spawn {
                command: command@,
                cwd: cwd@,
                source: *source,
            },
            Error::Command { command, cwd, stderr } => Failure::Command {
                command: command@,
                cwd: cwd@,
                stderr: stderr@,
            },
            Error::Json { command, cwd, source } => Failure::Json {
                command: command@,
                cwd: cwd@,
                source: source@,
            },
            Error::Path(error) => Failure::Path(error.deep_view()),
        }
    }
}

/// The model of a result.
pub open spec fn outcome<T: DeepView>(result: Result<T, Error>) -> Result<T::V, Failure> {
    match result {
        Ok(value) => Ok(value.deep_view()),
        Err(error) => Err(error.deep_view()),
    }
}

} // verus!
