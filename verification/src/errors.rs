//! What can go wrong in a build.
use vstd::prelude::*;

use crate::state::Operation;

verus! {

/// Why a build cannot go on.
#[derive(Debug)]
pub enum BuildError {
    /// A `${` in a line is not closed; the text behind it.
    MissingBrace { inner: String },
    /// The quotes of a line are not balanced.
    Unbalanced,
    /// A word is not of the form KEY=VALUE.
    NotKeyValue { word: String },
    /// The options of an instruction cannot be parsed.
    BadOptions,
    /// A COPY or ADD instruction names no files.
    NoSources,
    /// An instruction stands before the first FROM and needs a container.
    NoContainer { op: Operation },
    /// An instruction other than ARG stands before the first FROM.
    BeforeFrom { op: Operation },
    /// The list of a VOLUME instruction is not a JSON array of strings.
    BadVolumes,
    /// A HEALTHCHECK instruction has no CMD; its arguments.
    NoHealthCommand { line: String },
    /// A command that the build rests on has failed.
    CommandFailed,
    /// A chunk has an instruction in its middle that starts a chunk.
    MisplacedStart { op: Operation },
    /// The build was told of something other than what it waits for.
    UnexpectedEvent,
}

/// A `BuildError` with its text as a sequence of characters.
pub enum BuildFailure {
    MissingBrace { inner: Seq<char> },
    Unbalanced,
    NotKeyValue { word: Seq<char> },
    BadOptions,
    NoSources,
    NoContainer { op: Operation },
    BeforeFrom { op: Operation },
    BadVolumes,
    NoHealthCommand { line: Seq<char> },
    CommandFailed,
    MisplacedStart { op: Operation },
    UnexpectedEvent,
}

impl View for BuildError {
    type V = BuildFailure;

    open spec fn view(&self) -> BuildFailure {
        match self {
            BuildError::MissingBrace { inner } => BuildFailure::MissingBrace { inner: inner@ },
            BuildError::Unbalanced => BuildFailure::Unbalanced,
            BuildError::NotKeyValue { word } => BuildFailure::NotKeyValue { word: word@ },
            BuildError::BadOptions => BuildFailure::BadOptions,
            BuildError::NoSources => BuildFailure::NoSources,
            BuildError::NoContainer { op } => BuildFailure::NoContainer { op: *op },
            BuildError::BeforeFrom { op } => BuildFailure::BeforeFrom { op: *op },
            BuildError::BadVolumes => BuildFailure::BadVolumes,
            BuildError::NoHealthCommand { line } => BuildFailure::NoHealthCommand { line: line@ },
            BuildError::CommandFailed => BuildFailure::CommandFailed,
            BuildError::MisplacedStart { op } => BuildFailure::MisplacedStart { op: *op },
            BuildError::UnexpectedEvent => BuildFailure::UnexpectedEvent,
        }
    }
}

} // verus!
