//! The failures that end an invocation.

use vstd::prelude::*;

verus! {

/// The connection setting that was not supplied.
#[derive(Debug, Clone, Copy, PartialEq, Eq, Structural)]
pub enum MissingSetting {
    Address,
    Token,
}

/// What is wrong with the command line.
#[derive(Debug, Clone, Copy, PartialEq, Eq, Structural)]
pub enum UsageFault {
    /// The mode word is neither `run` nor `inject`.
    UnknownCommand,
    /// `run` was given without the `--` that introduces the command.
    MissingSeparator,
    /// Nothing follows the `--`.
    MissingProgram,
}

/// Every failure is fatal to the invocation; none is retried.
#[derive(Debug, Clone, PartialEq, Eq)]
pub enum Failure {
    /// The store address or the access token is absent.
    Configuration(MissingSetting),
    /// A reference with fewer than four segments; holds the reference as written.
    MalformedReference(String),
    /// A reference to an api version other than `v2`; holds the reference as written.
    UnsupportedApiVersion(String),
    /// The read from the store did not complete.
    StoreUnreachable,
    /// The store rejected the access token.
    AuthError,
    /// The secret was read but has no field of this name.
    FieldNotFound(String),
    /// The child process could not be started; holds the program that was
    /// to be run and the reason that the system gave.
    SpawnFailure { program: String, reason: String },
    /// The child's output or exit status could not be collected.
    ChildIoError,
    /// The command line cannot be acted on.
    Usage(UsageFault),
    /// The pattern that finds references in a line was not accepted.
    PatternRejected,
}

/// An [`Failure`] with its texts as sequences of characters.
pub enum FailureView {
    Configuration(MissingSetting),
    MalformedReference(Seq<char>),
    UnsupportedApiVersion(Seq<char>),
    StoreUnreachable,
    AuthError,
    FieldNotFound(Seq<char>),
    SpawnFailure { program: Seq<char>, reason: Seq<char> },
    ChildIoError,
    Usage(UsageFault),
    PatternRejected,
}

impl View for Failure {
    type V = FailureView;

    open spec fn view(&self) -> FailureView {
        match *self {
            Failure::Configuration(which) => FailureView::Configuration(which),
            Failure::MalformedReference(text) => FailureView::MalformedReference(text@),
            Failure::UnsupportedApiVersion(text) => FailureView::UnsupportedApiVersion(text@),
            Failure::StoreUnreachable => FailureView::StoreUnreachable,
            Failure::AuthError => FailureView::AuthError,
            Failure::FieldNotFound(name) => FailureView::FieldNotFound(name@),
            Failure::SpawnFailure { program, reason } => FailureView::SpawnFailure {
                program: program@,
                reason: reason@,
            },
            Failure::ChildIoError => FailureView::ChildIoError,
            Failure::Usage(fault) => FailureView::Usage(fault),
            Failure::PatternRejected => FailureView::PatternRejected,
        }
    }
}

} // verus!
