//! What can go wrong while sources are looked up or loaded.

use vstd::prelude::*;
use vstd::string::*;

verus! {

/// The broad reason why the file system refused a request.
#[derive(Debug, PartialEq, Eq, Clone, Copy, Structural)]
pub enum IoFailureKind {
    NotFound,
    PermissionDenied,
    AlreadyExists,
    NotADirectory,
    IsADirectory,
    InvalidInput,
    InvalidData,
    TimedOut,
    Interrupted,
    Unsupported,
    UnexpectedEof,
    OutOfMemory,
    Other,
}

/// A failed request to the file system, as it was reported: the reason, the
/// code of the operating system where it gave one, and the report's own
/// words. The library hands a failure on as it got it.
#[derive(Debug)]
pub struct IoFailure {
    pub kind: IoFailureKind,
    pub code: Option<i32>,
    pub message: String,
}

pub struct IoFailureView {
    pub kind: IoFailureKind,
    pub code: Option<i32>,
    pub message: Seq<char>,
}

impl View for IoFailure {
    type V = IoFailureView;

    open spec fn view(&self) -> IoFailureView {
        IoFailureView { kind: self.kind, code: self.code, message: self.message@ }
    }
}

impl Clone for IoFailure {
    fn clone(&self) -> (copy: Self)
        ensures
            copy == *self,
    {
        IoFailure { kind: self.kind, code: self.code, message: self.message.clone() }
    }
}

impl IoFailure {
    /// A failure of the given kind, reported with the given words and
    /// without a code of the operating system.
    pub fn new(kind: IoFailureKind, message: &str) -> (failure: IoFailure)
        ensures
            failure@ == (IoFailureView { kind, code: None, message: message@ }),
    {
        IoFailure { kind, code: None, message: message.to_owned() }
    }

    /// A failure that the operating system reported with the given code.
    pub fn from_os(kind: IoFailureKind, code: i32, message: &str) -> (failure: IoFailure)
        ensures
            failure@ == (IoFailureView { kind, code: Some(code), message: message@ }),
    {
        IoFailure { kind, code: Some(code), message: message.to_owned() }
    }
}

/// What a lookup or a load can fail with.
#[derive(Debug)]
pub enum Error {
    /// No source answers to the key: an index in decimal, or an origin.
    SourceNotFound(String),
    /// A loader was asked for a name that it does not support.
    InvalidSource(String),
    /// The file system failed.
    IoError(IoFailure),
}

pub enum ErrorView {
    SourceNotFound(Seq<char>),
    InvalidSource(Seq<char>),
    IoError(IoFailureView),
}

impl View for Error {
    type V = ErrorView;

    open spec fn view(&self) -> ErrorView {
        match self {
            Error::SourceNotFound(key) => ErrorView::SourceNotFound(key@),
            Error::InvalidSource(message) => ErrorView::InvalidSource(message@),
            Error::IoError(failure) => ErrorView::IoError(failure@),
        }
    }
}

impl From<IoFailure> for Error {
    fn from(failure: IoFailure) -> (error: Error) {
        Error::IoError(failure)
    }
}

impl vstd::std_specs::convert::FromSpecImpl<IoFailure> for Error {
    open spec fn obeys_from_spec() -> bool {
        true
    }

    open spec fn from_spec(failure: IoFailure) -> Error {
        Error::IoError(failure)
    }
}

/// The sentence that describes an error.
pub open spec fn described(error: ErrorView) -> Seq<char> {
    match error {
        ErrorView::SourceNotFound(key) => "source `"@ + key + "` not found."@,
        ErrorView::InvalidSource(message) => "invalid source: "@ + message,
        ErrorView::IoError(failure) => "io error: "@ + failure.message,
    }
}

/// What a loader says of a name that it does not support.
pub open spec fn unsupported_message(name: Seq<char>) -> Seq<char> {
    "source `"@ + name + "` is not supported."@
}

impl Error {
    /// The error that a loader returns for a name that it does not support.
    pub fn unsupported(name: &str) -> (error: Error)
        ensures
            error@ == ErrorView::InvalidSource(unsupported_message(name@)),
    {
        let mut message = "source `".to_owned();
        message.append(name);
        message.append("` is not supported.");
        Error::InvalidSource(message)
    }

    /// The sentence that describes this error.
    pub fn message(&self) -> (text: String)
        ensures
            text@ == described(self@),
    {
        match self {
            Error::SourceNotFound(key) => {
                let mut text = "source `".to_owned();
                text.append(key.as_str());
                text.append("` not found.");
                text
            },
            Error::InvalidSource(message) => {
                let mut text = "invalid source: ".to_owned();
                text.append(message.as_str());
                text
            },
            Error::IoError(failure) => {
                let mut text = "io error: ".to_owned();
                text.append(failure.message.as_str());
                text
            },
        }
    }
}

} // verus!
