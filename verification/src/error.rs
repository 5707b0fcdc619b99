//! What the library reports when it fails.

use vstd::prelude::*;

verus! {

/// `std::io::ErrorKind`, carried through without a look inside.
#[verifier::external_type_specification]
#[verifier::external_body]
pub struct ExIoErrorKind(std::io::ErrorKind);

/// The kind of a failure.
#[derive(Clone, Copy, Debug, PartialEq, Eq)]
pub enum ErrorKind {
    /// Something that must be there is not.
    NotFound,
    /// What was read does not have the expected form.
    InvalidData,
    /// An answer did not come in time.
    TimedOut,
    /// None of the kinds above.
    Other,
    /// A kind that the operating system's interface reported.
    System(std::io::ErrorKind),
}

/// A failure: its kind, and what a reader is told of it.
#[derive(Debug)]
pub struct Error {
    pub kind: ErrorKind,
    pub message: String,
}

/// What an [`Error`] says, its message by its characters.
pub struct ErrorView {
    pub kind: ErrorKind,
    pub message: Seq<char>,
}

impl View for Error {
    type V = ErrorView;

    open spec fn view(&self) -> ErrorView {
        ErrorView { kind: self.kind, message: self.message@ }
    }
}

impl Error {
    pub fn new(kind: ErrorKind, message: String) -> (res: Error)
        ensures
            res@ == (ErrorView { kind, message: message@ }),
            res.kind == kind,
            res.message == message,
    {
        Error { kind, message }
    }

    pub fn kind(&self) -> (res: ErrorKind)
        ensures
            res == self@.kind,
            res == self.kind,
    {
        self.kind
    }
}

/// A result, its failure by what it says.
pub open spec fn viewed<T>(result: Result<T, Error>) -> Result<T, ErrorView> {
    match result {
        Ok(value) => Ok(value),
        Err(error) => Err(error@),
    }
}

/// Whether two results have the same value, or both fail with the same kind of failure.
pub open spec fn same_outcome<T>(a: Result<T, ErrorView>, b: Result<T, ErrorView>) -> bool {
    match (a, b) {
        (Ok(x), Ok(y)) => x == y,
        (Err(x), Err(y)) => x.kind == y.kind,
        _ => false,
    }
}

/// A failure that may come from outside the library or from within it.
#[derive(Debug)]
pub enum Failure<E> {
    /// A failure that was handed to the library, passed on as it was.
    Passed(E),
    /// A failure that the library found.
    Found(Error),
}

/// A failure, by what it says.
pub enum FailureView<E> {
    Passed(E),
    Found(ErrorView),
}

impl<E> View for Failure<E> {
    type V = FailureView<E>;

    open spec fn view(&self) -> FailureView<E> {
        match *self {
            Failure::Passed(error) => FailureView::Passed(error),
            Failure::Found(error) => FailureView::Found(error@),
        }
    }
}

} // verus!
