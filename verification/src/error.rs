//! The error values that every fallible operation of the pipeline returns.

use vstd::prelude::*;

verus! {

/// The stage or cause that an error is attributed to.
#[derive(Debug, Clone, Copy, PartialEq, Eq, Structural)]
pub enum LinderaErrorKind {
    /// A filter was given arguments it cannot work with.
    Args,
    /// A configuration document is malformed or does not fit its schema.
    Deserialize,
    /// Reading from or writing to a file failed.
    Io,
    /// A piece of text could not be parsed.
    Parse,
    /// The requested dictionary does not exist.
    DictionaryNotFound,
    /// The requested dictionary exists but could not be loaded.
    DictionaryLoadError,
}

/// An error: its kind and a detail meant for a human reader.
#[derive(Debug)]
pub struct LinderaError {
    pub kind: LinderaErrorKind,
    pub detail: String,
}

pub type LinderaResult<T> = Result<T, LinderaError>;

impl LinderaErrorKind {
    /// Makes an error of this kind that carries `detail`.
    pub fn with_detail(self, detail: String) -> (err: LinderaError)
        ensures
            err.kind == self,
            err.detail@ == detail@,
    {
        LinderaError { kind: self, detail }
    }
}

impl LinderaError {
    /// The kind of this error.
    pub fn kind(&self) -> (kind: LinderaErrorKind)
        ensures
            kind == self.kind,
    {
        self.kind
    }

    /// The detail of this error, as an owned string.
    pub fn message(&self) -> (detail: String)
        ensures
            detail@ == self.detail@,
    {
        self.detail.clone()
    }
}

} // verus!
