//! The ways in which a scaffold can fail.

use vstd::prelude::*;

verus! {

/// Why a scaffold was abandoned.
#[derive(Debug)]
pub enum ScaffoldError {
    /// The destination project path is already present.
    AlreadyExists,
    /// The requested template has no base directory.
    TemplateNotFound,
    /// A source directory that was expected to exist is missing.
    SourceNotFound,
    /// Any other failure of the file system, with its cause.
    IoFailure(String),
}

/// The mathematical value of a [`ScaffoldError`].
pub enum ErrorModel {
    AlreadyExists,
    TemplateNotFound,
    SourceNotFound,
    IoFailure(Seq<char>),
}

impl View for ScaffoldError {
    type V = ErrorModel;

    open spec fn view(&self) -> ErrorModel {
        match self {
            ScaffoldError::AlreadyExists => ErrorModel::AlreadyExists,
            ScaffoldError::TemplateNotFound => ErrorModel::TemplateNotFound,
            ScaffoldError::SourceNotFound => ErrorModel::SourceNotFound,
            ScaffoldError::IoFailure(cause) => ErrorModel::IoFailure(cause@),
        }
    }
}

impl ScaffoldError {
    /// A copy of this error.
    pub fn duplicate(&self) -> (e: ScaffoldError)
        ensures
            e@ == self@,
    {
        match self {
            ScaffoldError::AlreadyExists => ScaffoldError::AlreadyExists,
            ScaffoldError::TemplateNotFound => ScaffoldError::TemplateNotFound,
            ScaffoldError::SourceNotFound => ScaffoldError::SourceNotFound,
            ScaffoldError::IoFailure(cause) => ScaffoldError::IoFailure(cause.clone()),
        }
    }

    /// The process exit status that reports this error: nonzero for each.
    pub fn exit_code(&self) -> (code: u8)
        ensures
            code == 1,
    {
        1
    }
}

} // verus!
