//! The errors that tree operations report, with their mathematical model.

use vstd::prelude::*;

verus! {

/// The ways a tree operation can fail.
#[derive(Debug, Clone)]
pub enum FsError {
    /// The path fails the character or length grammar for names.
    InvalidName,
    /// The path fails the separator and dot placement grammar, is too long,
    /// or is not ASCII.
    InvalidPath,
    /// The operation tried to create a child under a node that is a file.
    TargetIsFile,
    /// File creation referenced an intermediate directory that does not
    /// exist; the payload is the missing segment.
    MissingDirectory(String),
}

/// The mathematical model of an error value: the segment a
/// `MissingDirectory` carries is a sequence of characters.
pub enum ErrorModel {
    InvalidName,
    InvalidPath,
    TargetIsFile,
    MissingDirectory(Seq<char>),
}

impl View for FsError {
    type V = ErrorModel;

    open spec fn view(&self) -> ErrorModel {
        match self {
            FsError::InvalidName => ErrorModel::InvalidName,
            FsError::InvalidPath => ErrorModel::InvalidPath,
            FsError::TargetIsFile => ErrorModel::TargetIsFile,
            FsError::MissingDirectory(seg) => ErrorModel::MissingDirectory(seg@),
        }
    }
}

/// The model of an operation's outcome: `Ok` stays `Ok`, an error is
/// replaced by its model.
pub open spec fn outcome_model(r: Result<(), FsError>) -> Result<(), ErrorModel> {
    match r {
        Ok(()) => Ok(()),
        Err(e) => Err(e@),
    }
}

impl PartialEq for FsError {
    fn eq(&self, other: &FsError) -> (r: bool) {
        match (self, other) {
            (FsError::InvalidName, FsError::InvalidName) => true,
            (FsError::InvalidPath, FsError::InvalidPath) => true,
            (FsError::TargetIsFile, FsError::TargetIsFile) => true,
            (FsError::MissingDirectory(a), FsError::MissingDirectory(b)) => a.eq(b),
            _ => false,
        }
    }
}

impl vstd::std_specs::cmp::PartialEqSpecImpl for FsError {
    open spec fn obeys_eq_spec() -> bool {
        true
    }

    open spec fn eq_spec(&self, other: &FsError) -> bool {
        self@ == other@
    }
}

} // verus!
