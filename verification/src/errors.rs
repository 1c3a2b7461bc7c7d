use vstd::prelude::*;

verus! {

/// The failures the library distinguishes.
///
/// `NotARepository` is fatal at startup; the others are recoverable
/// per-operation failures, surfaced to the caller while the previous
/// catalog state stays usable.
#[derive(Clone, Copy, Debug, PartialEq, Eq, Structural)]
pub enum Error {
    /// The working directory is not inside a recognizable repository.
    NotARepository,
    /// Enumerating branch references failed.
    EnumerationFailed,
    /// A branch reference could not be resolved by name and kind.
    BranchNotFound,
    /// A branch's commit ancestry could not be read.
    HistoryUnreadable,
    /// A commit's epoch could not be mapped to a calendar instant.
    InvalidEpoch,
}

impl Error {
    /// What `message` returns for each variant.
    pub open spec fn message_spec(self) -> Seq<char> {
        match self {
            Error::NotARepository => "not a repository"@,
            Error::EnumerationFailed => "could not enumerate branches"@,
            Error::BranchNotFound => "branch not found"@,
            Error::HistoryUnreadable => "could not read branch history"@,
            Error::InvalidEpoch => "commit timestamp out of range"@,
        }
    }

    /// A short, displayable description of the failure.
    pub fn message(&self) -> (r: &'static str)
        ensures
            r@ == self.message_spec(),
    {
        match self {
            Error::NotARepository => "not a repository",
            Error::EnumerationFailed => "could not enumerate branches",
            Error::BranchNotFound => "branch not found",
            Error::HistoryUnreadable => "could not read branch history",
            Error::InvalidEpoch => "commit timestamp out of range",
        }
    }
}

} // verus!
