//! The error taxonomy of the download engine.

use vstd::prelude::*;

verus! {

/// Why a download, a resume attempt, or the store could not proceed.
#[derive(Debug, Clone, Copy, PartialEq, Eq, Structural)]
pub enum DownloadError {
    /// No destination file name could be derived from the URL.
    InvalidDestination,
    /// Resume was requested but no partial file exists to append to.
    ResumeTargetMissing,
    /// Resume was requested without a known destination name and directory.
    CannotResumeWithoutDestination,
    /// The transport reported a failure; the reason is kept on the descriptor.
    NetworkFailure,
    /// The backing resume store could not be reached or written.
    StoreUnavailable,
    /// The platform configuration or download directory could not be resolved.
    ConfigDirUnavailable,
}

impl DownloadError {
    /// The fixed human-readable text of each error.
    pub open spec fn message_spec(self) -> Seq<char> {
        match self {
            DownloadError::InvalidDestination => "could not derive a destination file name"@,
            DownloadError::ResumeTargetMissing => "no partial file exists to resume"@,
            DownloadError::CannotResumeWithoutDestination => "cannot resume without a file path and file name"@,
            DownloadError::NetworkFailure => "the transfer failed"@,
            DownloadError::StoreUnavailable => "the resume store is unavailable"@,
            DownloadError::ConfigDirUnavailable => "could not resolve a platform directory"@,
        }
    }

    /// A human-readable description of the error.
    pub fn message(&self) -> (r: String)
        ensures
            r@ == self.message_spec(),
    {
        match self {
            DownloadError::InvalidDestination => "could not derive a destination file name".to_owned(),
            DownloadError::ResumeTargetMissing => "no partial file exists to resume".to_owned(),
            DownloadError::CannotResumeWithoutDestination => "cannot resume without a file path and file name".to_owned(),
            DownloadError::NetworkFailure => "the transfer failed".to_owned(),
            DownloadError::StoreUnavailable => "the resume store is unavailable".to_owned(),
            DownloadError::ConfigDirUnavailable => "could not resolve a platform directory".to_owned(),
        }
    }
}

} // verus!
