//! Error taxonomy of the transfer core.
//!
//! Upload failures and download failures are kept apart, and within each the
//! client-caused kinds are distinct from the server-caused ones, so that the
//! boundary layer can map every outcome to a stable status without guessing.

use vstd::prelude::*;

verus! {

/// How a failed upload ended.
#[derive(Clone, Copy, Debug, PartialEq, Eq, Structural)]
pub enum UploadError {
    /// The backing file could not be created or opened for writing.
    StorageUnavailable,
    /// The incoming stream ended abnormally or a chunk write failed;
    /// the partial file was removed.
    UploadInterrupted,
    /// The transfer failed and the partial file could not be removed:
    /// disk state is inconsistent and needs operator attention.
    CleanupFailed,
}

/// How a failed download ended.
#[derive(Clone, Copy, Debug, PartialEq, Eq, Structural)]
pub enum DownloadError {
    /// No object with the requested identifier exists.
    NotFound,
    /// The range header was syntactically invalid, or the range lies
    /// entirely beyond the object.
    MalformedRange,
    /// The object shrank or vanished between the size check and the read.
    Inconsistent,
}

/// The status category a failure is surfaced under at the response boundary.
#[derive(Clone, Copy, Debug, PartialEq, Eq, Structural)]
pub enum StatusClass {
    /// Client error: the requested object is absent.
    NotFound,
    /// Client error: the requested range cannot be satisfied.
    NotSatisfiable,
    /// Client-facing transfer failure: the upload stream broke off.
    TransferFailed,
    /// Server error: storage misbehaved; needs monitoring attention.
    ServerError,
}

impl UploadError {
    /// The status category this kind is reported under.
    pub fn status_class(&self) -> (c: StatusClass)
        ensures
            c == (match self {
                UploadError::StorageUnavailable => StatusClass::ServerError,
                UploadError::UploadInterrupted => StatusClass::TransferFailed,
                UploadError::CleanupFailed => StatusClass::ServerError,
            }),
    {
        match self {
            UploadError::StorageUnavailable => StatusClass::ServerError,
            UploadError::UploadInterrupted => StatusClass::TransferFailed,
            UploadError::CleanupFailed => StatusClass::ServerError,
        }
    }

    /// A stable human-readable message for this kind.
    pub fn message(&self) -> (r: &'static str)
        ensures
            r@ == self.message_spec(),
    {
        match self {
            UploadError::StorageUnavailable => "storage unavailable",
            UploadError::UploadInterrupted => "upload interrupted, partial file deleted",
            UploadError::CleanupFailed => "upload interrupted and cleanup failed, storage unclean",
        }
    }

    /// What `message` returns for each kind.
    pub open spec fn message_spec(&self) -> Seq<char> {
        match self {
            UploadError::StorageUnavailable => "storage unavailable"@,
            UploadError::UploadInterrupted => "upload interrupted, partial file deleted"@,
            UploadError::CleanupFailed => "upload interrupted and cleanup failed, storage unclean"@,
        }
    }
}

impl DownloadError {
    /// The status category this kind is reported under.
    pub fn status_class(&self) -> (c: StatusClass)
        ensures
            c == (match self {
                DownloadError::NotFound => StatusClass::NotFound,
                DownloadError::MalformedRange => StatusClass::NotSatisfiable,
                DownloadError::Inconsistent => StatusClass::ServerError,
            }),
    {
        match self {
            DownloadError::NotFound => StatusClass::NotFound,
            DownloadError::MalformedRange => StatusClass::NotSatisfiable,
            DownloadError::Inconsistent => StatusClass::ServerError,
        }
    }

    /// A stable human-readable message for this kind.
    pub fn message(&self) -> (r: &'static str)
        ensures
            r@ == self.message_spec(),
    {
        match self {
            DownloadError::NotFound => "file not found",
            DownloadError::MalformedRange => "malformed or unsatisfiable range request",
            DownloadError::Inconsistent => "stored object changed during read",
        }
    }

    /// What `message` returns for each kind.
    pub open spec fn message_spec(&self) -> Seq<char> {
        match self {
            DownloadError::NotFound => "file not found"@,
            DownloadError::MalformedRange => "malformed or unsatisfiable range request"@,
            DownloadError::Inconsistent => "stored object changed during read"@,
        }
    }
}

} // verus!
