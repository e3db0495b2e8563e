//! Errors of the storage hub.
use crate::text::concat2;
use vstd::prelude::*;

verus! {

/// What kind of failure a storage backend reports.
#[derive(Debug, Clone, Copy, PartialEq, Eq, Structural)]
pub enum StorageErrorKind {
    NotFound,
    Unexpected,
    Unsupported,
    ConfigInvalid,
    PermissionDenied,
    IsADirectory,
    NotADirectory,
    AlreadyExists,
    ConditionNotMatch,
    Other,
}

/// What kind of failure an input or output operation reports.
#[derive(Debug, Clone, Copy, PartialEq, Eq, Structural)]
pub enum IoErrorKind {
    NotFound,
    InvalidInput,
    Other,
}

/// A failure of a storage backend.
#[derive(Debug)]
pub struct StorageFault {
    pub kind: StorageErrorKind,
    pub message: String,
}

impl StorageFault {
    pub open spec fn is(self, kind: StorageErrorKind, text: Seq<char>) -> bool {
        self.kind == kind && self.message@ == text
    }

    pub fn new(kind: StorageErrorKind, text: &str) -> (res: StorageFault)
        ensures
            res.is(kind, text@),
    {
        StorageFault { kind, message: text.to_owned() }
    }
}

#[derive(Debug)]
pub enum VfsError {
    OpenDal(StorageErrorKind, String),
    Database(String),
    Internal(String),
    NotFound(String),
    PermissionDenied(String),
    QuotaExceeded,
    MaintenanceMode,
    Io(IoErrorKind, String),
}

pub type VfsResult<T> = Result<T, VfsError>;

impl VfsError {
    /// The text that tells the error.
    pub open spec fn text(self) -> Seq<char> {
        match self {
            VfsError::OpenDal(_, m) => "Storage error: "@ + m@,
            VfsError::Database(m) => "Database error: "@ + m@,
            VfsError::Internal(m) => "VFS logical error: "@ + m@,
            VfsError::NotFound(m) => "Path not found: "@ + m@,
            VfsError::PermissionDenied(m) => "Permission denied: "@ + m@,
            VfsError::QuotaExceeded => "Storage quota exceeded"@,
            VfsError::MaintenanceMode =>
                "System maintenance in progress (WAL recovery), please try again later"@,
            VfsError::Io(_, m) => "IO error: "@ + m@,
        }
    }

    /// The error is `Internal` with the message `text`.
    pub open spec fn is_internal(self, text: Seq<char>) -> bool {
        self matches VfsError::Internal(m) && m@ == text
    }

    pub fn message(&self) -> (res: String)
        ensures
            res@ == self.text(),
    {
        match self {
            VfsError::OpenDal(_, m) => concat2("Storage error: ", m.as_str()),
            VfsError::Database(m) => concat2("Database error: ", m.as_str()),
            VfsError::Internal(m) => concat2("VFS logical error: ", m.as_str()),
            VfsError::NotFound(m) => concat2("Path not found: ", m.as_str()),
            VfsError::PermissionDenied(m) => concat2("Permission denied: ", m.as_str()),
            VfsError::QuotaExceeded => "Storage quota exceeded".to_owned(),
            VfsError::MaintenanceMode =>
                "System maintenance in progress (WAL recovery), please try again later".to_owned(),
            VfsError::Io(_, m) => concat2("IO error: ", m.as_str()),
        }
    }

    /// An error that a storage backend reported: a missing path is told apart.
    pub fn from_storage(kind: StorageErrorKind, message: String) -> (res: VfsError)
        ensures
            res == if kind == StorageErrorKind::NotFound {
                VfsError::NotFound(message)
            } else {
                VfsError::OpenDal(kind, message)
            },
    {
        if kind == StorageErrorKind::NotFound {
            VfsError::NotFound(message)
        } else {
            VfsError::OpenDal(kind, message)
        }
    }

    /// The error says that the path does not exist.
    pub open spec fn says_not_found(self) -> bool {
        ||| self is NotFound
        ||| (self matches VfsError::OpenDal(kind, _) && kind == StorageErrorKind::NotFound)
    }

    pub fn is_not_found_error(&self) -> (res: bool)
        ensures
            res == self.says_not_found(),
    {
        match self {
            VfsError::NotFound(_) => true,
            VfsError::OpenDal(kind, _) => *kind == StorageErrorKind::NotFound,
            _ => false,
        }
    }

    pub fn internal(text: &str) -> (res: VfsError)
        ensures
            res.is_internal(text@),
    {
        VfsError::Internal(text.to_owned())
    }
}

/// Cloning keeps the text of an error and forgets its kind.
impl Clone for VfsError {
    fn clone(&self) -> (res: VfsError)
        ensures
            res.is_internal(self.text()),
    {
        VfsError::Internal(self.message())
    }
}

/// Only an error that says so says that something does not exist.
pub proof fn missing_things_are_told_by_their_errors(kind: StorageErrorKind, text: String)
    ensures
        VfsError::NotFound(text).says_not_found(),
        VfsError::OpenDal(kind, text).says_not_found() <==> kind == StorageErrorKind::NotFound,
        !VfsError::Internal(text).says_not_found(),
        !VfsError::PermissionDenied(text).says_not_found(),
        !VfsError::Database(text).says_not_found(),
        !VfsError::QuotaExceeded.says_not_found(),
        !VfsError::MaintenanceMode.says_not_found(),
        VfsError::Internal(text).is_internal(text@),
{
}

} // verus!
