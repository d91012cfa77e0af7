//! Failures of file-system operations.
use vstd::prelude::*;
use vstd::string::*;

verus! {

#[derive(Debug, Clone, Copy, PartialEq, Eq, Structural)]
pub enum FSError {
    NotFound,
    PermissionDenied,
    IoError,
    AlreadyExists,
    InvalidPath,
}

/// The human-readable text of each error.
pub open spec fn error_text(e: FSError) -> Seq<char> {
    match e {
        FSError::NotFound => "file or directory not found"@,
        FSError::PermissionDenied => "permission denied"@,
        FSError::IoError => "I/O error"@,
        FSError::AlreadyExists => "already exists"@,
        FSError::InvalidPath => "invalid path"@,
    }
}

impl FSError {
    /// The text this error displays as.
    pub fn message(&self) -> (r: String)
        ensures
            r@ == error_text(*self),
    {
        let msg = match self {
            FSError::NotFound => "file or directory not found",
            FSError::PermissionDenied => "permission denied",
            FSError::IoError => "I/O error",
            FSError::AlreadyExists => "already exists",
            FSError::InvalidPath => "invalid path",
        };
        String::from_str(msg)
    }
}

} // verus!
