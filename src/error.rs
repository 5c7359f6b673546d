use vstd::prelude::*;

verus! {

/// The stage of a transfer at which an I/O operation failed.
#[derive(Clone, Copy, Debug, PartialEq, Eq, Structural)]
pub enum Operation {
    Read,
    Write,
}

/// Every way a build, transfer or extraction can fail.
#[derive(Clone, Copy, Debug, PartialEq, Eq, Structural)]
pub enum TransferError {
    /// The source path does not exist.
    NotFound,
    /// A path could not be read or written for lack of permission.
    AccessDenied,
    /// A read or write failed while bytes were being moved.
    Io { operation: Operation },
    /// The received archive is malformed or truncated.
    CorruptArchive,
    /// Binding, connecting or accepting failed.
    Connection,
}

} // verus!

verus! {

/// What an operating-system failure reported, as far as the transfer cares.
#[derive(Clone, Copy, Debug, PartialEq, Eq, Structural)]
pub enum FailureKind {
    NotFound,
    PermissionDenied,
    Other,
}

/// The error a failed filesystem or stream operation stands for.
pub open spec fn io_failure_spec(kind: FailureKind, operation: Operation) -> TransferError {
    match kind {
        FailureKind::NotFound => TransferError::NotFound,
        FailureKind::PermissionDenied => TransferError::AccessDenied,
        FailureKind::Other => TransferError::Io { operation },
    }
}

/// Classifies a failed filesystem or stream operation.
pub fn from_io_failure(kind: FailureKind, operation: Operation) -> (r: TransferError)
    ensures
        r == io_failure_spec(kind, operation),
{
    match kind {
        FailureKind::NotFound => TransferError::NotFound,
        FailureKind::PermissionDenied => TransferError::AccessDenied,
        FailureKind::Other => TransferError::Io { operation },
    }
}

/// The error an extraction failure stands for: `None` when the archive's
/// data itself was at fault, else what the filesystem reported.
pub open spec fn extract_failure_spec(io: Option<FailureKind>) -> TransferError {
    match io {
        None => TransferError::CorruptArchive,
        Some(FailureKind::Other) => TransferError::Io { operation: Operation::Write },
        Some(_) => TransferError::AccessDenied,
    }
}

/// Classifies a failed extraction. A missing or unwritable destination is
/// denied access; malformed or truncated entries make the archive corrupt.
pub fn from_extract_failure(io: Option<FailureKind>) -> (r: TransferError)
    ensures
        r == extract_failure_spec(io),
{
    match io {
        None => TransferError::CorruptArchive,
        Some(FailureKind::Other) => TransferError::Io { operation: Operation::Write },
        Some(_) => TransferError::AccessDenied,
    }
}

} // verus!
