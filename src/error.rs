use vstd::prelude::*;

verus! {

/// Kinds of failure reported by fallible kernel operations.
#[derive(Debug, Clone, Copy, PartialEq, Eq, Structural)]
pub enum Error {
    /// The operation failed for an unspecified reason.
    EFAIL,
    /// A frame, pool page or other memory resource is exhausted.
    ENOMEM,
    /// An address or entry that was used is not valid for the access.
    EFAULT,
    /// A fixed-size table has no room left.
    EFULL,
    /// The requested item does not exist.
    ENOENT,
    /// The target slot is already occupied.
    EAGAIN,
    /// A device transfer failed.
    EIO,
    /// On-disk structures are not recognised.
    EBADFS,
    /// An argument is outside the accepted domain.
    EINVAL,
}

impl Error {
    /// Human-readable description of the error kind.
    pub fn message(&self) -> (r: &'static str)
        ensures
            r@ == error_message(*self),
    {
        match self {
            Error::EFAIL => "Operation failed",
            Error::ENOMEM => "Insufficient memory",
            Error::EFAULT => "Access violation",
            Error::EFULL => "No more space",
            Error::ENOENT => "Target not found",
            Error::EAGAIN => "Already exist",
            Error::EIO => "I/O Error",
            Error::EBADFS => "Bad filesystem",
            Error::EINVAL => "Invalid argument",
        }
    }
}

/// The description attached to each error kind.
pub open spec fn error_message(e: Error) -> Seq<char> {
    match e {
        Error::EFAIL => "Operation failed"@,
        Error::ENOMEM => "Insufficient memory"@,
        Error::EFAULT => "Access violation"@,
        Error::EFULL => "No more space"@,
        Error::ENOENT => "Target not found"@,
        Error::EAGAIN => "Already exist"@,
        Error::EIO => "I/O Error"@,
        Error::EBADFS => "Bad filesystem"@,
        Error::EINVAL => "Invalid argument"@,
    }
}

} // verus!
