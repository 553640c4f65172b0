//! The error taxonomy of the library. Every failure of a mount, unmount or
//! mount-table operation is reported as one of these variants; all errors are
//! terminal for the invocation that produced them (no retry anywhere).

use vstd::prelude::*;

verus! {

/// An error arising from a mount-lifecycle operation.
///
/// `MountFailed` and `UnmountFailed` carry the OS error number reported by
/// the failed mount or unmount primitive.
#[derive(Debug, Clone)]
pub enum RamdiskError {
    /// A filesystem-kind string was neither `tmpfs` nor `ramfs` (in any
    /// letter case). Carries the rejected string.
    InvalidFsType(String),
    /// The target directory of a mount does not exist.
    TargetNotFound,
    /// The OS mount primitive failed with the carried error number.
    MountFailed(i32),
    /// The OS unmount primitive failed with the carried error number, and
    /// the failure was not the harmless "target is not mounted".
    UnmountFailed(i32),
    /// The mount-table file could not be read.
    TableReadFailed,
    /// The mount-table file could not be written.
    TableWriteFailed,
}

impl RamdiskError {
    /// A user-facing description of the error. For `InvalidFsType` the text
    /// names the rejected string and enumerates the two accepted literals.
    pub fn message(&self) -> (r: String)
        ensures
            self matches RamdiskError::InvalidFsType(s) ==> r@ == "Unknown fs type "@ + s@
                + "! Expected either `tmpfs` or `ramfs`"@,
            self is TargetNotFound ==> r@ == "The target directory does not exist"@,
            self matches RamdiskError::MountFailed(_) ==> r@ == "The mount operation failed"@,
            self matches RamdiskError::UnmountFailed(_) ==> r@ == "The unmount operation failed"@,
            self is TableReadFailed ==> r@ == "The mount table file could not be read"@,
            self is TableWriteFailed ==> r@ == "The mount table file could not be written"@,
    {
        match self {
            RamdiskError::InvalidFsType(s) => {
                let mut m = String::from_str("Unknown fs type ");
                m.append(s.as_str());
                m.append("! Expected either `tmpfs` or `ramfs`");
                m
            },
            RamdiskError::TargetNotFound => String::from_str(
                "The target directory does not exist",
            ),
            RamdiskError::MountFailed(_) => String::from_str("The mount operation failed"),
            RamdiskError::UnmountFailed(_) => String::from_str("The unmount operation failed"),
            RamdiskError::TableReadFailed => String::from_str(
                "The mount table file could not be read",
            ),
            RamdiskError::TableWriteFailed => String::from_str(
                "The mount table file could not be written",
            ),
        }
    }
}

} // verus!
