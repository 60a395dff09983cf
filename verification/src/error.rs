//! The ways in which an operation of this library fails.

use vstd::prelude::*;

verus! {

/// Why an operation failed. Every failure ends the operation; nothing is retried.
#[derive(Clone, Copy, Debug, PartialEq, Eq, Structural)]
pub enum SwizzleError {
    /// The format name is not one of the supported formats.
    UnsupportedFormat,
    /// A buffer's length is no multiple of the tile size, or is smaller than
    /// the operation needs.
    InvalidBuffer,
    /// A DDS header could not be read.
    InvalidContainer,
    /// A DDS payload ends before the mip levels that its header announces.
    TruncatedContainer,
    /// Reading or writing a file failed.
    IoFailure,
}

impl SwizzleError {
    /// A short description of the failure.
    pub fn message(&self) -> (text: &'static str)
        ensures
            text@ == (match *self {
                SwizzleError::UnsupportedFormat => "Unsupported format"@,
                SwizzleError::InvalidBuffer => "Invalid buffer"@,
                SwizzleError::InvalidContainer => "Invalid container"@,
                SwizzleError::TruncatedContainer => "Truncated container"@,
                SwizzleError::IoFailure => "I/O failure"@,
            }),
    {
        match self {
            SwizzleError::UnsupportedFormat => "Unsupported format",
            SwizzleError::InvalidBuffer => "Invalid buffer",
            SwizzleError::InvalidContainer => "Invalid container",
            SwizzleError::TruncatedContainer => "Truncated container",
            SwizzleError::IoFailure => "I/O failure",
        }
    }
}

} // verus!
