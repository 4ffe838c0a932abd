use vstd::prelude::*;

verus! {

/// The error kinds the toolkit reports.  Every operator returns the first
/// error it meets and aborts the remaining composition.
#[derive(Clone, Copy, Debug, PartialEq, Eq, Structural)]
pub enum Error {
    /// Channel count or sample rate differs between two combined buffers.
    FormatMismatch,
    /// A time expression is malformed (negative, unparsable, zero denominator).
    InvalidTime,
    /// A start offset lies beyond the end of the buffer.
    OutOfRange,
    /// A split count exceeds the frame count, or a blender got too few segments.
    TooManySegments,
    /// join or blend was called with no buffers.
    EmptyInput,
    /// A blender name is neither a registry key nor "rand".
    UnknownBlender,
    /// An effect name is not recognised.
    UnknownEffect,
    /// A non-positive speed factor or duration, or a result too large to hold.
    InvalidParameter,
}

impl Error {
    /// A short description, for callers that print errors.
    pub fn describe(&self) -> &'static str {
        match self {
            Error::FormatMismatch => "channel count or sample rate mismatch",
            Error::InvalidTime => "invalid time expression",
            Error::OutOfRange => "start offset beyond the end of the buffer",
            Error::TooManySegments => "too many segments requested",
            Error::EmptyInput => "no input buffers given",
            Error::UnknownBlender => "unknown blender name",
            Error::UnknownEffect => "unknown effect name",
            Error::InvalidParameter => "invalid parameter",
        }
    }
}

} // verus!
