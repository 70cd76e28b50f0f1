//! What can go wrong while a frame is read.

use vstd::prelude::*;

use crate::digits::IntErrorKind;

verus! {

/// Why no frame was returned.
#[derive(Debug, PartialEq, Eq)]
pub enum RespError {
    /// The marker is known but what follows it is malformed, or containers
    /// are nested more deeply than the decoder follows them.
    InvalidFrame(String),
    /// The marker byte is not the one that was expected.
    InvalidFrameType(String),
    /// The length prefix is negative and is not the null sentinel, or it is
    /// too large to be a length at all.
    InvalidFrameLength(isize),
    /// The bytes so far are the start of a frame, and more are needed.
    NotComplete,
    /// A number in the frame is not a decimal integer in range.
    ParseIntError(IntErrorKind),
    /// The body of a double is not a floating-point literal.
    ParseFloatError,
}

/// A `RespError` without its message: the part that contracts speak of.
pub enum Failure {
    /// See `RespError::InvalidFrame`.
    InvalidFrame,
    /// See `RespError::InvalidFrameType`.
    InvalidFrameType,
    /// See `RespError::InvalidFrameLength`.
    InvalidFrameLength(int),
    /// See `RespError::NotComplete`.
    NotComplete,
    /// See `RespError::ParseIntError`.
    ParseInt(IntErrorKind),
    /// See `RespError::ParseFloatError`.
    ParseFloat,
}

impl View for RespError {
    type V = Failure;

    open spec fn view(&self) -> Failure {
        match self {
            RespError::InvalidFrame(_) => Failure::InvalidFrame,
            RespError::InvalidFrameType(_) => Failure::InvalidFrameType,
            RespError::InvalidFrameLength(n) => Failure::InvalidFrameLength(*n as int),
            RespError::NotComplete => Failure::NotComplete,
            RespError::ParseIntError(k) => Failure::ParseInt(*k),
            RespError::ParseFloatError => Failure::ParseFloat,
        }
    }
}

} // verus!
