//! Errors raised while decoding or evaluating a segment.
use vstd::prelude::*;

verus! {

/// What kind of corruption an integrity check found.
#[derive(Debug, Clone, Copy, PartialEq, Eq, Structural)]
pub enum IntegrityErrorKind {
    /// A value is NaN or infinite.
    SubNormal,
}

#[derive(Debug, Clone, Copy, PartialEq, Eq, Structural)]
pub enum AniseError {
    /// The buffer is too short, or an offset lies past its end; carries the
    /// length or offset that was required.
    MalformedData(usize),
    /// A value that must be a finite number is not.
    IntegrityError(IntegrityErrorKind),
    /// The requested time (bit pattern of its ephemeris-time seconds) lies
    /// outside the segment's coverage.
    MissingInterpolationData(u64),
    /// The interpolation window (carried, in samples) is wider than the
    /// supported maximum or than the number of records.
    TooManySamples(usize),
}

} // verus!
