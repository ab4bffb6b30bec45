//! Decoding and window selection for Hermite-interpolated ephemeris segments
//! (NAIF SPK data types 12 and 13).
//!
//! Every double-precision value of a segment is handled through its IEEE-754
//! bit pattern (`u64`, as produced by `f64::to_bits`), so that finiteness,
//! ordering and the truncating integer conversion of metadata are stated and
//! proved exactly.
use vstd::prelude::*;

pub mod bits;
pub mod errors;
pub mod record;
pub mod window;
pub mod type13;
pub mod type12;
