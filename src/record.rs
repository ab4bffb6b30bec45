//! The fixed six-value state record and access to records in a flat buffer.
use vstd::prelude::*;
use crate::bits::{finite, is_finite};
use crate::errors::AniseError;

verus! {

/// Number of values in one state record.
pub const RECORD_WIDTH: usize = 6;

/// Position (km) and velocity (km/s), each value as its IEEE-754 bit pattern.
#[derive(Debug, Clone, Copy, PartialEq, Eq, Structural)]
pub struct PositionVelocityRecord {
    pub x_km: u64,
    pub y_km: u64,
    pub z_km: u64,
    pub vx_km_s: u64,
    pub vy_km_s: u64,
    pub vz_km_s: u64,
}

/// The record held by the first six values of `s`.
pub open spec fn record_of(s: Seq<u64>) -> PositionVelocityRecord
    recommends
        s.len() >= 6,
{
    PositionVelocityRecord {
        x_km: s[0],
        y_km: s[1],
        z_km: s[2],
        vx_km_s: s[3],
        vy_km_s: s[4],
        vz_km_s: s[5],
    }
}

/// Every value of `s` is finite.
pub open spec fn all_finite(s: Seq<u64>) -> bool {
    forall|i: int| 0 <= i < s.len() ==> finite(#[trigger] s[i])
}

/// Width in values of one record of a buffer of `len` values holding `count` records.
pub open spec fn stride(len: int, count: int) -> int {
    len / count
}

/// One past the last value of record `n`.
pub open spec fn record_end(len: int, count: int, n: int) -> int {
    (n + 1) * stride(len, count)
}

/// `v`, or `usize::MAX` where `v` does not fit.
pub open spec fn saturate(v: int) -> int {
    if v > usize::MAX as int {
        usize::MAX as int
    } else {
        v
    }
}

impl PositionVelocityRecord {
    /// Decodes the first six values of `s`.
    pub fn from_slice_f64(s: &[u64]) -> (r: Self)
        requires
            s@.len() >= 6,
        ensures
            r == record_of(s@),
    {
        PositionVelocityRecord {
            x_km: s[0],
            y_km: s[1],
            z_km: s[2],
            vx_km_s: s[3],
            vy_km_s: s[4],
            vz_km_s: s[5],
        }
    }
}

/// Record `n` of `data`, which holds `count` records of equal width.
/// It exists when the width is at least six values and the record ends
/// within `data`; otherwise the error carries where it would have ended.
pub fn nth_record_in(data: &[u64], count: usize, n: usize) -> (r: Result<PositionVelocityRecord, AniseError>)
    requires
        count > 0,
    ensures
        ({
            let w = stride(data@.len() as int, count as int);
            let end = record_end(data@.len() as int, count as int, n as int);
            &&& (w >= 6 && end <= data@.len()) ==> r == Ok::<PositionVelocityRecord, AniseError>(
                record_of(data@.subrange(n * w, end)))
            &&& !(w >= 6 && end <= data@.len()) ==> r == Err::<PositionVelocityRecord, AniseError>(
                AniseError::MalformedData(saturate(end) as usize))
        }),
{
    let w: usize = data.len() / count;
    let n1: u128 = n as u128 + 1;
    assert(n1 * (w as u128) <= u128::MAX) by (nonlinear_arith)
        requires
            n1 <= 0x1_0000_0000_0000_0000u128,
            w < 0x1_0000_0000_0000_0000u128,
    ;
    let end_wide: u128 = n1 * (w as u128);
    assert(end_wide == (n + 1) * w) by (nonlinear_arith)
        requires
            n1 == n + 1,
            end_wide == n1 * w,
    ;
    if w >= RECORD_WIDTH && end_wide <= data.len() as u128 {
        let end: usize = end_wide as usize;
        assert(end >= w) by (nonlinear_arith)
            requires
                end == (n + 1) * w,
                n >= 0,
                w >= 0,
        ;
        let start: usize = end - w;
        assert(start == n * w) by (nonlinear_arith)
            requires
                start == end - w,
                end == (n + 1) * w,
        ;
        let rec = vstd::slice::slice_subrange(data, start, end);
        Ok(PositionVelocityRecord::from_slice_f64(rec))
    } else if end_wide > usize::MAX as u128 {
        Err(AniseError::MalformedData(usize::MAX))
    } else {
        Err(AniseError::MalformedData(end_wide as usize))
    }
}

/// Whether every value of `data` is finite.
pub fn check_all_finite(data: &[u64]) -> (r: bool)
    ensures
        r == all_finite(data@),
{
    let mut i: usize = 0;
    while i < data.len()
        invariant
            i <= data@.len(),
            forall|j: int| 0 <= j < i ==> finite(#[trigger] data@[j]),
        decreases data@.len() - i,
    {
        if !is_finite(data[i]) {
            return false;
        }
        i = i + 1;
    }
    true
}

} // verus!
