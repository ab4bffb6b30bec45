//! Hermite segments with uniformly spaced epochs (SPK data type 12).
use vstd::prelude::*;
use crate::bits::{finite, is_finite, to_usize, truncated};
use crate::errors::{AniseError, IntegrityErrorKind};
use crate::record::{
    PositionVelocityRecord, all_finite, check_all_finite, nth_record_in, record_end, record_of,
    saturate, stride,
};
use crate::window::{MAX_SAMPLES, Search, first_window_index, window_start};

verus! {

/// A type 12 segment: metadata and a borrowed view of the state records.
pub struct HermiteSetType12<'a> {
    /// Epoch of the first record, as the bit pattern of its seconds past J2000 (TDB)
    pub first_state_epoch: u64,
    /// Time between consecutive records, as the bit pattern of its seconds
    pub step_size: u64,
    /// Window size as stored, one less than the number of samples
    pub window_size: usize,
    /// Total number of records stored in this data
    pub num_records: usize,
    /// State data, `num_records` records of equal width
    pub record_data: &'a [u64],
}

/// The records that a Hermite interpolation on uniform epochs is built from;
/// sample `j` lies at epoch `first + j` steps past the segment's first epoch.
pub struct UniformWindow {
    /// Index of the first record of the window
    pub first: usize,
    /// State of each sample
    pub states: Vec<PositionVelocityRecord>,
}

/// What a query on a uniform segment comes to.
pub enum UniformEvaluation {
    /// The time is the epoch of a stored record: that record, exactly.
    Exact(PositionVelocityRecord),
    /// The samples to interpolate between, one Hermite polynomial per axis.
    Interpolate(UniformWindow),
}

impl<'a> HermiteSetType12<'a> {
    /// There is at least one record, and the first epoch and the step are finite.
    pub open spec fn wf(&self) -> bool {
        &&& self.num_records > 0
        &&& finite(self.first_state_epoch)
        &&& finite(self.step_size)
    }

    /// Whether record `k` can be read: records are at least six values wide
    /// and record `k` ends within the data.
    pub open spec fn record_readable(&self, k: int) -> bool {
        let len = self.record_data@.len() as int;
        &&& stride(len, self.num_records as int) >= 6
        &&& record_end(len, self.num_records as int, k) <= len
    }

    /// Record `k` of the state data.
    pub open spec fn record_spec(&self, k: int) -> PositionVelocityRecord {
        let len = self.record_data@.len() as int;
        let w = stride(len, self.num_records as int);
        record_of(self.record_data@.subrange(k * w, record_end(len, self.num_records as int, k)))
    }

    /// Number of samples in an interpolation window.
    pub open spec fn samples_spec(&self) -> int {
        self.window_size + 1
    }

    /// Decodes a segment buffer whose last four values are the first epoch's
    /// seconds, the step in seconds, the window size and the record count;
    /// the values before them are the state data.
    pub fn from_slice_f64(slice: &'a [u64]) -> (r: Result<Self, AniseError>)
        ensures
            slice@.len() < 5 ==> r == Err::<Self, AniseError>(AniseError::MalformedData(5)),
            slice@.len() >= 5 && (!finite(slice@[slice@.len() - 4]) || !finite(
                slice@[slice@.len() - 3],
            )) ==> r == Err::<Self, AniseError>(
                AniseError::IntegrityError(IntegrityErrorKind::SubNormal)),
            slice@.len() >= 5 && finite(slice@[slice@.len() - 4]) && finite(slice@[slice@.len() - 3])
                && truncated(slice@[slice@.len() - 1]) == 0 ==> r == Err::<Self, AniseError>(
                AniseError::MalformedData(10)),
            r is Ok <==> (slice@.len() >= 5 && finite(slice@[slice@.len() - 4]) && finite(
                slice@[slice@.len() - 3],
            ) && truncated(slice@[slice@.len() - 1]) > 0),
            r matches Ok(seg) ==> {
                &&& seg.wf()
                &&& seg.first_state_epoch == slice@[slice@.len() - 4]
                &&& seg.step_size == slice@[slice@.len() - 3]
                &&& seg.window_size == truncated(slice@[slice@.len() - 2])
                &&& seg.num_records == truncated(slice@[slice@.len() - 1])
                &&& seg.record_data@ == slice@.subrange(0, slice@.len() - 4)
            },
    {
        let len: usize = slice.len();
        if len < 5 {
            return Err(AniseError::MalformedData(5));
        }
        let first_state_epoch: u64 = slice[len - 4];
        if !is_finite(first_state_epoch) {
            return Err(AniseError::IntegrityError(IntegrityErrorKind::SubNormal));
        }
        let step_size: u64 = slice[len - 3];
        if !is_finite(step_size) {
            return Err(AniseError::IntegrityError(IntegrityErrorKind::SubNormal));
        }
        let window_size: usize = to_usize(slice[len - 2]);
        let num_records: usize = to_usize(slice[len - 1]);
        if num_records == 0 {
            return Err(AniseError::MalformedData(10));
        }
        let record_data = vstd::slice::slice_subrange(slice, 0, len - 4);
        Ok(HermiteSetType12 { first_state_epoch, step_size, window_size, num_records, record_data })
    }

    /// Record `n`, of width data length / record count; when it cannot be
    /// read the error carries the offset its end would have needed.
    pub fn nth_record(&self, n: usize) -> (r: Result<PositionVelocityRecord, AniseError>)
        requires
            self.wf(),
        ensures
            self.record_readable(n as int) ==> r == Ok::<PositionVelocityRecord, AniseError>(
                self.record_spec(n as int)),
            !self.record_readable(n as int) ==> r == Err::<PositionVelocityRecord, AniseError>(
                AniseError::MalformedData(
                    saturate(
                        record_end(self.record_data@.len() as int, self.num_records as int, n as int),
                    ) as usize,
                )),
    {
        nth_record_in(self.record_data, self.num_records, n)
    }

    /// Answers a query at time `t` (bit pattern of ephemeris-time seconds),
    /// given where `t` falls among the uniform epochs: at the epoch of record
    /// `k` (`Found(k)`), or strictly before the epoch of record `i`
    /// (`Between(i)`). A time at no record epoch fails with missing data; a
    /// stored epoch gives its record exactly; otherwise the window of
    /// records around `i` is gathered, and the failure to read any of them
    /// is passed on.
    pub fn evaluate(&self, t: u64, position: Search) -> (r: Result<UniformEvaluation, AniseError>)
        requires
            self.wf(),
        ensures
            position is Unordered ==> r == Err::<UniformEvaluation, AniseError>(
                AniseError::IntegrityError(IntegrityErrorKind::SubNormal)),
            (position matches Search::Found(k) ==> (k >= self.num_records ==> r == Err::<
                UniformEvaluation,
                AniseError,
            >(AniseError::MissingInterpolationData(t)))),
            (position matches Search::Found(k) ==> (k < self.num_records && self.record_readable(
                k as int,
            ) ==> r == Ok::<UniformEvaluation, AniseError>(
                UniformEvaluation::Exact(self.record_spec(k as int))))),
            (position matches Search::Found(k) ==> (k < self.num_records && !self.record_readable(
                k as int,
            ) ==> r matches Err(AniseError::MalformedData(_)))),
            (position matches Search::Between(i) ==> ((i == 0 || i >= self.num_records) ==> r
                == Err::<UniformEvaluation, AniseError>(AniseError::MissingInterpolationData(t)))),
            (position matches Search::Between(i) ==> ((0 < i < self.num_records && (
            self.samples_spec() > MAX_SAMPLES || self.samples_spec() > self.num_records)) ==> r
                == Err::<UniformEvaluation, AniseError>(
                AniseError::TooManySamples(saturate(self.samples_spec()) as usize)))),
            (position matches Search::Between(i) ==> ((0 < i < self.num_records
                && self.samples_spec() <= MAX_SAMPLES && self.samples_spec() <= self.num_records
                && self.record_readable(
                window_start(i as int, self.samples_spec(), self.num_records as int)
                    + self.samples_spec() - 1,
            )) ==> (r matches Ok(UniformEvaluation::Interpolate(w)) && w.first == window_start(
                i as int,
                self.samples_spec(),
                self.num_records as int,
            ) && w.states@.len() == self.samples_spec() && forall|j: int|
                0 <= j < self.samples_spec() ==> #[trigger] w.states@[j] == self.record_spec(
                    w.first + j,
                )))),
            (position matches Search::Between(i) ==> ((0 < i < self.num_records
                && self.samples_spec() <= MAX_SAMPLES && self.samples_spec() <= self.num_records
                && !self.record_readable(
                window_start(i as int, self.samples_spec(), self.num_records as int)
                    + self.samples_spec() - 1,
            )) ==> r matches Err(AniseError::MalformedData(_)))),
    {
        let n: usize = self.num_records;
        match position {
            Search::Unordered => Err(AniseError::IntegrityError(IntegrityErrorKind::SubNormal)),
            Search::Found(k) => {
                if k >= n {
                    return Err(AniseError::MissingInterpolationData(t));
                }
                match self.nth_record(k) {
                    Ok(rec) => Ok(UniformEvaluation::Exact(rec)),
                    Err(err) => Err(err),
                }
            },
            Search::Between(i) => {
                if i == 0 || i >= n {
                    return Err(AniseError::MissingInterpolationData(t));
                }
                if self.window_size >= MAX_SAMPLES || self.window_size >= n {
                    if self.window_size == usize::MAX {
                        return Err(AniseError::TooManySamples(usize::MAX));
                    }
                    return Err(AniseError::TooManySamples(self.window_size + 1));
                }
                let samples: usize = self.window_size + 1;
                let first: usize = first_window_index(i, samples, n);
                let mut states: Vec<PositionVelocityRecord> = Vec::new();
                let mut j: usize = 0;
                while j < samples
                    invariant
                        self.wf(),
                        samples == self.samples_spec(),
                        first + samples <= n,
                        n == self.num_records,
                        j <= samples,
                        states@.len() == j,
                        forall|k: int| 0 <= k < j ==> #[trigger] states@[k] == self.record_spec(
                            first + k),
                        j > 0 ==> self.record_readable(first + j - 1),
                        position matches Search::Between(p) && p == i,
                        0 < i < n,
                        samples <= MAX_SAMPLES,
                        first == window_start(i as int, samples as int, n as int),
                    decreases samples - j,
                {
                    proof {
                        if self.record_readable(first + samples - 1) {
                            self.lemma_readable_prefix(
                                (first + j) as int,
                                (first + samples - 1) as int,
                            );
                        }
                    }
                    match self.nth_record(first + j) {
                        Ok(rec) => states.push(rec),
                        Err(err) => {
                            return Err(err);
                        },
                    }
                    j = j + 1;
                }
                Ok(UniformEvaluation::Interpolate(UniformWindow { first, states }))
            },
        }
    }

    /// A record before a readable one is readable too.
    proof fn lemma_readable_prefix(&self, k: int, m: int)
        requires
            0 <= k <= m,
            self.record_readable(m),
        ensures
            self.record_readable(k),
    {
        let len = self.record_data@.len() as int;
        let w = stride(len, self.num_records as int);
        assert((k + 1) * w <= (m + 1) * w) by (nonlinear_arith)
            requires
                k <= m,
                w >= 0,
        ;
    }

    /// Checks that every state value is finite.
    pub fn check_integrity(&self) -> (r: Result<(), AniseError>)
        ensures
            r is Ok <==> all_finite(self.record_data@),
            r is Err ==> r == Err::<(), AniseError>(
                AniseError::IntegrityError(IntegrityErrorKind::SubNormal)),
    {
        if !check_all_finite(self.record_data) {
            return Err(AniseError::IntegrityError(IntegrityErrorKind::SubNormal));
        }
        Ok(())
    }
}

} // verus!
