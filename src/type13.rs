//! Hermite segments with irregularly spaced epochs (SPK data type 13).
use vstd::prelude::*;
use crate::bits::{is_nan, key, nan, order_key, to_usize, truncated};
use crate::errors::{AniseError, IntegrityErrorKind};
use crate::record::{
    PositionVelocityRecord, all_finite, check_all_finite, nth_record_in, record_end, record_of,
    saturate, stride,
};
use crate::window::{
    MAX_SAMPLES, Search, ascending, directory_bounds, first_window_index, holds_time, index_of_time,
    insertion_point, search_epochs, window_start,
};

verus! {

/// A type 13 segment: borrowed views of state records, their epochs and the
/// epoch directory, all partitions of one caller-owned buffer.
pub struct HermiteSetType13<'a> {
    /// Number of samples to use to build the interpolation
    pub samples: usize,
    /// Total number of records stored in this data
    pub num_records: usize,
    /// State data used for the interpolation, six values per record
    pub state_data: &'a [u64],
    /// Epoch of each record, in seconds past J2000 (TDB), expected to be ascending
    pub epoch_data: &'a [u64],
    /// Epoch directory: every hundredth epoch, used to narrow the search
    pub epoch_registry: &'a [u64],
}

/// The records and epochs that a Hermite interpolation is built from.
pub struct HermiteWindow {
    /// Index of the first record of the window
    pub first: usize,
    /// Epoch of each sample
    pub epochs: Vec<u64>,
    /// State of each sample
    pub states: Vec<PositionVelocityRecord>,
}

/// What a query at a time comes to.
pub enum Evaluation {
    /// The time is a stored epoch: its record, with no interpolation.
    Exact(PositionVelocityRecord),
    /// The samples to interpolate between, one Hermite polynomial per axis.
    Interpolate(HermiteWindow),
}

/// Record count declared by the last value of a segment buffer.
pub open spec fn declared_records(b: Seq<u64>) -> int {
    truncated(b[b.len() - 1])
}

/// Sample count declared by the second-to-last value, which stores it minus one.
pub open spec fn declared_samples(b: Seq<u64>) -> int {
    truncated(b[b.len() - 2]) + 1
}

/// Length a buffer declaring `n` records needs: states, epochs and two metadata values.
pub open spec fn required_len(n: int) -> int {
    7 * n + 2
}

/// Six values per record in state data of `6 * n` values.
proof fn lemma_stride(n: int, k: int)
    requires
        n > 0,
        0 <= k < n,
    ensures
        stride(6 * n, n) == 6,
        record_end(6 * n, n, k) == 6 * k + 6,
        record_end(6 * n, n, k) <= 6 * n,
        k * stride(6 * n, n) == 6 * k,
{
    assert((6 * n) / n == 6) by (nonlinear_arith)
        requires
            n > 0,
    ;
    assert((k + 1) * 6 <= 6 * n) by (nonlinear_arith)
        requires
            k < n,
    ;
}

impl<'a> HermiteSetType13<'a> {
    /// There is at least one record, the partition sizes agree with the
    /// record count, and the window is no wider than the supported maximum.
    pub open spec fn wf(&self) -> bool {
        &&& 1 <= self.samples <= MAX_SAMPLES
        &&& self.num_records > 0
        &&& self.state_data@.len() == 6 * self.num_records
        &&& self.epoch_data@.len() == self.num_records
    }

    /// Record `i` of the state data.
    pub open spec fn record_spec(&self, i: int) -> PositionVelocityRecord {
        record_of(self.state_data@.subrange(6 * i, 6 * i + 6))
    }

    /// Degree of the polynomial built from `samples` value/derivative pairs.
    pub fn degree(&self) -> (r: usize)
        requires
            self.wf(),
        ensures
            r == 2 * self.samples - 1,
    {
        2 * self.samples - 1
    }

    /// Decodes a segment buffer: the last value is the record count `n`, the
    /// one before it the window size minus one; the buffer starts with `6 n`
    /// state values, then `n` epochs, then the epoch directory.
    pub fn from_slice_f64(slice: &'a [u64]) -> (r: Result<Self, AniseError>)
        ensures
            slice@.len() < 3 ==> r == Err::<Self, AniseError>(AniseError::MalformedData(3)),
            slice@.len() >= 3 && declared_records(slice@) == 0 ==> r == Err::<Self, AniseError>(
                AniseError::MalformedData(9)),
            slice@.len() >= 3 && declared_records(slice@) > 0 && required_len(
                declared_records(slice@),
            ) > slice@.len() ==> r == Err::<Self, AniseError>(
                AniseError::MalformedData(saturate(required_len(declared_records(slice@))) as usize)),
            slice@.len() >= 3 && declared_records(slice@) > 0 && required_len(
                declared_records(slice@),
            ) <= slice@.len() && declared_samples(slice@) > MAX_SAMPLES ==> r == Err::<
                Self,
                AniseError,
            >(
                AniseError::TooManySamples(saturate(declared_samples(slice@)) as usize)),
            r matches Ok(seg) ==> {
                let n = declared_records(slice@);
                &&& seg.wf()
                &&& seg.num_records == n
                &&& seg.samples == declared_samples(slice@)
                &&& seg.state_data@ == slice@.subrange(0, 6 * n)
                &&& seg.epoch_data@ == slice@.subrange(6 * n, 7 * n)
                &&& seg.epoch_registry@ == slice@.subrange(7 * n, slice@.len() - 2)
            },
            r is Ok <==> (slice@.len() >= 3 && declared_records(slice@) > 0 && required_len(
                declared_records(slice@),
            ) <= slice@.len() && declared_samples(slice@) <= MAX_SAMPLES),
    {
        let len: usize = slice.len();
        if len < 3 {
            return Err(AniseError::MalformedData(3));
        }
        let num_records: usize = to_usize(slice[len - 1]);
        if num_records == 0 {
            return Err(AniseError::MalformedData(9));
        }
        let required: u128 = 7 * (num_records as u128) + 2;
        if required > len as u128 {
            if required > usize::MAX as u128 {
                return Err(AniseError::MalformedData(usize::MAX));
            }
            return Err(AniseError::MalformedData(required as usize));
        }
        let stored: usize = to_usize(slice[len - 2]);
        if stored >= MAX_SAMPLES {
            if stored == usize::MAX {
                return Err(AniseError::TooManySamples(usize::MAX));
            }
            return Err(AniseError::TooManySamples(stored + 1));
        }
        let samples: usize = stored + 1;
        let state_end: usize = 6 * num_records;
        let epoch_end: usize = state_end + num_records;
        let state_data = vstd::slice::slice_subrange(slice, 0, state_end);
        let epoch_data = vstd::slice::slice_subrange(slice, state_end, epoch_end);
        let epoch_registry = vstd::slice::slice_subrange(slice, epoch_end, len - 2);
        Ok(HermiteSetType13 { samples, num_records, state_data, epoch_data, epoch_registry })
    }

    /// Record `n`; it exists for `n` below the record count, and otherwise
    /// the error carries the offset its end would have needed.
    pub fn nth_record(&self, n: usize) -> (r: Result<PositionVelocityRecord, AniseError>)
        requires
            self.wf(),
        ensures
            n < self.num_records ==> r == Ok::<PositionVelocityRecord, AniseError>(
                self.record_spec(n as int)),
            n >= self.num_records ==> r == Err::<PositionVelocityRecord, AniseError>(
                AniseError::MalformedData(saturate(6 * (n + 1)) as usize)),
    {
        let ghost c = self.num_records as int;
        proof {
            assert((6 * c) / c == 6) by (nonlinear_arith)
                requires
                    c > 0,
            ;
            if n < c {
                lemma_stride(c, n as int);
            } else {
                assert((n + 1) * 6 > 6 * c) by (nonlinear_arith)
                    requires
                        n >= c,
                ;
            }
        }
        nth_record_in(self.state_data, self.num_records, n)
    }

    /// Gathers the `samples` consecutive records from `first` on, with their epochs.
    fn gather(&self, first: usize) -> (w: HermiteWindow)
        requires
            self.wf(),
            first + self.samples <= self.num_records,
        ensures
            w.first == first,
            w.epochs@ == self.epoch_data@.subrange(first as int, first + self.samples),
            w.states@.len() == self.samples,
            forall|j: int| 0 <= j < self.samples ==> #[trigger] w.states@[j] == self.record_spec(
                first + j),
    {
        let mut epochs: Vec<u64> = Vec::new();
        let mut states: Vec<PositionVelocityRecord> = Vec::new();
        let mut j: usize = 0;
        while j < self.samples
            invariant
                self.wf(),
                first + self.samples <= self.num_records,
                j <= self.samples,
                epochs@ == self.epoch_data@.subrange(first as int, first + j),
                states@.len() == j,
                forall|k: int| 0 <= k < j ==> #[trigger] states@[k] == self.record_spec(first + k),
            decreases self.samples - j,
        {
            match self.nth_record(first + j) {
                Ok(rec) => states.push(rec),
                Err(_) => {
                    proof {
                        assert(false);
                    }
                },
            }
            epochs.push(self.epoch_data[first + j]);
            assert(epochs@ =~= self.epoch_data@.subrange(first as int, first + j + 1));
            j = j + 1;
        }
        HermiteWindow { first, epochs, states }
    }

    /// Answers a query at time `t` (bit pattern of ephemeris-time seconds).
    /// Outside the first and last epochs it fails with missing data; at a
    /// stored epoch it gives that record exactly; between epochs it gives the
    /// window of `samples` records around where `t` falls, or fails when the
    /// segment holds fewer records than that. A NaN met in the comparisons
    /// is reported as corrupt data.
    pub fn evaluate(&self, t: u64) -> (r: Result<Evaluation, AniseError>)
        requires
            self.wf(),
        ensures
            ({
                let e = self.epoch_data@;
                let n = self.num_records as int;
                &&& (nan(t) || nan(e[0]) || nan(e[n - 1])) ==> r == Err::<Evaluation, AniseError>(
                    AniseError::IntegrityError(IntegrityErrorKind::SubNormal))
                &&& !(nan(t) || nan(e[0]) || nan(e[n - 1])) && (key(t) < key(e[0]) || key(t) > key(
                    e[n - 1],
                )) ==> r == Err::<Evaluation, AniseError>(AniseError::MissingInterpolationData(t))
                &&& ascending(e) && !nan(t) && key(e[0]) <= key(t) <= key(e[n - 1]) && holds_time(e, t)
                    ==> r == Ok::<Evaluation, AniseError>(
                    Evaluation::Exact(self.record_spec(index_of_time(e, t))))
                &&& ascending(e) && !nan(t) && key(e[0]) <= key(t) <= key(e[n - 1]) && !holds_time(
                    e,
                    t,
                ) && self.samples > n ==> r == Err::<Evaluation, AniseError>(
                    AniseError::TooManySamples(self.samples))
            }),
            ({
                let e = self.epoch_data@;
                let n = self.num_records as int;
                let s = self.samples as int;
                ascending(e) && !nan(t) && key(e[0]) <= key(t) <= key(e[n - 1]) && !holds_time(e, t)
                    && s <= n ==> (r matches Ok(Evaluation::Interpolate(w)) && w.first
                    == window_start(insertion_point(e, t), s, n))
            }),
            (r matches Ok(Evaluation::Exact(rec)) ==> exists|i: int|
                0 <= i < self.num_records && key(#[trigger] self.epoch_data@[i]) == key(t) && rec
                    == self.record_spec(i)),
            (r matches Ok(Evaluation::Interpolate(w)) ==> {
                &&& w.first + self.samples <= self.num_records
                &&& w.epochs@ == self.epoch_data@.subrange(w.first as int, w.first + self.samples)
                &&& w.states@.len() == self.samples
                &&& forall|j: int|
                    0 <= j < self.samples ==> #[trigger] w.states@[j] == self.record_spec(w.first + j)
            }),
            r == Err::<Evaluation, AniseError>(AniseError::IntegrityError(IntegrityErrorKind::SubNormal))
                ==> nan(t) || exists|i: int| 0 <= i < self.num_records && nan(#[trigger] self.epoch_data@[i]),
            r == Err::<Evaluation, AniseError>(AniseError::MissingInterpolationData(t)) ==> !nan(t)
                && (key(t) < key(self.epoch_data@[0]) || key(t) > key(
                self.epoch_data@[self.num_records - 1],
            )),
            r matches Err(err) ==> (err == AniseError::IntegrityError(IntegrityErrorKind::SubNormal)
                || err == AniseError::MissingInterpolationData(t) || err == AniseError::TooManySamples(
                self.samples,
            )),
    {
        let n: usize = self.num_records;
        let first_epoch: u64 = self.epoch_data[0];
        let last_epoch: u64 = self.epoch_data[n - 1];
        if is_nan(t) || is_nan(first_epoch) || is_nan(last_epoch) {
            return Err(AniseError::IntegrityError(IntegrityErrorKind::SubNormal));
        }
        let kt: i64 = order_key(t);
        if kt < order_key(first_epoch) || kt > order_key(last_epoch) {
            return Err(AniseError::MissingInterpolationData(t));
        }
        let (start, end) = directory_bounds(self.epoch_data, self.epoch_registry, t);
        match search_epochs(self.epoch_data, t, start, end) {
            Search::Found(idx) => {
                proof {
                    let e = self.epoch_data@;
                    if ascending(e) {
                        assert(holds_time(e, t));
                        let c = index_of_time(e, t);
                        assert(key(e[c]) == key(t));
                        if c < idx {
                            assert(key(e[c]) < key(e[idx as int]));
                        } else if c > idx {
                            assert(key(e[idx as int]) < key(e[c]));
                        }
                    }
                }
                match self.nth_record(idx) {
                    Ok(rec) => Ok(Evaluation::Exact(rec)),
                    Err(err) => Err(err),
                }
            },
            Search::Between(idx) => {
                if self.samples > n {
                    return Err(AniseError::TooManySamples(self.samples));
                }
                let first: usize = first_window_index(idx, self.samples, n);
                Ok(Evaluation::Interpolate(self.gather(first)))
            },
            Search::Unordered => Err(AniseError::IntegrityError(IntegrityErrorKind::SubNormal)),
        }
    }

    /// On ascending epochs, querying the stored epoch of record `k` is an
    /// exact hit on record `k`: it lies within the coverage, it is held, and
    /// the index found for it is `k`, so `evaluate` returns the very record
    /// that `nth_record(k)` returns.
    pub proof fn lemma_exact_hit(&self, k: int)
        requires
            self.wf(),
            ascending(self.epoch_data@),
            0 <= k < self.num_records,
        ensures
            ({
                let e = self.epoch_data@;
                let n = self.num_records as int;
                &&& !nan(e[k])
                &&& !nan(e[0]) && !nan(e[n - 1])
                &&& key(e[0]) <= key(e[k]) <= key(e[n - 1])
                &&& holds_time(e, e[k])
                &&& index_of_time(e, e[k]) == k
            }),
    {
        let e = self.epoch_data@;
        let n = self.num_records as int;
        assert(!nan(e[k]) && !nan(e[0]) && !nan(e[n - 1]));
        if 0 < k {
            assert(key(e[0]) < key(e[k]));
        }
        if k < n - 1 {
            assert(key(e[k]) < key(e[n - 1]));
        }
        assert(holds_time(e, e[k]));
        let c = index_of_time(e, e[k]);
        if c < k {
            assert(key(e[c]) < key(e[k]));
        } else if c > k {
            assert(key(e[k]) < key(e[c]));
        }
    }

    /// Checks that every epoch, then every directory entry, then every state
    /// value is finite.
    pub fn check_integrity(&self) -> (r: Result<(), AniseError>)
        ensures
            r is Ok <==> (all_finite(self.epoch_data@) && all_finite(self.epoch_registry@)
                && all_finite(self.state_data@)),
            r is Err ==> r == Err::<(), AniseError>(
                AniseError::IntegrityError(IntegrityErrorKind::SubNormal)),
    {
        if !check_all_finite(self.epoch_data) {
            return Err(AniseError::IntegrityError(IntegrityErrorKind::SubNormal));
        }
        if !check_all_finite(self.epoch_registry) {
            return Err(AniseError::IntegrityError(IntegrityErrorKind::SubNormal));
        }
        if !check_all_finite(self.state_data) {
            return Err(AniseError::IntegrityError(IntegrityErrorKind::SubNormal));
        }
        Ok(())
    }
}

} // verus!
