//! Locating a time among ascending epochs, and choosing the window of
//! consecutive records that an interpolation uses.
use vstd::prelude::*;
use crate::bits::{is_nan, key, nan, order_key};

verus! {

/// Largest number of samples an interpolation window may hold.
pub const MAX_SAMPLES: usize = 32;

/// The epochs are strictly ascending and none is a NaN.
pub open spec fn ascending(e: Seq<u64>) -> bool {
    &&& forall|i: int| 0 <= i < e.len() ==> !nan(#[trigger] e[i])
    &&& forall|i: int, j: int| 0 <= i < j < e.len() ==> key(#[trigger] e[i]) < key(#[trigger] e[j])
}

/// Some epoch of `e` equals the time `t` as a floating-point number.
pub open spec fn holds_time(e: Seq<u64>, t: u64) -> bool {
    exists|i: int| 0 <= i < e.len() && key(#[trigger] e[i]) == key(t)
}

/// The index of an epoch of `e` equal to `t`.
pub open spec fn index_of_time(e: Seq<u64>, t: u64) -> int {
    choose|i: int| 0 <= i < e.len() && key(#[trigger] e[i]) == key(t)
}

/// How many epochs of `e` come strictly before `t`: where `t` would be inserted.
pub open spec fn insertion_point(e: Seq<u64>, t: u64) -> int {
    e.filter(|x: u64| key(x) < key(t)).len() as int
}

/// First record of the window of `s` consecutive records (out of `n`) used
/// around insertion point `i`: `s / 2` records before `i`, clamped at 0 on
/// the left, and moved left so that the window ends by `n`.
pub open spec fn window_start(i: int, s: int, n: int) -> int {
    let left = if i - s / 2 < 0 { 0 } else { i - s / 2 };
    if left > n - s { n - s } else { left }
}

/// The window start, computed without underflow or overflow.
pub fn first_window_index(i: usize, s: usize, n: usize) -> (r: usize)
    requires
        s <= n,
    ensures
        r == window_start(i as int, s as int, n as int),
{
    let left: usize = i.saturating_sub(s / 2);
    if left > n - s {
        n - s
    } else {
        left
    }
}

/// A window never starts before the first record and always holds exactly
/// `s` records that all exist; near the first record its left margin stops
/// at 0, and near the last record it moves left instead of shrinking.
pub proof fn lemma_window_bounds(i: int, s: int, n: int)
    requires
        1 <= s <= n,
        0 <= i <= n,
    ensures
        0 <= window_start(i, s, n),
        window_start(i, s, n) + s <= n,
        i <= s / 2 ==> window_start(i, s, n) == 0,
        i - s / 2 + s >= n ==> window_start(i, s, n) == n - s,
        window_start(i, s, n) <= i,
{
}

/// Outcome of searching the epochs for a time.
pub enum Search {
    /// Index of an epoch equal to the time.
    Found(usize),
    /// The time lies strictly between the epochs before and from this index.
    Between(usize),
    /// A NaN epoch was met, so the epochs cannot be ordered.
    Unordered,
}

/// Binary search of `e` for `t` between `start` and `end`, where (on
/// ascending epochs) everything before `start` is earlier than `t` and
/// everything from `end` on is later. On ascending epochs it finds `t`
/// exactly when an epoch equals it, and otherwise gives the insertion point;
/// on other input it still returns.
pub fn search_epochs(e: &[u64], t: u64, start: usize, end: usize) -> (r: Search)
    requires
        !nan(t),
        start <= end <= e@.len(),
        ascending(e@) ==> forall|j: int| 0 <= j < start ==> key(#[trigger] e@[j]) < key(t),
        ascending(e@) ==> forall|j: int| end <= j < e@.len() ==> key(#[trigger] e@[j]) > key(t),
    ensures
        r matches Search::Found(i) ==> i < e@.len() && key(e@[i as int]) == key(t),
        r matches Search::Between(i) ==> i <= e@.len(),
        r is Unordered ==> exists|i: int| 0 <= i < e@.len() && nan(#[trigger] e@[i]),
        ascending(e@) ==> !(r is Unordered),
        ascending(e@) ==> (r matches Search::Between(i) ==> (!holds_time(e@, t) && i
            == insertion_point(e@, t))),
        ascending(e@) && !holds_time(e@, t) ==> r is Between,
{
    let kt: i64 = order_key(t);
    let mut lo: usize = start;
    let mut hi: usize = end;
    while lo < hi
        invariant
            lo <= hi <= e@.len(),
            kt as int == key(t),
            ascending(e@) ==> forall|j: int| 0 <= j < lo ==> key(#[trigger] e@[j]) < key(t),
            ascending(e@) ==> forall|j: int| hi <= j < e@.len() ==> key(#[trigger] e@[j]) > key(t),
        decreases hi - lo,
    {
        let mid: usize = lo + (hi - lo) / 2;
        if is_nan(e[mid]) {
            assert(nan(e@[mid as int]));
            return Search::Unordered;
        }
        let km: i64 = order_key(e[mid]);
        if km == kt {
            return Search::Found(mid);
        } else if km < kt {
            lo = mid + 1;
        } else {
            hi = mid;
        }
    }
    proof {
        if ascending(e@) {
            assert(!holds_time(e@, t));
            lemma_insertion_point(e@, t, lo as int);
        }
    }
    Search::Between(lo)
}

/// Epochs between consecutive entries of an epoch directory.
pub const DIRECTORY_STEP: usize = 100;

/// `dir` is a complete epoch directory of `e`: one entry per full hundred
/// epochs after the first, entry `j` repeating epoch `100 j + 99`.
pub open spec fn directory_agrees(e: Seq<u64>, dir: Seq<u64>) -> bool {
    &&& dir.len() > 0
    &&& e.len() > 0
    &&& dir.len() == (e.len() - 1) / 100
    &&& forall|j: int| 0 <= j < dir.len() ==> #[trigger] dir[j] == e[100 * j + 99]
}

/// Narrows the search for `t` among the epochs `e` with the epoch directory
/// `dir`, whose entry `j` repeats epoch `100 j + 99`. The directory is used
/// only when it has one entry per full hundred epochs after the first, and
/// each entry it is read at agrees with the epoch it repeats; otherwise the
/// whole of `e` is returned.
pub fn directory_bounds(e: &[u64], dir: &[u64], t: u64) -> (r: (usize, usize))
    requires
        !nan(t),
        e@.len() > 0,
    ensures
        r.0 <= r.1 <= e@.len(),
        ascending(e@) ==> forall|j: int| 0 <= j < r.0 ==> key(#[trigger] e@[j]) < key(t),
        ascending(e@) ==> forall|j: int| r.1 <= j < e@.len() ==> key(#[trigger] e@[j]) > key(t),
        ascending(e@) && directory_agrees(e@, dir@) ==> r.1 - r.0 <= DIRECTORY_STEP,
{
    let n: usize = e.len();
    let m: usize = dir.len();
    if m == 0 || m != (n - 1) / DIRECTORY_STEP {
        return (0, n);
    }
    let kt: i64 = order_key(t);
    let mut lo: usize = 0;
    let mut hi: usize = m;
    let mut low_idx: usize = 0;
    let mut high_idx: usize = n;
    while lo < hi
        invariant
            m == dir@.len(),
            m == (n - 1) / 100,
            n == e@.len(),
            n > 0,
            kt as int == key(t),
            lo <= hi <= m,
            low_idx == 100 * lo,
            DIRECTORY_STEP == 100,
            hi < m ==> high_idx == 100 * hi + 99,
            hi == m ==> high_idx == n,
            ascending(e@) ==> forall|j: int| 0 <= j < low_idx ==> key(#[trigger] e@[j]) < key(t),
            ascending(e@) ==> forall|j: int| high_idx <= j < n ==> key(#[trigger] e@[j]) > key(t),
        decreases hi - lo,
    {
        let mid: usize = lo + (hi - lo) / 2;
        assert(100 * mid + 99 < n) by (nonlinear_arith)
            requires
                mid < m,
                m == (n - 1) / 100,
                n > 0,
        ;
        let at: usize = 100 * mid + 99;
        if dir[mid] != e[at] || is_nan(e[at]) {
            proof {
                if ascending(e@) && directory_agrees(e@, dir@) {
                    assert(dir@[mid as int] == e@[100 * mid + 99]);
                    assert(!nan(e@[at as int]));
                }
            }
            return (0, n);
        }
        let km: i64 = order_key(e[at]);
        if km == kt {
            return (at, at + 1);
        } else if km < kt {
            lo = mid + 1;
            low_idx = at + 1;
        } else {
            hi = mid;
            high_idx = at;
        }
    }
    assert(100 * m <= n - 1);
    assert(n <= 100 * m + 100);
    assert(low_idx <= high_idx <= n);
    (low_idx, high_idx)
}

/// On ascending epochs, the epochs before `t` are exactly a prefix.
proof fn lemma_insertion_point(e: Seq<u64>, t: u64, lo: int)
    requires
        0 <= lo <= e.len(),
        forall|j: int| 0 <= j < lo ==> key(#[trigger] e[j]) < key(t),
        forall|j: int| lo <= j < e.len() ==> key(#[trigger] e[j]) > key(t),
    ensures
        insertion_point(e, t) == lo,
    decreases e.len(),
{
    let f = |x: u64| key(x) < key(t);
    reveal(Seq::filter);
    if e.len() == 0 {
    } else {
        let p = e.drop_last();
        if lo == e.len() {
            lemma_insertion_point(p, t, lo - 1);
            assert(e.filter(f) == p.filter(f).push(e.last()));
        } else {
            lemma_insertion_point(p, t, lo);
            assert(e.filter(f) == p.filter(f));
        }
    }
}

} // verus!
