//! Partitioning of the candidate identifiers into fixed-size batches.
//!
//! The remote catalog accepts at most [`BATCH_SIZE`] identifiers per call,
//! so the candidates are looked up in consecutive runs of that size: batch
//! `i` covers the candidate entries with indices `50 * i` up to (but not
//! including) `min(50 * (i + 1), n)`. For `n` candidates this yields exactly
//! `ceil(n / 50)` batches, every batch holds at most 50 identifiers, and all
//! but the last hold exactly 50.

use crate::candidates::CandidateMap;
use vstd::prelude::*;

verus! {

/// Identifiers sent to the remote catalog in one call, the service's
/// per-call limit.
pub const BATCH_SIZE: usize = 50;

/// How many batches a run of `n` candidates needs: `ceil(n / 50)`.
pub open spec fn spec_batch_count(n: int) -> int {
    (n + 49) / 50
}

/// Where batch `i` of `n` candidate entries ends: index `50 * (i + 1)`,
/// capped at `n`. The batch starts at index `50 * i`.
pub open spec fn spec_batch_end(i: int, n: int) -> int {
    if 50 * i + 50 <= n {
        50 * i + 50
    } else {
        n
    }
}

/// Splits `n` candidate entries into the index ranges of their batches.
///
/// Each returned pair `(lo, hi)` is the half-open index range of one batch,
/// in dispatch order. There are exactly `ceil(n / 50)` of them, they cover
/// `0..n` consecutively, and no range is longer than 50.
pub fn batch_bounds(n: usize) -> (bounds: Vec<(usize, usize)>)
    ensures
        bounds@.len() == spec_batch_count(n as int),
        forall|i: int|
            0 <= i < bounds@.len() ==> (#[trigger] bounds@[i]).0 == 50 * i && bounds@[i].1 == spec_batch_end(i, n as int),
{
    let mut bounds: Vec<(usize, usize)> = Vec::new();
    let mut lo: usize = 0;
    while lo < n
        invariant
            lo <= n,
            lo == 50 * bounds@.len() || (lo == n && bounds@.len() == spec_batch_count(n as int)),
            forall|i: int|
                0 <= i < bounds@.len() ==> (#[trigger] bounds@[i]).0 == 50 * i && bounds@[i].1
                    == spec_batch_end(i, n as int),
        decreases n - lo,
    {
        let hi = if n - lo >= BATCH_SIZE {
            lo + BATCH_SIZE
        } else {
            n
        };
        bounds.push((lo, hi));
        lo = hi;
    }
    bounds
}

/// The identifiers of the candidate entries in `[lo, hi)`, in entry order:
/// what one batch's dispatch carries.
pub fn batch_ids(cm: &CandidateMap, lo: usize, hi: usize) -> (ids: Vec<u64>)
    requires
        lo <= hi <= cm@.len(),
    ensures
        ids@.len() == hi - lo,
        forall|i: int| 0 <= i < ids@.len() ==> (#[trigger] ids@[i]) == cm@[lo + i].0,
{
    let mut ids: Vec<u64> = Vec::new();
    let mut k = lo;
    while k < hi
        invariant
            lo <= k <= hi <= cm@.len(),
            ids@.len() == k - lo,
            forall|i: int| 0 <= i < ids@.len() ==> (#[trigger] ids@[i]) == cm@[lo + i].0,
        decreases hi - k,
    {
        ids.push(cm.id_at(k));
        k = k + 1;
    }
    ids
}

} // verus!
