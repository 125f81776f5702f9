//! Reconciliation of a whole run: every batch's verdicts folded into the
//! sentinel-seeded folder set.
//!
//! The candidate entries are split into their batches; batch `i` is
//! answered by the `i`-th response — a parsed catalog answer, or nothing
//! where the call failed — and its verdicts are folded in, in batch order.
//! The laws of the run are stated here over the fold: a seeded folder
//! survives every response; a folder whose every identifier is matched by a
//! well-formed response is never added; and a failed batch contributes
//! every one of its folders.

use crate::batching::{batch_bounds, spec_batch_count, spec_batch_end};
use crate::candidates::CandidateMap;
use crate::catalog::{
    apply_batch, lemma_apply_batch_grows, lemma_failed_batch_all_included, spec_apply_batch,
    spec_response_matches, spec_unsubmitted, GetBeatmapsResponse,
};
use crate::folders::FolderSet;
use vstd::prelude::*;

verus! {

/// The folder set after the first `i` batches' verdicts are folded into
/// `s`: batch `j` covers the entries from `50 * j` to `spec_batch_end(j)`
/// and is judged by `responses[j]`.
pub open spec fn spec_reconcile(
    s: Set<Seq<u8>>,
    entries: Seq<(u64, Seq<u8>)>,
    responses: Seq<Option<GetBeatmapsResponse>>,
    i: int,
) -> Set<Seq<u8>>
    decreases i,
{
    if i <= 0 {
        s
    } else {
        spec_apply_batch(
            spec_reconcile(s, entries, responses, i - 1),
            entries,
            50 * (i - 1),
            spec_batch_end(i - 1, entries.len() as int),
            responses[i - 1],
        )
    }
}

/// Folds every batch's verdicts into the seeded folder set, one batch after
/// the other, in batch order: the whole verification pass, once the caller
/// has gathered one response (or failure) per batch.
#[verifier::loop_isolation(false)]
pub fn reconcile(
    set: &mut FolderSet,
    cm: &CandidateMap,
    responses: &Vec<Option<GetBeatmapsResponse>>,
)
    requires
        old(set).wf(),
        responses@.len() == spec_batch_count(cm@.len() as int),
    ensures
        final(set).wf(),
        final(set).to_set() == spec_reconcile(
            old(set).to_set(),
            cm@,
            responses@,
            responses@.len() as int,
        ),
{
    let ghost s0 = set.to_set();
    let bounds = batch_bounds(cm.len());
    let n = bounds.len();
    let mut i: usize = 0;
    while i < n
        invariant
            i <= n == responses@.len(),
            set.wf(),
            set.to_set() == spec_reconcile(s0, cm@, responses@, i as int),
        decreases n - i,
    {
        let (lo, hi) = bounds[i];
        apply_batch(set, cm, lo, hi, &responses[i]);
        i = i + 1;
    }
}

/// A folder present before reconciliation — a sentinel-seeded one — is
/// present after it, whatever every batch answered.
pub proof fn lemma_reconcile_keeps_seeds(
    s: Set<Seq<u8>>,
    entries: Seq<(u64, Seq<u8>)>,
    responses: Seq<Option<GetBeatmapsResponse>>,
    i: int,
    f: Seq<u8>,
)
    requires
        s.contains(f),
    ensures
        spec_reconcile(s, entries, responses, i).contains(f),
    decreases i,
{
    if i > 0 {
        lemma_reconcile_keeps_seeds(s, entries, responses, i - 1, f);
        lemma_apply_batch_grows(
            spec_reconcile(s, entries, responses, i - 1),
            entries,
            50 * (i - 1),
            spec_batch_end(i - 1, entries.len() as int),
            responses[i - 1],
            f,
        );
    }
}

/// A folder that was not seeded, and whose every identifier is confirmed
/// present by its batch's well-formed response, is absent from the final
/// set: nothing adds it.
pub proof fn lemma_reconcile_confirmed_absent(
    s: Set<Seq<u8>>,
    entries: Seq<(u64, Seq<u8>)>,
    responses: Seq<Option<GetBeatmapsResponse>>,
    i: int,
    f: Seq<u8>,
)
    requires
        !s.contains(f),
        forall|k: int|
            0 <= k < entries.len() && (#[trigger] entries[k]).1 == f ==> (responses[k / 50]
                matches Some(r) && spec_response_matches(r, entries[k].0)),
    ensures
        !spec_reconcile(s, entries, responses, i).contains(f),
    decreases i,
{
    if i > 0 {
        lemma_reconcile_confirmed_absent(s, entries, responses, i - 1, f);
        let prev = spec_reconcile(s, entries, responses, i - 1);
        let lo = 50 * (i - 1);
        let hi = spec_batch_end(i - 1, entries.len() as int);
        if spec_apply_batch(prev, entries, lo, hi, responses[i - 1]).contains(f) {
            let k = choose|k: int|
                lo <= k < hi && spec_unsubmitted(responses[i - 1], (#[trigger] entries[k]).0)
                    && entries[k].1 == f;
            assert(k / 50 == i - 1) by {
                assert(50 * (i - 1) <= k < 50 * (i - 1) + 50);
            }
            assert(responses[i - 1] matches Some(r) && spec_response_matches(r, entries[k].0));
            assert(!spec_unsubmitted(responses[i - 1], entries[k].0));
        }
    }
}

/// Fail-open over the whole run: when batch `b`'s call failed, the owning
/// folder of every one of its entries is in the final set.
pub proof fn lemma_reconcile_failed_batch(
    s: Set<Seq<u8>>,
    entries: Seq<(u64, Seq<u8>)>,
    responses: Seq<Option<GetBeatmapsResponse>>,
    i: int,
    b: int,
    k: int,
)
    requires
        0 <= b < i,
        responses[b] is None,
        50 * b <= k < spec_batch_end(b, entries.len() as int),
    ensures
        spec_reconcile(s, entries, responses, i).contains(entries[k].1),
    decreases i,
{
    if i == b + 1 {
        lemma_failed_batch_all_included(
            spec_reconcile(s, entries, responses, b),
            entries,
            50 * b,
            spec_batch_end(b, entries.len() as int),
        );
    } else {
        lemma_reconcile_failed_batch(s, entries, responses, i - 1, b, k);
        lemma_apply_batch_grows(
            spec_reconcile(s, entries, responses, i - 1),
            entries,
            50 * (i - 1),
            spec_batch_end(i - 1, entries.len() as int),
            responses[i - 1],
            entries[k].1,
        );
    }
}

} // verus!
