//! Catalog verdicts: what one batch's answer says about its identifiers.
//!
//! One batch of candidate identifiers goes to the remote catalog as one
//! query; the caller hands back either the parsed response or, when the
//! call failed in any way — network error, unreadable body, unparsable
//! body — nothing. The policy fails open: with no well-formed response,
//! every identifier of the batch counts as unsubmitted, a deliberate bias
//! toward archiving too much rather than silently dropping a folder. Note
//! what that costs: during an outage a run's output is indistinguishable
//! from "everything is unsubmitted". Under a well-formed response an
//! identifier counts as unsubmitted exactly when no matched record carries
//! it.

use crate::bytes::bytes_clone;
use crate::candidates::CandidateMap;
use crate::folders::FolderSet;
use vstd::prelude::*;

verus! {

/// A well-formed catalog answer: the records matched by the queried
/// identifiers. An identifier with no record here is not in the catalog.
pub struct GetBeatmapsResponse {
    pub beatmaps: Vec<Beatmap>,
}

/// One matched catalog record. Only `id` decides verdicts; the rest names
/// the record for whoever reads the run's diagnostics.
pub struct Beatmap {
    pub id: u64,
    pub version: String,
    pub beatmapset: Beatmapset,
}

/// The record set a matched record belongs to.
pub struct Beatmapset {
    pub artist: String,
    pub title: String,
}

/// Cover image addresses of a record set, as the catalog serves them.
pub struct Covers {
    pub cover: String,
    pub cover_2x: String,
    pub card: String,
    pub card_2x: String,
    pub list: String,
    pub list_2x: String,
    pub slimcover: String,
    pub slimcover_2x: String,
}

/// A record set's nomination tally.
pub struct NominationsSummary {
    pub current: i32,
    pub eligible_main_rulesets: Vec<String>,
    pub required_meta: RequiredMeta,
}

/// Nominations a record set needs per ruleset.
pub struct RequiredMeta {
    pub main_ruleset: i32,
    pub non_main_ruleset: i32,
}

/// Whether a record set may be downloaded, and why not.
pub struct Availability {
    pub download_disabled: bool,
    pub more_information: Option<String>,
}

/// Where players failed or quit a record, per track section.
pub struct FailTimes {
    pub fail: Vec<i32>,
    pub exit: Vec<i32>,
}

/// Whether a response's matched records include the identifier.
pub open spec fn spec_response_matches(r: GetBeatmapsResponse, id: u64) -> bool {
    exists|k: int| 0 <= k < r.beatmaps@.len() && (#[trigger] r.beatmaps@[k]).id == id
}

/// The verdict for one identifier of a batch answered by `resp`: with no
/// well-formed response every identifier of the batch is unsubmitted (the
/// fail-open policy); with one, an identifier is unsubmitted exactly when
/// no matched record carries it.
pub open spec fn spec_unsubmitted(resp: Option<GetBeatmapsResponse>, id: u64) -> bool {
    match resp {
        None => true,
        Some(r) => !spec_response_matches(r, id),
    }
}

fn response_matches(r: &GetBeatmapsResponse, id: u64) -> (b: bool)
    ensures
        b == spec_response_matches(*r, id),
{
    let n = r.beatmaps.len();
    let mut k: usize = 0;
    while k < n
        invariant
            k <= n == r.beatmaps@.len(),
            forall|j: int| 0 <= j < k ==> (#[trigger] r.beatmaps@[j]).id != id,
        decreases n - k,
    {
        if r.beatmaps[k].id == id {
            return true;
        }
        k = k + 1;
    }
    false
}

/// The verdict for one identifier, as [`spec_unsubmitted`] gives it.
pub fn is_unsubmitted(resp: &Option<GetBeatmapsResponse>, id: u64) -> (b: bool)
    ensures
        b == spec_unsubmitted(*resp, id),
{
    match resp {
        None => true,
        Some(r) => !response_matches(r, id),
    }
}

/// The folder set after one batch's verdicts are folded in: what was there
/// stays, and the folder of every batch identifier whose verdict is
/// "unsubmitted" joins.
pub open spec fn spec_apply_batch(
    s: Set<Seq<u8>>,
    entries: Seq<(u64, Seq<u8>)>,
    lo: int,
    hi: int,
    resp: Option<GetBeatmapsResponse>,
) -> Set<Seq<u8>> {
    Set::new(
        |f: Seq<u8>|
            s.contains(f) || exists|k: int|
                lo <= k < hi && spec_unsubmitted(resp, (#[trigger] entries[k]).0) && entries[k].1
                    == f,
    )
}

/// Folds one batch's verdicts into the unsubmitted folder set: for every
/// candidate entry of the batch whose verdict is "unsubmitted", the owning
/// folder is inserted.
#[verifier::loop_isolation(false)]
pub fn apply_batch(
    set: &mut FolderSet,
    cm: &CandidateMap,
    lo: usize,
    hi: usize,
    resp: &Option<GetBeatmapsResponse>,
)
    requires
        lo <= hi <= cm@.len(),
        old(set).wf(),
    ensures
        final(set).wf(),
        final(set).to_set() == spec_apply_batch(
            old(set).to_set(),
            cm@,
            lo as int,
            hi as int,
            *resp,
        ),
{
    let ghost s0 = set.to_set();
    let mut k = lo;
    proof {
        assert(set.to_set() =~= spec_apply_batch(s0, cm@, lo as int, lo as int, *resp));
    }
    while k < hi
        invariant
            lo <= k <= hi,
            set.wf(),
            set.to_set() == spec_apply_batch(s0, cm@, lo as int, k as int, *resp),
        decreases hi - k,
    {
        let ghost pre = set.to_set();
        let id = cm.id_at(k);
        let verdict = is_unsubmitted(resp, id);
        if verdict {
            set.insert(bytes_clone(cm.folder_at(k)));
        }
        proof {
            assert forall|g: Seq<u8>|
                set.to_set().contains(g) == spec_apply_batch(
                    s0,
                    cm@,
                    lo as int,
                    k + 1,
                    *resp,
                ).contains(g) by {
                if set.to_set().contains(g) {
                    if pre.contains(g) {
                        if !s0.contains(g) {
                            let k2 = choose|k2: int|
                                lo <= k2 < k && spec_unsubmitted(*resp, (#[trigger] cm@[k2]).0)
                                    && cm@[k2].1 == g;
                            assert(lo <= k2 < k + 1 && spec_unsubmitted(*resp, cm@[k2].0)
                                && cm@[k2].1 == g);
                        }
                    } else {
                        assert(verdict && g == cm@[k as int].1);
                        assert(lo <= k < k + 1 && spec_unsubmitted(*resp, cm@[k as int].0)
                            && cm@[k as int].1 == g);
                    }
                }
                if spec_apply_batch(s0, cm@, lo as int, k + 1, *resp).contains(g) {
                    if !s0.contains(g) {
                        let k2 = choose|k2: int|
                            lo <= k2 < k + 1 && spec_unsubmitted(*resp, (#[trigger] cm@[k2]).0)
                                && cm@[k2].1 == g;
                        if k2 < k {
                            assert(pre.contains(g));
                        } else {
                            assert(set.to_set().contains(g));
                        }
                    }
                }
            }
            assert(set.to_set() =~= spec_apply_batch(s0, cm@, lo as int, k + 1, *resp));
        }
        k = k + 1;
    }
}

/// Fail-open, stated once and for all: when a batch's call failed, the
/// owning folder of every identifier in the batch is in the folded-in set.
pub proof fn lemma_failed_batch_all_included(
    s: Set<Seq<u8>>,
    entries: Seq<(u64, Seq<u8>)>,
    lo: int,
    hi: int,
)
    ensures
        forall|k: int|
            lo <= k < hi ==> spec_apply_batch(s, entries, lo, hi, None).contains(
                (#[trigger] entries[k]).1,
            ),
{
    assert forall|k: int|
        lo <= k < hi implies spec_apply_batch(s, entries, lo, hi, None).contains(
        (#[trigger] entries[k]).1,
    ) by {
        assert(spec_unsubmitted(None, entries[k].0) && entries[k].1 == entries[k].1);
    }
}

/// A folder whose every batch identifier is matched by a well-formed
/// response is not added: it is in the folded-in set only if it already was
/// in the set — reachable still through a sentinel or another identifier,
/// never through a confirmed one.
pub proof fn lemma_confirmed_folder_not_added(
    s: Set<Seq<u8>>,
    entries: Seq<(u64, Seq<u8>)>,
    lo: int,
    hi: int,
    r: GetBeatmapsResponse,
    f: Seq<u8>,
)
    requires
        !s.contains(f),
        forall|k: int|
            lo <= k < hi && (#[trigger] entries[k]).1 == f ==> spec_response_matches(
                r,
                entries[k].0,
            ),
    ensures
        !spec_apply_batch(s, entries, lo, hi, Some(r)).contains(f),
{
    if spec_apply_batch(s, entries, lo, hi, Some(r)).contains(f) {
        let k = choose|k: int|
            lo <= k < hi && spec_unsubmitted(Some(r), (#[trigger] entries[k]).0) && entries[k].1
                == f;
        assert(spec_response_matches(r, entries[k].0));
    }
}

/// Folding a batch in never removes a folder, whatever the response — in
/// particular, the sentinel-seeded folders survive every batch.
pub proof fn lemma_apply_batch_grows(
    s: Set<Seq<u8>>,
    entries: Seq<(u64, Seq<u8>)>,
    lo: int,
    hi: int,
    resp: Option<GetBeatmapsResponse>,
    f: Seq<u8>,
)
    requires
        s.contains(f),
    ensures
        spec_apply_batch(s, entries, lo, hi, resp).contains(f),
{
}

/// The decimal digits of `n`, most significant first.
pub open spec fn spec_decimal(n: u64) -> Seq<u8>
    decreases n,
{
    if n < 10 {
        seq![(48 + n) as u8]
    } else {
        spec_decimal((n / 10) as u64).push((48 + n % 10) as u8)
    }
}

/// Renders one identifier as decimal digit bytes for the query string.
pub fn decimal_bytes(n: u64) -> (r: Vec<u8>)
    ensures
        r@ == spec_decimal(n),
    decreases n,
{
    if n < 10 {
        let mut v: Vec<u8> = Vec::new();
        v.push(48 + n as u8);
        proof {
            assert(v@ =~= spec_decimal(n));
        }
        v
    } else {
        let mut v = decimal_bytes(n / 10);
        v.push(48 + (n % 10) as u8);
        proof {
            assert(v@ =~= spec_decimal(n));
        }
        v
    }
}

/// The decimal renderings of a batch's identifiers, in batch order: the
/// values of the repeated query parameter the dispatch carries.
pub fn query_values(ids: &Vec<u64>) -> (r: Vec<Vec<u8>>)
    ensures
        r@.len() == ids@.len(),
        forall|i: int| 0 <= i < ids@.len() ==> (#[trigger] r@[i])@ == spec_decimal(ids@[i]),
{
    let n = ids.len();
    let mut r: Vec<Vec<u8>> = Vec::new();
    let mut i: usize = 0;
    while i < n
        invariant
            i <= n == ids@.len(),
            r@.len() == i,
            forall|j: int| 0 <= j < i ==> (#[trigger] r@[j])@ == spec_decimal(ids@[j]),
        decreases n - i,
    {
        r.push(decimal_bytes(ids[i]));
        i = i + 1;
    }
    r
}

} // verus!
