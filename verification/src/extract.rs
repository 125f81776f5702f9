//! Extraction: from chart file contents to candidates and seeded folders.
//!
//! Every chart file is scanned for its declared identifier. A sentinel
//! declaration (identifier `0`) puts the owning folder straight into the
//! seed portion of the unsubmitted set; a positive identifier becomes a
//! candidate mapped to its owning folder, the folder processed last winning
//! when the same identifier is declared twice; a file that declares nothing
//! usable contributes nothing.

use crate::bytes::bytes_clone;
use crate::candidates::{has_key, key_index, CandidateMap};
use crate::chartfile::{scan_chart, spec_line_outcome, spec_scan, ChartScan};
use crate::folders::FolderSet;
use vstd::prelude::*;

verus! {

/// One chart file handed to extraction: the path of its owning folder, and
/// the file's full text.
pub struct ChartFileInput {
    pub folder: Vec<u8>,
    pub contents: Vec<u8>,
}

/// The folders seeded by sentinel declarations: every folder owning a chart
/// file whose scan yields the sentinel. Nothing the remote catalog answers
/// can remove them.
pub open spec fn spec_seeds(files: Seq<ChartFileInput>) -> Set<Seq<u8>> {
    Set::new(
        |f: Seq<u8>|
            exists|j: int|
                0 <= j < files.len() && spec_scan(#[trigger] files[j].contents@)
                    is Sentinel && files[j].folder@ == f,
    )
}

/// What one file adds to the candidate entries: a fresh identifier appends,
/// an identifier already present has its folder overwritten, anything else
/// changes nothing.
pub open spec fn spec_extract_step(s: Seq<(u64, Seq<u8>)>, file: ChartFileInput) -> Seq<
    (u64, Seq<u8>),
> {
    match spec_scan(file.contents@) {
        ChartScan::Candidate(id) => if has_key(s, id) {
            s.update(key_index(s, id), (id, file.folder@))
        } else {
            s.push((id, file.folder@))
        },
        _ => s,
    }
}

/// The candidate entries after processing the files in order.
pub open spec fn spec_extract(files: Seq<ChartFileInput>) -> Seq<(u64, Seq<u8>)>
    decreases files.len(),
{
    if files.len() == 0 {
        Seq::empty()
    } else {
        spec_extract_step(spec_extract(files.drop_last()), files.last())
    }
}

/// A scan never yields the candidate identifier `0`: that value is the
/// sentinel.
pub proof fn lemma_scan_candidate_positive(s: Seq<u8>)
    ensures
        spec_scan(s) matches ChartScan::Candidate(id) ==> id > 0,
    decreases s.len(),
{
    if s.len() > 0 {
        let e = crate::chartfile::spec_line_end(s);
        crate::chartfile::lemma_line_end_bounds(s);
        let line = crate::chartfile::strip_cr(s.subrange(0, e));
        if crate::chartfile::starts_with_marker(line) {
            assert(spec_scan(s) == spec_line_outcome(line));
        } else if e < s.len() {
            lemma_scan_candidate_positive(s.subrange(e + 1, s.len() as int));
        }
    }
}

/// Every folder owning a sentinel-marked chart file is seeded, whatever the
/// remote catalog later answers for any identifier.
pub proof fn lemma_sentinel_folder_seeded(files: Seq<ChartFileInput>, j: int)
    requires
        0 <= j < files.len(),
        spec_scan(files[j].contents@) is Sentinel,
    ensures
        spec_seeds(files).contains(files[j].folder@),
{
}

/// Scans every chart file and folds the outcomes: the candidate entries in
/// processing order, and the sentinel-seeded portion of the unsubmitted
/// folder set.
#[verifier::loop_isolation(false)]
pub fn extract_candidates(files: &Vec<ChartFileInput>) -> (r: (CandidateMap, FolderSet))
    ensures
        r.0.wf(),
        r.1.wf(),
        r.0@ == spec_extract(files@),
        r.1.to_set() == spec_seeds(files@),
{
    let mut cm = CandidateMap::new();
    let mut seeds = FolderSet::new();
    let n = files.len();
    let mut i: usize = 0;
    proof {
        assert(files@.take(0) =~= Seq::<ChartFileInput>::empty());
        assert(seeds.to_set() =~= spec_seeds(files@.take(0)));
    }
    while i < n
        invariant
            i <= n,
            cm.wf(),
            seeds.wf(),
            cm@ == spec_extract(files@.take(i as int)),
            seeds.to_set() == spec_seeds(files@.take(i as int)),
        decreases n - i,
    {
        let ghost pre_cm = cm@;
        let ghost pre_seeds = seeds.to_set();
        let file = &files[i];
        let outcome = scan_chart(&file.contents);
        match outcome {
            ChartScan::NoIdentifier => {},
            ChartScan::Sentinel => {
                seeds.insert(bytes_clone(&file.folder));
            },
            ChartScan::Candidate(id) => {
                proof {
                    lemma_scan_candidate_positive(file.contents@);
                }
                cm.insert(id, bytes_clone(&file.folder));
            },
        }
        proof {
            assert(files@.take(i + 1).drop_last() =~= files@.take(i as int));
            assert(files@.take(i + 1).last() == files@[i as int]);
            assert(cm@ == spec_extract(files@.take(i + 1)));
            assert forall|g: Seq<u8>|
                seeds.to_set().contains(g) == spec_seeds(files@.take(i + 1)).contains(g) by {
                let fs = files@.take(i + 1);
                if seeds.to_set().contains(g) {
                    if pre_seeds.contains(g) {
                        let j = choose|j: int|
                            0 <= j < files@.take(i as int).len() && spec_scan(
                                #[trigger] files@.take(i as int)[j].contents@,
                            ) is Sentinel && files@.take(i as int)[j].folder@ == g;
                        assert(spec_scan(fs[j].contents@) is Sentinel && fs[j].folder@ == g);
                    } else {
                        assert(spec_scan(fs[i as int].contents@) is Sentinel && fs[i as int].folder@
                            == g);
                    }
                }
                if spec_seeds(fs).contains(g) {
                    let j = choose|j: int|
                        0 <= j < fs.len() && spec_scan(#[trigger] fs[j].contents@)
                            is Sentinel && fs[j].folder@ == g;
                    if j < i {
                        assert(spec_scan(files@.take(i as int)[j].contents@)
                            is Sentinel && files@.take(i as int)[j].folder@ == g);
                        assert(pre_seeds.contains(g));
                    } else {
                        assert(spec_scan(file.contents@) is Sentinel);
                        assert(seeds.to_set().contains(g));
                    }
                }
            }
            assert(seeds.to_set() =~= spec_seeds(files@.take(i + 1)));
        }
        i = i + 1;
    }
    proof {
        assert(files@.take(n as int) =~= files@);
    }
    (cm, seeds)
}

} // verus!
