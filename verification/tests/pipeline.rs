use chart_audit::archive::entry_names;
use chart_audit::batching::{batch_bounds, batch_ids};
use chart_audit::candidates::CandidateMap;
use chart_audit::catalog::{
    apply_batch, decimal_bytes, is_unsubmitted, query_values, Beatmap, Beatmapset,
    GetBeatmapsResponse,
};
use chart_audit::extract::{extract_candidates, ChartFileInput};
use chart_audit::folders::FolderSet;
use chart_audit::pacing::Pacer;
use chart_audit::reconcile::reconcile;

fn bytes(s: &str) -> Vec<u8> {
    s.as_bytes().to_vec()
}

fn response_with(ids: &[u64]) -> GetBeatmapsResponse {
    GetBeatmapsResponse {
        beatmaps: ids
            .iter()
            .map(|id| Beatmap {
                id: *id,
                version: String::from("Insane"),
                beatmapset: Beatmapset {
                    artist: String::from("DJSharpnel"),
                    title: String::from("Kanpai2000"),
                },
            })
            .collect(),
    }
}

fn folder_list(set: &FolderSet) -> Vec<Vec<u8>> {
    let mut out = Vec::new();
    let mut i = 0;
    while i < set.len() {
        out.push(set.get(i).clone());
        i += 1;
    }
    out.sort();
    out
}

#[test]
fn candidate_map_insert_and_lookup() {
    let mut cm = CandidateMap::new();
    assert_eq!(cm.len(), 0);
    cm.insert(123, bytes("songs/B"));
    cm.insert(7, bytes("songs/C"));
    assert_eq!(cm.len(), 2);
    assert_eq!(cm.id_at(0), 123);
    assert_eq!(cm.folder_at(0), &bytes("songs/B"));
    assert_eq!(cm.id_at(1), 7);
    assert_eq!(cm.collision_count(), 0);
}

#[test]
fn candidate_map_collision_last_folder_wins() {
    let mut cm = CandidateMap::new();
    cm.insert(123, bytes("songs/B"));
    cm.insert(123, bytes("songs/D"));
    assert_eq!(cm.len(), 1);
    assert_eq!(cm.id_at(0), 123);
    assert_eq!(cm.folder_at(0), &bytes("songs/D"));
    assert_eq!(cm.collision_count(), 1);
}

#[test]
fn folder_set_deduplicates() {
    let mut set = FolderSet::new();
    set.insert(bytes("songs/A"));
    set.insert(bytes("songs/B"));
    set.insert(bytes("songs/A"));
    assert_eq!(set.len(), 2);
    assert!(set.contains(&bytes("songs/A")));
    assert!(set.contains(&bytes("songs/B")));
    assert!(!set.contains(&bytes("songs/C")));
}

#[test]
fn batch_count_is_ceiling_of_fifty() {
    assert_eq!(batch_bounds(0).len(), 0);
    assert_eq!(batch_bounds(1), vec![(0, 1)]);
    assert_eq!(batch_bounds(49), vec![(0, 49)]);
    assert_eq!(batch_bounds(50), vec![(0, 50)]);
    assert_eq!(batch_bounds(51), vec![(0, 50), (50, 51)]);
    assert_eq!(batch_bounds(120), vec![(0, 50), (50, 100), (100, 120)]);
    for n in [0usize, 1, 49, 50, 51, 99, 100, 101, 120, 250] {
        let bounds = batch_bounds(n);
        assert_eq!(bounds.len(), (n + 49) / 50);
        let mut covered = 0;
        for (lo, hi) in &bounds {
            assert_eq!(*lo, covered);
            assert!(hi - lo <= 50);
            assert!(*hi > *lo);
            covered = *hi;
        }
        assert_eq!(covered, n);
    }
}

#[test]
fn batch_ids_in_entry_order() {
    let mut cm = CandidateMap::new();
    cm.insert(5, bytes("songs/A"));
    cm.insert(9, bytes("songs/B"));
    cm.insert(2, bytes("songs/C"));
    assert_eq!(batch_ids(&cm, 0, 3), vec![5, 9, 2]);
    assert_eq!(batch_ids(&cm, 1, 2), vec![9]);
}

#[test]
fn pacer_first_dispatch_not_delayed() {
    let pacer = Pacer::new(50);
    assert_eq!(pacer.wait_before_dispatch(0), 0);
    assert_eq!(pacer.wait_before_dispatch(123456), 0);
}

#[test]
fn pacer_spaces_dispatches_by_rate() {
    // 50 requests per minute: 1200 ms between dispatch starts.
    let mut pacer = Pacer::new(50);
    pacer.record_dispatch(1000);
    assert_eq!(pacer.wait_before_dispatch(1000), 1200);
    assert_eq!(pacer.wait_before_dispatch(1500), 700);
    assert_eq!(pacer.wait_before_dispatch(2199), 1);
    assert_eq!(pacer.wait_before_dispatch(2200), 0);
    assert_eq!(pacer.wait_before_dispatch(9999), 0);
    pacer.record_dispatch(2200);
    assert_eq!(pacer.wait_before_dispatch(2200), 1200);
}

#[test]
fn pacer_interval_from_rate() {
    let mut by_minute = Pacer::new(60);
    by_minute.record_dispatch(0);
    assert_eq!(by_minute.wait_before_dispatch(0), 1000);
    let mut fast = Pacer::new(1200);
    fast.record_dispatch(0);
    assert_eq!(fast.wait_before_dispatch(0), 50);
    let mut slow = Pacer::new(1);
    slow.record_dispatch(0);
    assert_eq!(slow.wait_before_dispatch(0), 60000);
}

#[test]
fn verdict_fails_open_without_response() {
    assert!(is_unsubmitted(&None, 123));
    assert!(is_unsubmitted(&None, 0));
    assert!(is_unsubmitted(&None, u64::MAX));
}

#[test]
fn verdict_follows_matched_records() {
    let resp = Some(response_with(&[123, 456]));
    assert!(!is_unsubmitted(&resp, 123));
    assert!(!is_unsubmitted(&resp, 456));
    assert!(is_unsubmitted(&resp, 124));
}

#[test]
fn failed_batch_includes_every_folder() {
    let mut cm = CandidateMap::new();
    cm.insert(1, bytes("songs/A"));
    cm.insert(2, bytes("songs/B"));
    cm.insert(3, bytes("songs/C"));
    let mut set = FolderSet::new();
    apply_batch(&mut set, &cm, 0, 3, &None);
    assert_eq!(set.len(), 3);
    assert!(set.contains(&bytes("songs/A")));
    assert!(set.contains(&bytes("songs/B")));
    assert!(set.contains(&bytes("songs/C")));
}

#[test]
fn confirmed_identifiers_stay_out() {
    let mut cm = CandidateMap::new();
    cm.insert(1, bytes("songs/A"));
    cm.insert(2, bytes("songs/B"));
    let mut set = FolderSet::new();
    apply_batch(&mut set, &cm, 0, 2, &Some(response_with(&[1])));
    assert_eq!(set.len(), 1);
    assert!(!set.contains(&bytes("songs/A")));
    assert!(set.contains(&bytes("songs/B")));
}

#[test]
fn same_folder_twice_makes_one_entry() {
    // Two identifiers owned by one folder, both unsubmitted: one archive
    // entry.
    let mut cm = CandidateMap::new();
    cm.insert(1, bytes("songs/A"));
    cm.insert(2, bytes("songs/A"));
    let mut set = FolderSet::new();
    apply_batch(&mut set, &cm, 0, 2, &None);
    assert_eq!(set.len(), 1);
    assert_eq!(entry_names(&set), vec![bytes("A")]);
}

#[test]
fn decimal_rendering_exact() {
    assert_eq!(decimal_bytes(0), bytes("0"));
    assert_eq!(decimal_bytes(7), bytes("7"));
    assert_eq!(decimal_bytes(10), bytes("10"));
    assert_eq!(decimal_bytes(54671), bytes("54671"));
    assert_eq!(decimal_bytes(u64::MAX), bytes("18446744073709551615"));
}

#[test]
fn query_values_render_each_identifier() {
    let ids = vec![166123u64, 658488, 1];
    assert_eq!(query_values(&ids), vec![bytes("166123"), bytes("658488"), bytes("1")]);
}

#[test]
fn extraction_splits_sentinels_and_candidates() {
    let files = vec![
        ChartFileInput { folder: bytes("songs/A"), contents: bytes("BeatmapID:0\n") },
        ChartFileInput { folder: bytes("songs/B"), contents: bytes("BeatmapID:123\n") },
        ChartFileInput { folder: bytes("songs/C"), contents: bytes("no marker here\n") },
    ];
    let (cm, seeds) = extract_candidates(&files);
    assert_eq!(cm.len(), 1);
    assert_eq!(cm.id_at(0), 123);
    assert_eq!(cm.folder_at(0), &bytes("songs/B"));
    assert_eq!(seeds.len(), 1);
    assert!(seeds.contains(&bytes("songs/A")));
}

#[test]
fn run_with_match_archives_only_sentinel_folder() {
    // Folder A declares the sentinel, folder B declares identifier 123; the
    // catalog matches 123: only A is archived.
    let files = vec![
        ChartFileInput { folder: bytes("songs/A"), contents: bytes("BeatmapID:0\n") },
        ChartFileInput { folder: bytes("songs/B"), contents: bytes("BeatmapID:123\n") },
    ];
    let (cm, mut set) = {
        let (cm, seeds) = extract_candidates(&files);
        (cm, seeds)
    };
    let bounds = batch_bounds(cm.len());
    assert_eq!(bounds, vec![(0, 1)]);
    for (lo, hi) in bounds {
        let ids = batch_ids(&cm, lo, hi);
        assert_eq!(ids, vec![123]);
        let resp = Some(response_with(&[123]));
        apply_batch(&mut set, &cm, lo, hi, &resp);
    }
    assert_eq!(folder_list(&set), vec![bytes("songs/A")]);
    assert_eq!(entry_names(&set), vec![bytes("A")]);
}

#[test]
fn run_with_failed_call_archives_both_folders() {
    // Same corpus, but the catalog call fails: fail-open archives A and B.
    let files = vec![
        ChartFileInput { folder: bytes("songs/A"), contents: bytes("BeatmapID:0\n") },
        ChartFileInput { folder: bytes("songs/B"), contents: bytes("BeatmapID:123\n") },
    ];
    let (cm, mut set) = extract_candidates(&files);
    for (lo, hi) in batch_bounds(cm.len()) {
        apply_batch(&mut set, &cm, lo, hi, &None);
    }
    assert_eq!(folder_list(&set), vec![bytes("songs/A"), bytes("songs/B")]);
    let mut names = entry_names(&set);
    names.sort();
    assert_eq!(names, vec![bytes("A"), bytes("B")]);
}

#[test]
fn sentinel_survives_matching_response() {
    // A sentinel-seeded folder stays in the set whatever the catalog says,
    // even when the same folder's identifier is matched.
    let files = vec![
        ChartFileInput { folder: bytes("songs/A"), contents: bytes("BeatmapID:0\n") },
        ChartFileInput { folder: bytes("songs/A"), contents: bytes("BeatmapID:9\n") },
    ];
    let (cm, mut set) = extract_candidates(&files);
    assert_eq!(cm.len(), 1);
    assert!(set.contains(&bytes("songs/A")));
    apply_batch(&mut set, &cm, 0, 1, &Some(response_with(&[9])));
    assert_eq!(set.len(), 1);
    assert!(set.contains(&bytes("songs/A")));
}

#[test]
fn reconcile_folds_batches_in_order() {
    // 60 candidates make two batches: 50 and 10. The first batch's call
    // fails (fail-open: all 50 folders join); the second is answered and
    // matches all but identifier 55.
    let mut cm = CandidateMap::new();
    for id in 1..=60u64 {
        cm.insert(id, bytes(&format!("songs/F{id}")));
    }
    let mut set = FolderSet::new();
    set.insert(bytes("songs/seeded"));
    let matched: Vec<u64> = (51..=60).filter(|id| *id != 55).collect();
    let responses = vec![None, Some(response_with(&matched))];
    reconcile(&mut set, &cm, &responses);
    // the seed, the 50 fail-open folders, and the one unmatched identifier
    assert_eq!(set.len(), 52);
    assert!(set.contains(&bytes("songs/seeded")));
    for id in 1..=50u64 {
        assert!(set.contains(&bytes(&format!("songs/F{id}"))));
    }
    assert!(set.contains(&bytes("songs/F55")));
    for id in (51..=60u64).filter(|id| *id != 55) {
        assert!(!set.contains(&bytes(&format!("songs/F{id}"))));
    }
}
