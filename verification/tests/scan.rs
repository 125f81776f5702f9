use chart_audit::chartfile::{scan_chart, ChartScan};
use chart_audit::paths::is_chart_path;

fn scan(text: &str) -> ChartScan {
    scan_chart(&text.as_bytes().to_vec())
}

#[test]
fn scan_candidate_simple() {
    assert_eq!(
        scan("osu file format v14\n\n[Metadata]\nBeatmapID:123\nBeatmapSetID:54671\n"),
        ChartScan::Candidate(123)
    );
}

#[test]
fn scan_sentinel() {
    assert_eq!(scan("BeatmapID:0\n"), ChartScan::Sentinel);
}

#[test]
fn scan_sentinel_without_newline() {
    assert_eq!(scan("BeatmapID:0"), ChartScan::Sentinel);
}

#[test]
fn scan_empty_file() {
    assert_eq!(scan(""), ChartScan::NoIdentifier);
}

#[test]
fn scan_no_marker_line() {
    assert_eq!(scan("[Metadata]\nTitle:Kanpai2000\nArtist:DJSharpnel\n"), ChartScan::NoIdentifier);
}

#[test]
fn scan_first_marker_line_wins() {
    // Only the first marker line is inspected, even when it fails to parse.
    assert_eq!(scan("BeatmapID:oops\nBeatmapID:5\n"), ChartScan::NoIdentifier);
    assert_eq!(scan("BeatmapID:0\nBeatmapID:9\n"), ChartScan::Sentinel);
    assert_eq!(scan("BeatmapID:7\nBeatmapID:0\n"), ChartScan::Candidate(7));
}

#[test]
fn scan_crlf_line_endings() {
    assert_eq!(scan("[Metadata]\r\nBeatmapID:7\r\nrest\r\n"), ChartScan::Candidate(7));
}

#[test]
fn scan_plus_signed_value() {
    assert_eq!(scan("BeatmapID:+12\n"), ChartScan::Candidate(12));
}

#[test]
fn scan_value_at_u64_max() {
    assert_eq!(scan("BeatmapID:18446744073709551615\n"), ChartScan::Candidate(u64::MAX));
}

#[test]
fn scan_value_past_u64_max() {
    assert_eq!(scan("BeatmapID:18446744073709551616\n"), ChartScan::NoIdentifier);
}

#[test]
fn scan_empty_value() {
    assert_eq!(scan("BeatmapID:\n"), ChartScan::NoIdentifier);
}

#[test]
fn scan_doubled_colon() {
    assert_eq!(scan("BeatmapID::5\n"), ChartScan::NoIdentifier);
}

#[test]
fn scan_marker_not_at_line_start() {
    assert_eq!(scan(" BeatmapID:5\n"), ChartScan::NoIdentifier);
}

#[test]
fn scan_trailing_garbage_in_value() {
    assert_eq!(scan("BeatmapID:12x\n"), ChartScan::NoIdentifier);
}

fn chart(path: &str) -> bool {
    is_chart_path(&path.as_bytes().to_vec())
}

#[test]
fn chart_extension_accepted() {
    assert!(chart("songs/54671 DJSharpnel - Kanpai2000/chart.osu"));
    assert!(chart("chart.osu"));
    assert!(chart("a/b/c.d.osu"));
}

#[test]
fn chart_extension_rejected() {
    assert!(!chart("songs/folder/audio.mp3"));
    assert!(!chart("songs/folder/chart.osu.bak"));
    assert!(!chart("songs/folder/chart.OSU"));
    assert!(!chart("songs/folder/.osu"));
    assert!(!chart("songs/folder.osu/readme"));
    assert!(!chart("osu"));
    assert!(!chart(""));
}
