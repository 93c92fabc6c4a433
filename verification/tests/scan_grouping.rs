use mkvlabel::backend::ffprobe::ProbeResult;
use mkvlabel::backend::scan::{
    cluster_by_duration, is_scan_candidate, is_scan_extension_name, scan_response, sort_by_path, video_file,
    video_file_from_parts, TOLERANCE_US,
};
use mkvlabel::backend::types::VideoFile;

fn file(id: &str, duration_secs: f64) -> VideoFile {
    VideoFile {
        id: id.to_string(),
        path: id.to_string(),
        filename: id.rsplit('/').next().unwrap().to_string(),
        stem: String::new(),
        parent: String::new(),
        rel_path: String::new(),
        duration_us: (duration_secs * 1_000_000.0).round() as u64,
        duration_fmt: String::new(),
        size: 0,
        size_fmt: String::new(),
        video_streams: 1,
        audio_streams: Vec::new(),
        subtitle_streams: Vec::new(),
        title: String::new(),
    }
}

fn ids(clusters: &[Vec<String>]) -> Vec<Vec<&str>> {
    clusters.iter().map(|c| c.iter().map(|s| s.as_str()).collect()).collect()
}

#[test]
fn clusters_group_similar_durations() {
    let files = vec![
        file("e1", 1300.0),
        file("e2", 1305.0),
        file("movie", 5400.0),
        file("e3", 1312.0),
        file("extra", 60.0),
    ];
    let c = cluster_by_duration(&files);
    assert_eq!(ids(&c), vec![vec!["e1", "e2", "e3"]]);
}

#[test]
fn clusters_chain_through_neighbours() {
    // each step is within ten seconds of the previous file, the ends are not
    let files = vec![file("a", 100.0), file("b", 109.0), file("c", 118.0), file("d", 127.0)];
    let c = cluster_by_duration(&files);
    assert_eq!(ids(&c), vec![vec!["a", "b", "c", "d"]]);
}

#[test]
fn clusters_boundary_of_tolerance() {
    assert_eq!(TOLERANCE_US, 10_000_000);
    let exact = vec![file("a", 100.0), file("b", 110.0)];
    assert_eq!(ids(&cluster_by_duration(&exact)), vec![vec!["a", "b"]]);
    let over = vec![file("a", 100.0), file("b", 110.5)];
    assert!(cluster_by_duration(&over).is_empty());
}

#[test]
fn clusters_skip_zero_durations_and_singletons() {
    let files = vec![file("z1", 0.0), file("z2", 0.0), file("solo", 50.0), file("x", 500.0), file("y", 501.0)];
    assert_eq!(ids(&cluster_by_duration(&files)), vec![vec!["x", "y"]]);
    assert!(cluster_by_duration(&[]).is_empty());
}

#[test]
fn clusters_in_duration_order_with_stable_ties() {
    let files = vec![file("long2", 3000.0), file("short1", 20.0), file("long1", 3000.0), file("short2", 25.0)];
    assert_eq!(ids(&cluster_by_duration(&files)), vec![vec!["short1", "short2"], vec!["long2", "long1"]]);
}

#[test]
fn clusters_measure_against_first_file_with_id() {
    // the last id of the cluster is looked up by id; its first file decides
    let files = vec![file("dup", 1000.0), file("dup", 100.0), file("x", 104.0)];
    // duration order: dup(100), x(104), dup(1000); x is compared with the first "dup" (1000)
    assert_eq!(ids(&cluster_by_duration(&files)), Vec::<Vec<&str>>::new());
}

#[test]
fn scan_extensions() {
    assert!(is_scan_candidate("/v/a.mkv"));
    assert!(is_scan_candidate("/v/a.MKV"));
    assert!(is_scan_candidate("b.Mp4"));
    assert!(is_scan_candidate("c.avi"));
    assert!(is_scan_candidate("d.m2ts"));
    assert!(is_scan_candidate("e.TS"));
    assert!(!is_scan_candidate("f.txt"));
    assert!(!is_scan_candidate("mkv"));
    assert!(!is_scan_candidate("/v/.mkv"));
    assert!(!is_scan_candidate("g.mkv.part"));
}

fn probe() -> ProbeResult {
    ProbeResult {
        duration_us: 42_000_000,
        duration_fmt: "0:42".to_string(),
        size: 2048,
        size_fmt: "2.0 KB".to_string(),
        video_streams: 1,
        audio_streams: Vec::new(),
        subtitle_streams: Vec::new(),
        title: "T".to_string(),
    }
}

#[test]
fn video_file_from_path() {
    let f = video_file("/root/show/s1/ep.one.mkv", "/root/show", probe());
    assert_eq!(f.id, "/root/show/s1/ep.one.mkv");
    assert_eq!(f.path, "/root/show/s1/ep.one.mkv");
    assert_eq!(f.filename, "ep.one.mkv");
    assert_eq!(f.stem, "ep.one");
    assert_eq!(f.parent, "/root/show/s1");
    assert_eq!(f.rel_path, "s1/ep.one.mkv");
    assert_eq!(f.duration_us, 42_000_000);
    assert_eq!(f.duration_fmt, "0:42");
    assert_eq!(f.size, 2048);
    assert_eq!(f.size_fmt, "2.0 KB");
    assert_eq!(f.title, "T");
}

#[test]
fn video_file_outside_base() {
    let f = video_file("/elsewhere/x.mkv", "/root", probe());
    assert_eq!(f.rel_path, "/elsewhere/x.mkv");
    assert_eq!(f.parent, "/elsewhere");
}

#[test]
fn sorting_by_path() {
    let files = vec![file("/v/c.mkv", 1.0), file("/v/a.mkv", 2.0), file("/v/B.mkv", 3.0), file("/v/a.mkv", 4.0)];
    let sorted = sort_by_path(files);
    let paths: Vec<&str> = sorted.iter().map(|f| f.path.as_str()).collect();
    assert_eq!(paths, vec!["/v/B.mkv", "/v/a.mkv", "/v/a.mkv", "/v/c.mkv"]);
    assert!(sort_by_path(Vec::new()).is_empty());
}

#[test]
fn scan_response_sorts_then_clusters() {
    let files = vec![file("/v/b.mkv", 600.0), file("/v/a.mkv", 605.0), file("/v/c.mkv", 10.0)];
    let r = scan_response(files, "/v".to_string());
    let paths: Vec<&str> = r.files.iter().map(|f| f.path.as_str()).collect();
    assert_eq!(paths, vec!["/v/a.mkv", "/v/b.mkv", "/v/c.mkv"]);
    assert_eq!(ids(&r.clusters), vec![vec!["/v/b.mkv", "/v/a.mkv"]]);
    assert_eq!(r.directory, "/v");
}

#[test]
fn scan_extension_names() {
    for e in ["mkv", "mp4", "avi", "m2ts", "ts"] {
        assert!(is_scan_extension_name(e));
    }
    for e in ["MKV", "mkv2", "", "txt", "m2t"] {
        assert!(!is_scan_extension_name(e));
    }
}

#[test]
fn video_file_parts_and_defaults() {
    let f = video_file_from_parts("/r/a.mkv", "/r", None, None, None, None, probe());
    assert_eq!(f.filename, "");
    assert_eq!(f.stem, "");
    assert_eq!(f.parent, "/r");
    assert_eq!(f.rel_path, "/r/a.mkv");
    let g = video_file_from_parts(
        "/r/a.mkv",
        "/r",
        Some("a.mkv".to_string()),
        Some("a".to_string()),
        Some("/r".to_string()),
        Some("a.mkv".to_string()),
        probe(),
    );
    assert_eq!(g.filename, "a.mkv");
    assert_eq!(g.stem, "a");
    assert_eq!(g.rel_path, "a.mkv");
}

#[test]
fn files_within_tolerance_share_a_cluster() {
    // a and c are within ten seconds of each other, with b between them
    let files = vec![file("c", 208.0), file("a", 200.0), file("b", 204.0), file("far", 300.0)];
    let c = cluster_by_duration(&files);
    assert_eq!(ids(&c), vec![vec!["a", "b", "c"]]);
}

#[test]
fn hidden_file_names() {
    let f = video_file("/r/.hidden", "/r", probe());
    assert_eq!(f.stem, ".hidden");
    assert_eq!(f.filename, ".hidden");
    let g = video_file("/r/a.b.c", "/r", probe());
    assert_eq!(g.stem, "a.b");
}
