use mkvlabel::frontend::state::{AppAction, AppState};
use mkvlabel::frontend::types::{AudioStream, DvdFeature, EpisodeResult, Mapping, MappingKind, RenameResult, SortMode, VideoFile};
use mkvlabel::frontend::view::{
    audio_summary, cluster_badge, cluster_siblings, episode_code, episode_mapping, feature_mapping, file_item_class,
    file_list, find_file, is_listed, last_segment_of, movie_mapping, rename_status, result_rows, short_dir_name,
    remaining_count, special_mapping, special_type_names, timecodes_text, title_text, ResultEntry,
};

fn vf(id: &str, parent: &str, filename: &str, duration_us: u64, size: u64) -> VideoFile {
    VideoFile {
        id: id.to_string(),
        path: id.to_string(),
        filename: filename.to_string(),
        stem: String::new(),
        parent: parent.to_string(),
        rel_path: String::new(),
        duration_us,
        duration_fmt: String::new(),
        size,
        size_fmt: String::new(),
        video_streams: 1,
        audio_streams: Vec::new(),
        subtitle_streams: Vec::new(),
        title: String::new(),
    }
}

fn scanned() -> AppState {
    AppState::default().reduce(AppAction::ScanComplete {
        files: vec![
            vf("/m/b/x2.mkv", "/m/b", "x2.mkv", 300, 10),
            vf("/m/a/z.mkv", "/m/a", "z.mkv", 100, 30),
            vf("/m/b/x1.mkv", "/m/b", "x1.mkv", 200, 20),
            vf("/m/a/y.mkv", "/m/a", "y.mkv", 100, 5),
        ],
        clusters: vec![
            vec!["/m/a/z.mkv".to_string(), "/m/a/y.mkv".to_string()],
            vec!["/m/b/x1.mkv".to_string(), "/gone.mkv".to_string(), "/m/a/y.mkv".to_string()],
        ],
        directory: "/m".to_string(),
    })
}

fn listing(st: &AppState) -> Vec<(String, String, Vec<usize>)> {
    file_list(st).into_iter().map(|g| (g.dir, g.short_dir, g.files)).collect()
}

#[test]
fn file_list_groups_by_directory() {
    let st = scanned();
    assert_eq!(
        listing(&st),
        vec![
            ("/m/a".to_string(), "m/a".to_string(), vec![3, 1]),
            ("/m/b".to_string(), "m/b".to_string(), vec![2, 0]),
        ]
    );
}

#[test]
fn file_list_sort_modes() {
    let st = scanned().reduce(AppAction::SetSortMode(SortMode::Duration));
    assert_eq!(listing(&st)[0].2, vec![1, 3]);
    assert_eq!(listing(&st)[1].2, vec![2, 0]);
    let st = st.reduce(AppAction::SetSortMode(SortMode::Size));
    assert_eq!(listing(&st)[0].2, vec![3, 1]);
    assert_eq!(listing(&st)[1].2, vec![0, 2]);
}

#[test]
fn file_list_hides_mapped_files() {
    let m = Mapping { new_name: "n".to_string(), label: "n".to_string(), kind: MappingKind::Feature };
    let st = scanned().reduce(AppAction::SetMapping("/m/a/z.mkv".to_string(), m));
    assert!(!is_listed(&st, 1));
    assert!(is_listed(&st, 0));
    assert_eq!(listing(&st)[0].2, vec![3]);
    let m2 = Mapping { new_name: "n".to_string(), label: "n".to_string(), kind: MappingKind::Feature };
    let st = st.reduce(AppAction::SetMapping("/m/a/y.mkv".to_string(), m2));
    let l = listing(&st);
    assert_eq!(l.len(), 1);
    assert_eq!(l[0].0, "/m/b");
    let st = st.reduce(AppAction::ToggleShowMapped);
    assert_eq!(listing(&st).len(), 2);
    assert!(is_listed(&st, 1));
    assert!(file_list(&AppState::default()).is_empty());
}

#[test]
fn directory_and_file_names() {
    assert_eq!(short_dir_name("/media/tv/Show/Season 1"), "Show/Season 1");
    assert_eq!(short_dir_name("/top"), "/top");
    assert_eq!(short_dir_name("a/b"), "a/b");
    assert_eq!(short_dir_name("single"), "single");
    assert_eq!(short_dir_name("/a/b/"), "b/");
    assert_eq!(last_segment_of("/v/file.mkv"), "file.mkv");
    assert_eq!(last_segment_of("plain"), "plain");
    assert_eq!(last_segment_of("dir/"), "");
}

#[test]
fn item_classes() {
    assert_eq!(file_item_class(false, false), "file-item");
    assert_eq!(file_item_class(true, false), "file-item selected");
    assert_eq!(file_item_class(false, true), "file-item mapped");
    assert_eq!(file_item_class(true, true), "file-item selected mapped");
}

#[test]
fn clusters_of_a_file() {
    let st = scanned();
    assert_eq!(st.cluster_index("/m/a/y.mkv"), Some(0));
    assert_eq!(cluster_badge(&st, "/m/a/y.mkv"), Some(1));
    assert_eq!(cluster_badge(&st, "/m/a/z.mkv"), Some(0));
    assert_eq!(cluster_badge(&st, "/nowhere"), None);
    assert_eq!(find_file(&st.files, "/m/b/x1.mkv"), Some(2));
    assert_eq!(find_file(&st.files, "/gone.mkv"), None);
    assert_eq!(cluster_siblings(&st, "/m/b/x1.mkv"), Some((1, vec![3])));
    assert_eq!(cluster_siblings(&st, "/m/a/y.mkv"), Some((0, vec![1])));
    assert_eq!(cluster_siblings(&st, "/m/b/x2.mkv"), None);
}

#[test]
fn quick_assign_mappings() {
    let names = special_type_names();
    assert_eq!(names.len(), 9);
    assert_eq!(names[0], "Behind the Scenes");
    assert_eq!(names[8], "Theme");
    let m = special_mapping("title_t03", "Trailer");
    assert_eq!(m.new_name, "title_t03 - Trailer");
    assert_eq!(m.label, "title_t03 - Trailer");
    assert_eq!(m.kind, MappingKind::Special);
    let f = movie_mapping("Alien", "1979");
    assert_eq!(f.new_name, "Alien (1979)");
    assert_eq!(f.kind, MappingKind::Movie);
    assert_eq!(movie_mapping("Alien", "").new_name, "Alien");
    let ep = EpisodeResult {
        season: 2,
        episode: 3,
        title: "T".to_string(),
        runtime: Some(44),
        airdate: String::new(),
        label: "S02E03 - T".to_string(),
        filename_stem: "S02E03 - T".to_string(),
    };
    let e = episode_mapping(&ep);
    assert_eq!(e.new_name, "S02E03 - T");
    assert_eq!(e.label, "S02E03 - T");
    assert_eq!(e.kind, MappingKind::Episode);
    let d = feature_mapping("Making Of");
    assert_eq!(d.new_name, "Making Of");
    assert_eq!(d.kind, MappingKind::Feature);
}

#[test]
fn audio_line() {
    let mut f = vf("/a", "/", "a", 1, 1);
    assert_eq!(audio_summary(&f), None);
    f.audio_streams.push(AudioStream { index: 1, codec: "ac3".to_string(), language: "eng".to_string(), title: String::new(), channels: 6 });
    f.audio_streams.push(AudioStream { index: 2, codec: "aac".to_string(), language: String::new(), title: String::new(), channels: -1 });
    assert_eq!(audio_summary(&f).as_deref(), Some("Audio: eng ac3 6ch · ? aac -1ch"));
}

fn result(success: bool) -> RenameResult {
    RenameResult { old: String::new(), new: String::new(), success, skipped: None, error: None }
}

#[test]
fn rename_status_line() {
    assert_eq!(rename_status(&vec![result(true), result(true)]), "Renamed 2 files");
    assert_eq!(rename_status(&vec![result(true), result(false), result(false)]), "Renamed 1 files, 2 failed");
    assert_eq!(rename_status(&Vec::new()), "Renamed 0 files");
}

#[test]
fn results_interleave() {
    assert_eq!(
        result_rows(3, 1),
        vec![ResultEntry::Show(0), ResultEntry::Movie(0), ResultEntry::Show(1), ResultEntry::Show(2)]
    );
    assert_eq!(result_rows(0, 2), vec![ResultEntry::Movie(0), ResultEntry::Movie(1)]);
    assert!(result_rows(0, 0).is_empty());
}

#[test]
fn episode_codes_and_timecodes() {
    assert_eq!(episode_code(1, 9), "S01E09");
    assert_eq!(episode_code(12, 100), "S12E100");
    let f = DvdFeature { title: "x".to_string(), timecodes: vec!["1:00".to_string(), "2:30".to_string()] };
    assert_eq!(timecodes_text(&f), "1:00, 2:30");
}

#[test]
fn remaining_and_title() {
    let st = scanned();
    assert_eq!(remaining_count(&st), 4);
    let m = Mapping { new_name: "n".to_string(), label: "n".to_string(), kind: MappingKind::Feature };
    let st = st.reduce(AppAction::SetMapping("/m/a/z.mkv".to_string(), m));
    assert_eq!(remaining_count(&st), 3);
    let mut f = vf("/a", "/", "a", 1, 1);
    assert_eq!(title_text(&f), "\u{2014}");
    f.title = "Feature".to_string();
    assert_eq!(title_text(&f), "Feature");
}
