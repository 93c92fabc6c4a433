use mkvlabel::frontend::api::{
    fetch_dvd_disc_url, fetch_episodes_url, preview_url, scan_dir_url, search_dvdcompare_url,
    search_tvmaze_url, stop_preview_url,
};
use mkvlabel::frontend::mappings::Mappings;
use mkvlabel::frontend::state::{AppAction, AppState};
use mkvlabel::frontend::types::{
    ActiveTab, DvdFeature, DvdSearchResult, EpisodeResult, Mapping, MappingKind, ShowResult, SortMode, VideoFile,
};

fn mapping(name: &str, label: &str, kind: MappingKind) -> Mapping {
    Mapping { new_name: name.to_string(), label: label.to_string(), kind }
}

fn vf(id: &str, parent: &str, filename: &str, duration_us: u64, size: u64) -> VideoFile {
    VideoFile {
        id: id.to_string(),
        path: id.to_string(),
        filename: filename.to_string(),
        stem: String::new(),
        parent: parent.to_string(),
        rel_path: String::new(),
        duration_us,
        duration_fmt: String::new(),
        size,
        size_fmt: String::new(),
        video_streams: 1,
        audio_streams: Vec::new(),
        subtitle_streams: Vec::new(),
        title: String::new(),
    }
}

#[test]
fn mappings_insert_get_remove() {
    let mut m = Mappings::new();
    assert!(m.is_empty());
    m.insert("/a.mkv".to_string(), mapping("One", "S01E01 - One", MappingKind::Episode));
    m.insert("/b.mkv".to_string(), mapping("Two", "Two", MappingKind::Feature));
    assert_eq!(m.len(), 2);
    assert_eq!(m.get("/a.mkv").unwrap().new_name, "One");
    m.insert("/a.mkv".to_string(), mapping("Uno", "Uno", MappingKind::Movie));
    assert_eq!(m.len(), 2);
    assert_eq!(m.get("/a.mkv").unwrap().new_name, "Uno");
    assert_eq!(m.get("/a.mkv").unwrap().kind, MappingKind::Movie);
    assert!(m.contains_key("/b.mkv"));
    assert!(m.any_label("Two"));
    assert!(!m.any_label("S01E01 - One"));
    m.remove("/b.mkv");
    m.remove("/missing");
    assert_eq!(m.len(), 1);
    assert!(m.get("/b.mkv").is_none());
    let reqs = m.to_rename_mappings();
    assert_eq!(reqs.len(), 1);
    assert_eq!(reqs[0].old_path, "/a.mkv");
    assert_eq!(reqs[0].new_name, "Uno");
    m.clear();
    assert!(m.is_empty());
}

#[test]
fn reducer_mapping_round_trip() {
    let s = AppState::default();
    assert_eq!(s.mapped_count(), 0);
    let s = s.reduce(AppAction::SetMapping("/x.mkv".to_string(), mapping("X", "X", MappingKind::Special)));
    assert_eq!(s.mapped_count(), 1);
    assert_eq!(s.mappings.get("/x.mkv").unwrap().label, "X");
    let s = s.reduce(AppAction::SetMapping("/x.mkv".to_string(), mapping("Y", "Y", MappingKind::Special)));
    assert_eq!(s.mapped_count(), 1);
    assert_eq!(s.mappings.get("/x.mkv").unwrap().new_name, "Y");
    let s = s.reduce(AppAction::UnmapFile("/x.mkv".to_string()));
    assert_eq!(s.mapped_count(), 0);
}

#[test]
fn reducer_scan_complete_resets() {
    let s = AppState::default()
        .reduce(AppAction::SetScanning(true))
        .reduce(AppAction::SelectFile(Some("/old".to_string())))
        .reduce(AppAction::SetMapping("/old".to_string(), mapping("o", "o", MappingKind::Feature)));
    assert!(s.scanning);
    let s = s.reduce(AppAction::ScanComplete {
        files: vec![vf("/v/a.mkv", "/v", "a.mkv", 1, 1)],
        clusters: vec![vec!["/v/a.mkv".to_string(), "/v/b.mkv".to_string()]],
        directory: "/v".to_string(),
    });
    assert!(!s.scanning);
    assert!(s.selected_file.is_none());
    assert_eq!(s.mapped_count(), 0);
    assert_eq!(s.files.len(), 1);
    assert_eq!(s.directory, "/v");
    assert_eq!(s.cluster_index("/v/b.mkv"), Some(0));
    assert_eq!(s.cluster_index("/v/c.mkv"), None);
}

#[test]
fn reducer_simple_fields() {
    let s = AppState::default();
    assert_eq!(s.sort_mode, SortMode::Path);
    assert_eq!(s.active_tab, ActiveTab::Results);
    let s = s
        .reduce(AppAction::SetDirectory("/d".to_string()))
        .reduce(AppAction::SetStatus("busy".to_string()))
        .reduce(AppAction::ToggleShowMapped)
        .reduce(AppAction::SetSortMode(SortMode::Size))
        .reduce(AppAction::SetActiveTab(ActiveTab::Dvd))
        .reduce(AppAction::SelectShow(Some(9)))
        .reduce(AppAction::SelectDvd(Some("77".to_string())));
    assert_eq!(s.directory, "/d");
    assert_eq!(s.status, "busy");
    assert!(s.show_mapped);
    assert_eq!(s.sort_mode, SortMode::Size);
    assert_eq!(s.active_tab, ActiveTab::Dvd);
    assert_eq!(s.selected_show, Some(9));
    assert_eq!(s.selected_dvd.as_deref(), Some("77"));
    let s = s.reduce(AppAction::ToggleShowMapped);
    assert!(!s.show_mapped);
}

#[test]
fn reducer_new_results_drop_selection() {
    let ep = EpisodeResult {
        season: 1,
        episode: 1,
        title: "P".to_string(),
        runtime: None,
        airdate: String::new(),
        label: "S01E01 - P".to_string(),
        filename_stem: "S01E01 - P".to_string(),
    };
    let s = AppState::default()
        .reduce(AppAction::SelectShow(Some(3)))
        .reduce(AppAction::SetEpisodes(vec![ep]))
        .reduce(AppAction::SelectDvd(Some("5".to_string())))
        .reduce(AppAction::SetDvdFeatures(vec![DvdFeature { title: "F".to_string(), timecodes: Vec::new() }]));
    assert_eq!(s.episodes.len(), 1);
    assert_eq!(s.dvd_features.len(), 1);
    let show = ShowResult { id: 1, name: "n".to_string(), year: String::new(), summary: String::new(), source: "tvmaze".to_string() };
    let s = s.reduce(AppAction::SetTvShows(vec![show]));
    assert!(s.selected_show.is_none());
    assert!(s.episodes.is_empty());
    assert_eq!(s.tv_shows.len(), 1);
    let disc = DvdSearchResult { compid: "1".to_string(), title: "t".to_string(), url: "u".to_string() };
    let s = s.reduce(AppAction::SetDvdResults(vec![disc]));
    assert!(s.selected_dvd.is_none());
    assert!(s.dvd_features.is_empty());
    assert_eq!(s.dvd_results.len(), 1);
}

#[test]
fn reducer_clear_all() {
    let s = AppState::default()
        .reduce(AppAction::ScanComplete {
            files: vec![vf("/v/a.mkv", "/v", "a.mkv", 1, 1)],
            clusters: vec![vec!["/v/a.mkv".to_string()]],
            directory: "/v".to_string(),
        })
        .reduce(AppAction::SetMapping("/v/a.mkv".to_string(), mapping("a", "a", MappingKind::Feature)))
        .reduce(AppAction::SelectFile(Some("/v/a.mkv".to_string())))
        .reduce(AppAction::SetStatus("loaded 1 files".to_string()))
        .reduce(AppAction::ClearAll);
    assert!(s.files.is_empty());
    assert!(s.clusters.is_empty());
    assert_eq!(s.mapped_count(), 0);
    assert!(s.selected_file.is_none());
    assert_eq!(s.status, "");
    assert_eq!(s.directory, "/v");
}

#[test]
fn api_urls() {
    assert_eq!(scan_dir_url("/media/My Videos"), "/api/scan?dir=%2Fmedia%2FMy%20Videos");
    assert_eq!(search_tvmaze_url("doctor who"), "/api/tvmaze/search?q=doctor%20who");
    assert_eq!(fetch_episodes_url(82, None), "/api/tvmaze/episodes?id=82");
    assert_eq!(fetch_episodes_url(82, Some(3)), "/api/tvmaze/episodes?id=82&season=3");
    assert_eq!(search_dvdcompare_url("alien"), "/api/dvdcompare/search?q=alien");
    assert_eq!(fetch_dvd_disc_url("1&2"), "/api/dvdcompare/disc?compid=1%262");
    assert_eq!(stop_preview_url("/a b.mkv"), "/api/preview/stop?path=%2Fa%20b.mkv");
    let start = 30.0_f64;
    let duration = 12.5_f64;
    assert_eq!(
        preview_url("/v/x.mkv", &start.to_string(), &duration.to_string()),
        "/api/preview?path=%2Fv%2Fx.mkv&start=30&duration=12.5"
    );
}
