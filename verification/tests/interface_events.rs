use mkvlabel::frontend::events::{
    disc_chosen, discs_found, episode_chosen, episodes_found, episodes_requested, feature_chosen, features_found,
    renames_finished, rescan_finished, scan_finished, scan_requested, search_requested, shows_found,
};
use mkvlabel::frontend::state::{AppAction, AppState};
use mkvlabel::frontend::types::{
    ActiveTab, DvdFeature, DvdSearchResult, EpisodeResult, MappingKind, RenameResult, ScanResponse, ShowResult,
};

fn status_of(a: &AppAction) -> Option<&str> {
    match a {
        AppAction::SetStatus(s) => Some(s.as_str()),
        _ => None,
    }
}

fn apply(st: AppState, actions: Vec<AppAction>) -> AppState {
    actions.into_iter().fold(st, |s, a| s.reduce(a))
}

#[test]
fn scan_request_and_answer() {
    assert!(scan_requested("").is_none());
    let st = apply(AppState::default(), scan_requested("/v").unwrap());
    assert_eq!(st.directory, "/v");
    assert!(st.scanning);
    assert_eq!(st.status, "scanning...");
    let resp = ScanResponse { files: Vec::new(), clusters: vec![vec!["a".to_string(), "b".to_string()]], directory: "/v".to_string() };
    let done = apply(st, scan_finished(Ok(resp)));
    assert!(!done.scanning);
    assert_eq!(done.status, "loaded 0 files");
    assert_eq!(done.clusters.len(), 1);
    let failed = apply(AppState::default().reduce(AppAction::SetScanning(true)), scan_finished(Err("boom".to_string())));
    assert!(!failed.scanning);
    assert_eq!(failed.status, "Scan failed: boom");
}

fn result(success: bool) -> RenameResult {
    RenameResult { old: String::new(), new: String::new(), success, skipped: None, error: None }
}

#[test]
fn rename_answer_and_rescan() {
    let st = AppState::default().reduce(AppAction::SetDirectory("/v".to_string()));
    let (actions, rescan) = renames_finished(&st, Ok(vec![result(true), result(false)]));
    assert_eq!(status_of(&actions[0]), Some("Renamed 1 files, 1 failed"));
    assert_eq!(rescan.as_deref(), Some("/v"));
    let (_, none) = renames_finished(&AppState::default(), Ok(Vec::new()));
    assert!(none.is_none());
    let (err, no_rescan) = renames_finished(&st, Err("offline".to_string()));
    assert_eq!(status_of(&err[0]), Some("Rename failed: offline"));
    assert!(no_rescan.is_none());
    let r = rescan_finished(Err("gone".to_string()));
    assert_eq!(status_of(&r[0]), Some("Rescan failed: gone"));
    let ok = rescan_finished(Ok(ScanResponse { files: Vec::new(), clusters: Vec::new(), directory: "/v".to_string() }));
    assert!(matches!(ok[0], AppAction::ScanComplete { .. }));
}

#[test]
fn search_events() {
    assert!(search_requested("").is_none());
    assert_eq!(status_of(&search_requested("office").unwrap()[0]), Some("Searching..."));
    let show = ShowResult { id: 7, name: "n".to_string(), year: String::new(), summary: String::new(), source: "tvmaze".to_string() };
    let st = apply(AppState::default().reduce(AppAction::SetStatus("Searching...".to_string())), shows_found(Ok(vec![show])));
    assert_eq!(st.tv_shows.len(), 1);
    assert_eq!(st.status, "");
    assert_eq!(status_of(&shows_found(Err("x".to_string()))[0]), Some("TVmaze: x"));
    let disc = DvdSearchResult { compid: "1".to_string(), title: "t".to_string(), url: "u".to_string() };
    let st = apply(st, discs_found(Ok(vec![disc])));
    assert_eq!(st.dvd_results.len(), 1);
    assert_eq!(status_of(&discs_found(Err("y".to_string()))[0]), Some("DVDCompare: y"));
}

fn ep() -> EpisodeResult {
    EpisodeResult {
        season: 1,
        episode: 2,
        title: "T".to_string(),
        runtime: None,
        airdate: String::new(),
        label: "S01E02 - T".to_string(),
        filename_stem: "S01E02 - T".to_string(),
    }
}

#[test]
fn episode_events() {
    assert!(episodes_requested(&AppState::default(), "1").is_none());
    let st = AppState::default().reduce(AppAction::SelectShow(Some(82)));
    let (show, season, actions) = episodes_requested(&st, "3").unwrap();
    assert_eq!((show, season), (82, Some(3)));
    assert_eq!(status_of(&actions[0]), Some("Loading episodes..."));
    assert_eq!(episodes_requested(&st, "").unwrap().1, None);
    assert_eq!(episodes_requested(&st, "x1").unwrap().1, None);
    let st = apply(st, episodes_found(Ok(vec![ep()])));
    assert_eq!(st.episodes.len(), 1);
    assert_eq!(st.active_tab, ActiveTab::Episodes);
    assert_eq!(st.status, "");
    assert_eq!(status_of(&episodes_found(Err("z".to_string()))[0]), Some("Episodes error: z"));
}

#[test]
fn choices_map_the_selected_file() {
    let none = AppState::default();
    assert!(episode_chosen(&none, &ep()).is_empty());
    assert!(feature_chosen(&none, "Extra").is_empty());
    let st = none.reduce(AppAction::SelectFile(Some("/v/a.mkv".to_string())));
    let st = apply(st, episode_chosen(&AppState::default().reduce(AppAction::SelectFile(Some("/v/a.mkv".to_string()))), &ep()));
    let m = st.mappings.get("/v/a.mkv").unwrap();
    assert_eq!(m.new_name, "S01E02 - T");
    assert_eq!(m.kind, MappingKind::Episode);
    let st = apply(AppState::default().reduce(AppAction::SelectFile(Some("/v/b.mkv".to_string()))), Vec::new());
    let actions = feature_chosen(&st, "Making Of");
    let st = apply(st, actions);
    assert_eq!(st.mappings.get("/v/b.mkv").unwrap().label, "Making Of");
    assert_eq!(st.mappings.get("/v/b.mkv").unwrap().kind, MappingKind::Feature);
}

#[test]
fn disc_events() {
    let st = apply(AppState::default(), disc_chosen("42"));
    assert_eq!(st.selected_dvd.as_deref(), Some("42"));
    assert_eq!(st.active_tab, ActiveTab::Features);
    let st = apply(st, features_found(Ok(vec![DvdFeature { title: "F".to_string(), timecodes: Vec::new() }])));
    assert_eq!(st.dvd_features.len(), 1);
    assert_eq!(status_of(&features_found(Err("e".to_string()))[0]), Some("DVDCompare error: e"));
}
