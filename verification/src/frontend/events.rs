//! What the interface does on each user request and each answer from the server: the
//! actions to apply to the state, and the requests to send next.
use vstd::prelude::*;
use crate::text::{decimal, parse_u64, parsed_u64, push_decimal, push_str_chars, string_from};
use crate::frontend::state::{AppAction, AppState};
use crate::frontend::types::{ActiveTab, DvdFeature, DvdSearchResult, EpisodeResult, RenameResult, ScanResponse, ShowResult};
use crate::frontend::view::{episode_mapping, feature_mapping, rename_status, rename_status_text};

verus! {

fn prefixed(prefix: &str, s: &str) -> (r: String)
    ensures
        r@ == prefix@ + s@,
{
    let mut v: Vec<char> = Vec::new();
    push_str_chars(&mut v, prefix);
    push_str_chars(&mut v, s);
    string_from(&v)
}

fn status(s: &str) -> (a: AppAction)
    ensures
        a matches AppAction::SetStatus(t) && t@ == s@,
{
    AppAction::SetStatus(s.to_owned())
}

/// A scan asked for `dir`: nothing when `dir` is empty; otherwise the directory is recorded,
/// a scan is marked as running and the status says so (and the scan is to be sent).
pub fn scan_requested(dir: &str) -> (r: Option<Vec<AppAction>>)
    ensures
        match r {
            None => dir@.len() == 0,
            Some(v) => {
                &&& dir@.len() > 0
                &&& v@.len() == 3
                &&& v@[0] matches AppAction::SetDirectory(d) && d@ == dir@
                &&& v@[1] == AppAction::SetScanning(true)
                &&& v@[2] matches AppAction::SetStatus(s) && s@ == "scanning..."@
            },
        },
{
    if dir.is_empty() {
        return None;
    }
    let mut v: Vec<AppAction> = Vec::new();
    v.push(AppAction::SetDirectory(dir.to_owned()));
    v.push(AppAction::SetScanning(true));
    v.push(status("scanning..."));
    Some(v)
}

/// The answer to a scan: the files and clusters found, with a status counting the files; or,
/// when the scan failed, no scan running and a status giving the error.
pub fn scan_finished(outcome: Result<ScanResponse, String>) -> (r: Vec<AppAction>)
    ensures
        match outcome {
            Ok(resp) => {
                &&& r@.len() == 2
                &&& r@[0] == (AppAction::ScanComplete {
                    files: resp.files,
                    clusters: resp.clusters,
                    directory: resp.directory,
                })
                &&& r@[1] matches AppAction::SetStatus(s) && s@ == "loaded "@ + decimal(resp.files@.len()) + " files"@
            },
            Err(e) => {
                &&& r@.len() == 2
                &&& r@[0] == AppAction::SetScanning(false)
                &&& r@[1] matches AppAction::SetStatus(s) && s@ == "Scan failed: "@ + e@
            },
        },
{
    let mut v: Vec<AppAction> = Vec::new();
    match outcome {
        Ok(resp) => {
            let ScanResponse { files, clusters, directory } = resp;
            let mut msg: Vec<char> = Vec::new();
            push_str_chars(&mut msg, "loaded ");
            push_decimal(&mut msg, files.len() as u64);
            push_str_chars(&mut msg, " files");
            v.push(AppAction::ScanComplete { files, clusters, directory });
            v.push(AppAction::SetStatus(string_from(&msg)));
        },
        Err(e) => {
            v.push(AppAction::SetScanning(false));
            v.push(AppAction::SetStatus(prefixed("Scan failed: ", e.as_str())));
        },
    }
    v
}

/// The answer to a batch of renames: a status counting successes and failures, and the
/// directory to scan again when one is set; or, when the request failed, a status giving the
/// error and no new scan.
pub fn renames_finished(st: &AppState, outcome: Result<Vec<RenameResult>, String>) -> (r: (Vec<AppAction>, Option<String>))
    ensures
        match outcome {
            Ok(results) => {
                &&& r.0@.len() == 1
                &&& r.0@[0] matches AppAction::SetStatus(s) && s@ == rename_status_text(results@)
                &&& match r.1 {
                    Some(d) => st.directory@.len() > 0 && d@ == st.directory@,
                    None => st.directory@.len() == 0,
                }
            },
            Err(e) => {
                &&& r.0@.len() == 1
                &&& r.0@[0] matches AppAction::SetStatus(s) && s@ == "Rename failed: "@ + e@
                &&& r.1 is None
            },
        },
{
    let mut v: Vec<AppAction> = Vec::new();
    match outcome {
        Ok(results) => {
            v.push(AppAction::SetStatus(rename_status(&results)));
            let rescan = if st.directory.as_str().is_empty() { None } else { Some(st.directory.clone()) };
            (v, rescan)
        },
        Err(e) => {
            v.push(AppAction::SetStatus(prefixed("Rename failed: ", e.as_str())));
            (v, None)
        },
    }
}

/// The answer to the scan made after renaming: the files and clusters found, or a status
/// giving the error.
pub fn rescan_finished(outcome: Result<ScanResponse, String>) -> (r: Vec<AppAction>)
    ensures
        match outcome {
            Ok(resp) => r@ == seq![
                AppAction::ScanComplete { files: resp.files, clusters: resp.clusters, directory: resp.directory },
            ],
            Err(e) => r@.len() == 1 && (r@[0] matches AppAction::SetStatus(s) && s@ == "Rescan failed: "@ + e@),
        },
{
    let mut v: Vec<AppAction> = Vec::new();
    match outcome {
        Ok(resp) => {
            let ScanResponse { files, clusters, directory } = resp;
            v.push(AppAction::ScanComplete { files, clusters, directory });
        },
        Err(e) => {
            v.push(AppAction::SetStatus(prefixed("Rescan failed: ", e.as_str())));
        },
    }
    v
}

/// A search asked for `query`: nothing when it is empty; otherwise the status says a search is
/// running (and the show and disc searches are to be sent).
pub fn search_requested(query: &str) -> (r: Option<Vec<AppAction>>)
    ensures
        match r {
            None => query@.len() == 0,
            Some(v) => query@.len() > 0 && v@.len() == 1 && (v@[0] matches AppAction::SetStatus(s) && s@
                == "Searching..."@),
        },
{
    if query.is_empty() {
        return None;
    }
    let mut v: Vec<AppAction> = Vec::new();
    v.push(status("Searching..."));
    Some(v)
}

/// The answer to a show search: the shows found and a cleared status, or a status giving the
/// error.
pub fn shows_found(outcome: Result<Vec<ShowResult>, String>) -> (r: Vec<AppAction>)
    ensures
        match outcome {
            Ok(shows) => r@.len() == 2 && r@[0] == AppAction::SetTvShows(shows) && (r@[1] matches AppAction::SetStatus(
                s,
            ) && s@.len() == 0),
            Err(e) => r@.len() == 1 && (r@[0] matches AppAction::SetStatus(s) && s@ == "TVmaze: "@ + e@),
        },
{
    let mut v: Vec<AppAction> = Vec::new();
    match outcome {
        Ok(shows) => {
            v.push(AppAction::SetTvShows(shows));
            v.push(AppAction::SetStatus(String::new()));
        },
        Err(e) => {
            v.push(AppAction::SetStatus(prefixed("TVmaze: ", e.as_str())));
        },
    }
    v
}

/// The answer to a disc search: the discs found, or a status giving the error.
pub fn discs_found(outcome: Result<Vec<DvdSearchResult>, String>) -> (r: Vec<AppAction>)
    ensures
        match outcome {
            Ok(results) => r@ == seq![AppAction::SetDvdResults(results)],
            Err(e) => r@.len() == 1 && (r@[0] matches AppAction::SetStatus(s) && s@ == "DVDCompare: "@ + e@),
        },
{
    let mut v: Vec<AppAction> = Vec::new();
    match outcome {
        Ok(results) => {
            v.push(AppAction::SetDvdResults(results));
        },
        Err(e) => {
            v.push(AppAction::SetStatus(prefixed("DVDCompare: ", e.as_str())));
        },
    }
    v
}

/// Episodes asked for, with the season box holding `season_text`: nothing unless a show is
/// selected; otherwise the show, the season when the text is a number, and a status saying
/// the episodes are loading.
pub fn episodes_requested(st: &AppState, season_text: &str) -> (r: Option<(u64, Option<u64>, Vec<AppAction>)>)
    ensures
        match r {
            None => st.selected_show is None,
            Some((show, season, v)) => {
                &&& st.selected_show == Some(show)
                &&& season == parsed_u64(season_text@)
                &&& v@.len() == 1
                &&& v@[0] matches AppAction::SetStatus(s) && s@ == "Loading episodes..."@
            },
        },
{
    match st.selected_show {
        None => None,
        Some(show) => {
            let mut v: Vec<AppAction> = Vec::new();
            v.push(status("Loading episodes..."));
            Some((show, parse_u64(season_text), v))
        },
    }
}

/// The answer to an episode request: the episodes, shown on their tab, with a cleared status;
/// or a status giving the error.
pub fn episodes_found(outcome: Result<Vec<EpisodeResult>, String>) -> (r: Vec<AppAction>)
    ensures
        match outcome {
            Ok(eps) => {
                &&& r@.len() == 3
                &&& r@[0] == AppAction::SetEpisodes(eps)
                &&& r@[1] == AppAction::SetActiveTab(ActiveTab::Episodes)
                &&& r@[2] matches AppAction::SetStatus(s) && s@.len() == 0
            },
            Err(e) => r@.len() == 1 && (r@[0] matches AppAction::SetStatus(s) && s@ == "Episodes error: "@ + e@),
        },
{
    let mut v: Vec<AppAction> = Vec::new();
    match outcome {
        Ok(eps) => {
            v.push(AppAction::SetEpisodes(eps));
            v.push(AppAction::SetActiveTab(ActiveTab::Episodes));
            v.push(AppAction::SetStatus(String::new()));
        },
        Err(e) => {
            v.push(AppAction::SetStatus(prefixed("Episodes error: ", e.as_str())));
        },
    }
    v
}

/// A disc chosen: it is selected and the features tab shown (and its features are to be
/// fetched).
pub fn disc_chosen(compid: &str) -> (r: Vec<AppAction>)
    ensures
        r@.len() == 2,
        r@[0] matches AppAction::SelectDvd(Some(c)) && c@ == compid@,
        r@[1] == AppAction::SetActiveTab(ActiveTab::Features),
{
    let mut v: Vec<AppAction> = Vec::new();
    v.push(AppAction::SelectDvd(Some(compid.to_owned())));
    v.push(AppAction::SetActiveTab(ActiveTab::Features));
    v
}

/// The answer to a feature request: the features, or a status giving the error.
pub fn features_found(outcome: Result<Vec<DvdFeature>, String>) -> (r: Vec<AppAction>)
    ensures
        match outcome {
            Ok(features) => r@ == seq![AppAction::SetDvdFeatures(features)],
            Err(e) => r@.len() == 1 && (r@[0] matches AppAction::SetStatus(s) && s@ == "DVDCompare error: "@ + e@),
        },
{
    let mut v: Vec<AppAction> = Vec::new();
    match outcome {
        Ok(features) => {
            v.push(AppAction::SetDvdFeatures(features));
        },
        Err(e) => {
            v.push(AppAction::SetStatus(prefixed("DVDCompare error: ", e.as_str())));
        },
    }
    v
}

/// An episode clicked: the selected file, if any, is mapped to it.
pub fn episode_chosen(st: &AppState, ep: &EpisodeResult) -> (r: Vec<AppAction>)
    ensures
        match st.selected_file {
            None => r@.len() == 0,
            Some(id) => r@.len() == 1 && (r@[0] matches AppAction::SetMapping(k, m) && k@ == id@
                && m.new_name@ == ep.filename_stem@ && m.label@ == ep.label@
                && m.kind == crate::frontend::types::MappingKind::Episode),
        },
{
    let mut v: Vec<AppAction> = Vec::new();
    match &st.selected_file {
        Some(id) => {
            v.push(AppAction::SetMapping(id.clone(), episode_mapping(ep)));
        },
        None => {},
    }
    v
}

/// A disc feature clicked: the selected file, if any, is mapped to its title.
pub fn feature_chosen(st: &AppState, title: &str) -> (r: Vec<AppAction>)
    ensures
        match st.selected_file {
            None => r@.len() == 0,
            Some(id) => r@.len() == 1 && (r@[0] matches AppAction::SetMapping(k, m) && k@ == id@
                && m.new_name@ == title@ && m.label@ == title@
                && m.kind == crate::frontend::types::MappingKind::Feature),
        },
{
    let mut v: Vec<AppAction> = Vec::new();
    match &st.selected_file {
        Some(id) => {
            v.push(AppAction::SetMapping(id.clone(), feature_mapping(title)));
        },
        None => {},
    }
    v
}

} // verus!
