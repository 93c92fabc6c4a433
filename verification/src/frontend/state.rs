//! The browser-side state and how each action changes it.
use vstd::prelude::*;
use crate::text::{opt_view, views};
use crate::backend::scan::clusters_view;
use crate::frontend::mappings::Mappings;
use crate::frontend::types::{ActiveTab, DvdFeature, DvdSearchResult, EpisodeResult, Mapping, ShowResult, SortMode, VideoFile};

verus! {

/// Everything the panels show and edit.
#[derive(Clone)]
pub struct AppState {
    pub files: Vec<VideoFile>,
    pub clusters: Vec<Vec<String>>,
    pub mappings: Mappings,
    pub selected_file: Option<String>,
    pub show_mapped: bool,
    pub sort_mode: SortMode,
    pub directory: String,
    pub active_tab: ActiveTab,
    pub tv_shows: Vec<ShowResult>,
    pub selected_show: Option<u64>,
    pub episodes: Vec<EpisodeResult>,
    pub dvd_results: Vec<DvdSearchResult>,
    pub dvd_features: Vec<DvdFeature>,
    pub selected_dvd: Option<String>,
    pub status: String,
    pub scanning: bool,
}

/// The mathematical content of an `AppState`.
#[verifier::ext_equal]
pub struct AppModel {
    pub files: Seq<VideoFile>,
    pub clusters: Seq<Seq<Seq<char>>>,
    pub mappings: Map<Seq<char>, Mapping>,
    pub selected_file: Option<Seq<char>>,
    pub show_mapped: bool,
    pub sort_mode: SortMode,
    pub directory: Seq<char>,
    pub active_tab: ActiveTab,
    pub tv_shows: Seq<ShowResult>,
    pub selected_show: Option<u64>,
    pub episodes: Seq<EpisodeResult>,
    pub dvd_results: Seq<DvdSearchResult>,
    pub dvd_features: Seq<DvdFeature>,
    pub selected_dvd: Option<Seq<char>>,
    pub status: Seq<char>,
    pub scanning: bool,
}

impl View for AppState {
    type V = AppModel;

    open spec fn view(&self) -> AppModel {
        AppModel {
            files: self.files@,
            clusters: clusters_view(self.clusters@),
            mappings: self.mappings@,
            selected_file: opt_view(self.selected_file),
            show_mapped: self.show_mapped,
            sort_mode: self.sort_mode,
            directory: self.directory@,
            active_tab: self.active_tab,
            tv_shows: self.tv_shows@,
            selected_show: self.selected_show,
            episodes: self.episodes@,
            dvd_results: self.dvd_results@,
            dvd_features: self.dvd_features@,
            selected_dvd: opt_view(self.selected_dvd),
            status: self.status@,
            scanning: self.scanning,
        }
    }
}

/// A change to the state.
pub enum AppAction {
    SetDirectory(String),
    SetScanning(bool),
    SetStatus(String),
    ScanComplete { files: Vec<VideoFile>, clusters: Vec<Vec<String>>, directory: String },
    SelectFile(Option<String>),
    SetMapping(String, Mapping),
    UnmapFile(String),
    ToggleShowMapped,
    SetSortMode(SortMode),
    SetActiveTab(ActiveTab),
    SetTvShows(Vec<ShowResult>),
    SelectShow(Option<u64>),
    SetEpisodes(Vec<EpisodeResult>),
    SetDvdResults(Vec<DvdSearchResult>),
    SelectDvd(Option<String>),
    SetDvdFeatures(Vec<DvdFeature>),
    ClearAll,
}

/// The state before anything has happened.
pub open spec fn initial_model() -> AppModel {
    AppModel {
        files: Seq::empty(),
        clusters: Seq::empty(),
        mappings: Map::empty(),
        selected_file: None,
        show_mapped: false,
        sort_mode: SortMode::Path,
        directory: Seq::empty(),
        active_tab: ActiveTab::Results,
        tv_shows: Seq::empty(),
        selected_show: None,
        episodes: Seq::empty(),
        dvd_results: Seq::empty(),
        dvd_features: Seq::empty(),
        selected_dvd: None,
        status: Seq::empty(),
        scanning: false,
    }
}

/// The state after `a`, starting from `m`.
pub open spec fn reduced(m: AppModel, a: AppAction) -> AppModel {
    match a {
        AppAction::SetDirectory(dir) => AppModel { directory: dir@, ..m },
        AppAction::SetScanning(b) => AppModel { scanning: b, ..m },
        AppAction::SetStatus(msg) => AppModel { status: msg@, ..m },
        AppAction::ScanComplete { files, clusters, directory } => AppModel {
            files: files@,
            clusters: clusters_view(clusters@),
            directory: directory@,
            mappings: Map::empty(),
            selected_file: None,
            scanning: false,
            ..m
        },
        AppAction::SelectFile(id) => AppModel { selected_file: opt_view(id), ..m },
        AppAction::SetMapping(id, mapping) => AppModel { mappings: m.mappings.insert(id@, mapping), ..m },
        AppAction::UnmapFile(id) => AppModel { mappings: m.mappings.remove(id@), ..m },
        AppAction::ToggleShowMapped => AppModel { show_mapped: !m.show_mapped, ..m },
        AppAction::SetSortMode(mode) => AppModel { sort_mode: mode, ..m },
        AppAction::SetActiveTab(tab) => AppModel { active_tab: tab, ..m },
        AppAction::SetTvShows(shows) => AppModel {
            tv_shows: shows@,
            selected_show: None,
            episodes: Seq::empty(),
            ..m
        },
        AppAction::SelectShow(id) => AppModel { selected_show: id, ..m },
        AppAction::SetEpisodes(eps) => AppModel { episodes: eps@, ..m },
        AppAction::SetDvdResults(results) => AppModel {
            dvd_results: results@,
            selected_dvd: None,
            dvd_features: Seq::empty(),
            ..m
        },
        AppAction::SelectDvd(id) => AppModel { selected_dvd: opt_view(id), ..m },
        AppAction::SetDvdFeatures(features) => AppModel { dvd_features: features@, ..m },
        AppAction::ClearAll => AppModel {
            files: Seq::empty(),
            clusters: Seq::empty(),
            mappings: Map::empty(),
            selected_file: None,
            status: Seq::empty(),
            ..m
        },
    }
}

/// Index of the first cluster that holds `id`.
pub open spec fn first_cluster_with(clusters: Seq<Seq<Seq<char>>>, id: Seq<char>) -> Option<int>
    decreases clusters.len(),
{
    if clusters.len() == 0 {
        None
    } else if clusters[0].contains(id) {
        Some(0)
    } else {
        match first_cluster_with(clusters.drop_first(), id) {
            Some(c) => Some(c + 1),
            None => None,
        }
    }
}

proof fn lemma_first_cluster_with(clusters: Seq<Seq<Seq<char>>>, id: Seq<char>, c: int)
    requires
        0 <= c <= clusters.len(),
        forall|k: int| 0 <= k < c ==> !(#[trigger] clusters[k]).contains(id),
    ensures
        c < clusters.len() && clusters[c].contains(id) ==> first_cluster_with(clusters, id) == Some(c),
        c == clusters.len() ==> first_cluster_with(clusters, id) is None,
    decreases c,
{
    if c > 0 {
        let t = clusters.drop_first();
        assert forall|k: int| 0 <= k < c - 1 implies !(#[trigger] t[k]).contains(id) by {
            assert(t[k] == clusters[k + 1]);
        }
        lemma_first_cluster_with(t, id, c - 1);
    }
}

/// A cluster found for an id is one of the clusters.
pub proof fn lemma_first_cluster_with_bound(clusters: Seq<Seq<Seq<char>>>, id: Seq<char>)
    ensures
        first_cluster_with(clusters, id) matches Some(c) ==> 0 <= c < clusters.len() && clusters[c].contains(id),
    decreases clusters.len(),
{
    if clusters.len() > 0 && !clusters[0].contains(id) {
        lemma_first_cluster_with_bound(clusters.drop_first(), id);
    }
}

fn contains_id(ids: &Vec<String>, id: &str) -> (b: bool)
    ensures
        b == views(ids@).contains(id@),
{
    let mut i: usize = 0;
    while i < ids.len()
        invariant
            i <= ids@.len(),
            forall|k: int| 0 <= k < i ==> (#[trigger] ids@[k])@ != id@,
        decreases ids.len() - i,
    {
        if crate::text::str_eq(ids[i].as_str(), id) {
            assert(views(ids@)[i as int] == id@);
            return true;
        }
        i += 1;
    }
    assert forall|k: int| 0 <= k < views(ids@).len() implies views(ids@)[k] != id@ by {
        assert(views(ids@)[k] == ids@[k]@);
    }
    false
}

impl AppState {
    /// Index of the first cluster that holds the file `file_id`.
    pub fn cluster_index(&self, file_id: &str) -> (r: Option<usize>)
        ensures
            match r {
                Some(c) => first_cluster_with(self@.clusters, file_id@) == Some(c as int),
                None => first_cluster_with(self@.clusters, file_id@) is None,
            },
    {
        let ghost cl = self@.clusters;
        let mut c: usize = 0;
        while c < self.clusters.len()
            invariant
                c <= self.clusters@.len(),
                cl == clusters_view(self.clusters@),
                forall|k: int| 0 <= k < c ==> !(#[trigger] cl[k]).contains(file_id@),
            decreases self.clusters.len() - c,
        {
            assert(cl[c as int] == views(self.clusters@[c as int]@));
            if contains_id(&self.clusters[c], file_id) {
                proof {
                    lemma_first_cluster_with(cl, file_id@, c as int);
                }
                return Some(c);
            }
            c += 1;
        }
        proof {
            lemma_first_cluster_with(cl, file_id@, c as int);
        }
        None
    }

    /// The number of files with a pending rename.
    pub fn mapped_count(&self) -> (n: usize)
        ensures
            n == self@.mappings.len(),
            self@.mappings.dom().finite(),
    {
        self.mappings.len()
    }

    /// The state after `action`.
    pub fn reduce(self, action: AppAction) -> (r: AppState)
        ensures
            r@ == reduced(self@, action),
    {
        let ghost m = self@;
        let ghost a = action;
        let mut s = self;
        match action {
            AppAction::SetDirectory(dir) => s.directory = dir,
            AppAction::SetScanning(b) => s.scanning = b,
            AppAction::SetStatus(msg) => s.status = msg,
            AppAction::ScanComplete { files, clusters, directory } => {
                s.files = files;
                s.clusters = clusters;
                s.directory = directory;
                s.mappings.clear();
                s.selected_file = None;
                s.scanning = false;
            },
            AppAction::SelectFile(id) => s.selected_file = id,
            AppAction::SetMapping(id, mapping) => {
                s.mappings.insert(id, mapping);
            },
            AppAction::UnmapFile(id) => {
                s.mappings.remove(id.as_str());
            },
            AppAction::ToggleShowMapped => s.show_mapped = !s.show_mapped,
            AppAction::SetSortMode(mode) => s.sort_mode = mode,
            AppAction::SetActiveTab(tab) => s.active_tab = tab,
            AppAction::SetTvShows(shows) => {
                s.tv_shows = shows;
                s.selected_show = None;
                s.episodes.clear();
            },
            AppAction::SelectShow(id) => s.selected_show = id,
            AppAction::SetEpisodes(eps) => s.episodes = eps,
            AppAction::SetDvdResults(results) => {
                s.dvd_results = results;
                s.selected_dvd = None;
                s.dvd_features.clear();
            },
            AppAction::SelectDvd(id) => s.selected_dvd = id,
            AppAction::SetDvdFeatures(features) => s.dvd_features = features,
            AppAction::ClearAll => {
                s.files.clear();
                s.clusters.clear();
                s.mappings.clear();
                s.selected_file = None;
                s.status = String::new();
            },
        }
        assert(s@ =~= reduced(m, a));
        s
    }
}

impl Default for AppState {
    fn default() -> (r: AppState)
        ensures
            r@ == initial_model(),
    {
        let r = AppState {
            files: Vec::new(),
            clusters: Vec::new(),
            mappings: Mappings::new(),
            selected_file: None,
            show_mapped: false,
            sort_mode: SortMode::Path,
            directory: String::new(),
            active_tab: ActiveTab::Results,
            tv_shows: Vec::new(),
            selected_show: None,
            episodes: Vec::new(),
            dvd_results: Vec::new(),
            dvd_features: Vec::new(),
            selected_dvd: None,
            status: String::new(),
            scanning: false,
        };
        assert(r@ =~= initial_model());
        r
    }
}

/// After a mapping is chosen for a file, reading that file's mapping gives it back, and every
/// other file keeps the mapping (or the lack of one) it had.
pub proof fn lemma_set_mapping_then_read(m: AppModel, id: String, mapping: Mapping, other: Seq<char>)
    ensures
        reduced(m, AppAction::SetMapping(id, mapping)).mappings.contains_key(id@),
        reduced(m, AppAction::SetMapping(id, mapping)).mappings[id@] == mapping,
        other != id@ ==> (reduced(m, AppAction::SetMapping(id, mapping)).mappings.contains_key(other)
            == m.mappings.contains_key(other)),
        other != id@ && m.mappings.contains_key(other) ==> reduced(
            m,
            AppAction::SetMapping(id, mapping),
        ).mappings[other] == m.mappings[other],
{
}

/// Unmapping a file just mapped leaves the pending renames as they would be had the file
/// been unmapped in the first place.
pub proof fn lemma_set_then_unmap(m: AppModel, id: String, mapping: Mapping, id2: String)
    requires
        id2@ == id@,
    ensures
        reduced(reduced(m, AppAction::SetMapping(id, mapping)), AppAction::UnmapFile(id2)).mappings
            == m.mappings.remove(id@),
        !reduced(reduced(m, AppAction::SetMapping(id, mapping)), AppAction::UnmapFile(id2)).mappings.contains_key(id@),
{
    assert(m.mappings.insert(id@, mapping).remove(id@) =~= m.mappings.remove(id@));
}

/// Choosing a mapping for an unmapped file raises the count of pending renames by one;
/// choosing one for a mapped file leaves the count as it was.
pub proof fn lemma_set_mapping_count(m: AppModel, id: String, mapping: Mapping)
    requires
        m.mappings.dom().finite(),
    ensures
        reduced(m, AppAction::SetMapping(id, mapping)).mappings.len() == m.mappings.len() + (if m.mappings.contains_key(id@) { 0int } else { 1int }),
{
    if m.mappings.contains_key(id@) {
        assert(m.mappings.insert(id@, mapping).dom() =~= m.mappings.dom());
    }
}

/// A finished scan replaces the files, clusters and directory, and leaves no pending rename,
/// no selected file and no scan running; clearing everything empties files, clusters,
/// pending renames, selection and status.
pub proof fn lemma_resets(m: AppModel, files: Vec<VideoFile>, clusters: Vec<Vec<String>>, directory: String)
    ensures
        ({
            let r = reduced(m, AppAction::ScanComplete { files, clusters, directory });
            &&& r.files == files@
            &&& r.clusters == clusters_view(clusters@)
            &&& r.directory == directory@
            &&& r.mappings.len() == 0
            &&& r.selected_file is None
            &&& !r.scanning
        }),
        ({
            let r = reduced(m, AppAction::ClearAll);
            &&& r.files.len() == 0
            &&& r.clusters.len() == 0
            &&& r.mappings.len() == 0
            &&& r.selected_file is None
            &&& r.status.len() == 0
        }),
{
}

/// Only choosing, removing, a finished scan and clearing everything change the pending renames.
pub proof fn lemma_other_actions_keep_mappings(m: AppModel, a: AppAction)
    requires
        !(a is SetMapping || a is UnmapFile || a is ScanComplete || a is ClearAll),
    ensures
        reduced(m, a).mappings == m.mappings,
{
}

/// A new show list drops the selected show and its episodes; a new disc list drops the
/// selected disc and its features.
pub proof fn lemma_new_results_drop_selection(m: AppModel, shows: Vec<ShowResult>, results: Vec<DvdSearchResult>)
    ensures
        reduced(m, AppAction::SetTvShows(shows)).selected_show is None,
        reduced(m, AppAction::SetTvShows(shows)).episodes.len() == 0,
        reduced(m, AppAction::SetDvdResults(results)).selected_dvd is None,
        reduced(m, AppAction::SetDvdResults(results)).dvd_features.len() == 0,
{
}

} // verus!
