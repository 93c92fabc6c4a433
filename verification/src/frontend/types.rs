//! Records the browser side receives from the server and keeps in its state.
use vstd::prelude::*;

verus! {

/// A video file as the server reports it; the running time is in whole microseconds.
#[derive(Clone, Debug, PartialEq)]
pub struct VideoFile {
    pub id: String,
    pub path: String,
    pub filename: String,
    pub stem: String,
    pub parent: String,
    pub rel_path: String,
    pub duration_us: u64,
    pub duration_fmt: String,
    pub size: u64,
    pub size_fmt: String,
    pub video_streams: usize,
    pub audio_streams: Vec<AudioStream>,
    pub subtitle_streams: Vec<SubtitleStream>,
    pub title: String,
}

/// One audio track.
#[derive(Clone, Debug, PartialEq)]
pub struct AudioStream {
    pub index: i64,
    pub codec: String,
    pub language: String,
    pub title: String,
    pub channels: i64,
}

/// One subtitle track.
#[derive(Clone, Debug, PartialEq)]
pub struct SubtitleStream {
    pub index: i64,
    pub codec: String,
    pub language: String,
    pub title: String,
}

/// The answer to a scan.
#[derive(Clone, Debug, PartialEq)]
pub struct ScanResponse {
    pub files: Vec<VideoFile>,
    pub clusters: Vec<Vec<String>>,
    pub directory: String,
}

/// The name a file is to be given, how it is shown, and where the name came from.
#[derive(Clone, Debug, PartialEq)]
pub struct Mapping {
    pub new_name: String,
    pub label: String,
    pub kind: MappingKind,
}

/// Where a mapping's name came from.
#[derive(PartialEq, Eq, Structural, Clone, Copy, Debug)]
pub enum MappingKind {
    Episode,
    Feature,
    Movie,
    Special,
}

/// A rename to ask the server for.
#[derive(Clone, Debug)]
pub struct RenameMapping {
    pub old_path: String,
    pub new_name: String,
}

/// What the server did with one rename.
#[derive(Clone, Debug)]
pub struct RenameResult {
    pub old: String,
    pub new: String,
    pub success: bool,
    pub skipped: Option<bool>,
    pub error: Option<String>,
}

/// A show found on TVmaze.
#[derive(Clone, Debug, PartialEq)]
pub struct ShowResult {
    pub id: u64,
    pub name: String,
    pub year: String,
    pub summary: String,
    pub source: String,
}

/// One episode of a show.
#[derive(Clone, Debug, PartialEq)]
pub struct EpisodeResult {
    pub season: u64,
    pub episode: u64,
    pub title: String,
    pub runtime: Option<u64>,
    pub airdate: String,
    pub label: String,
    pub filename_stem: String,
}

/// A film found by a movie search.
#[derive(Clone, Debug, PartialEq)]
pub struct MovieResult {
    pub id: u64,
    pub title: String,
    pub year: String,
    pub overview: String,
}

/// A disc comparison found on DVDCompare.
#[derive(Clone, Debug, PartialEq)]
pub struct DvdSearchResult {
    pub compid: String,
    pub title: String,
    pub url: String,
}

/// A feature listed for a disc, with its running times.
#[derive(Clone, Debug, PartialEq)]
pub struct DvdFeature {
    pub title: String,
    pub timecodes: Vec<String>,
}

/// How the file list is ordered.
#[derive(PartialEq, Eq, Structural, Clone, Copy, Debug)]
pub enum SortMode {
    Path,
    Duration,
    Size,
}

/// The tab shown in the metadata panel.
#[derive(PartialEq, Eq, Structural, Clone, Copy, Debug)]
pub enum ActiveTab {
    Results,
    Episodes,
    Features,
    Dvd,
}

} // verus!
