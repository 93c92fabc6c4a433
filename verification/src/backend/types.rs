//! Records exchanged between the server and its clients.
use vstd::prelude::*;

verus! {

/// One audio track of a probed file.
#[derive(Clone, Debug)]
pub struct AudioStream {
    pub index: i64,
    pub codec: String,
    pub language: String,
    pub title: String,
    pub channels: i64,
}

/// One subtitle track of a probed file.
#[derive(Clone, Debug)]
pub struct SubtitleStream {
    pub index: i64,
    pub codec: String,
    pub language: String,
    pub title: String,
}

/// A video file found by a scan, with what probing it revealed.
/// The running time is held in whole microseconds.
#[derive(Clone, Debug)]
pub struct VideoFile {
    pub id: String,
    pub path: String,
    pub filename: String,
    pub stem: String,
    pub parent: String,
    pub rel_path: String,
    pub duration_us: u64,
    pub duration_fmt: String,
    pub size: u64,
    pub size_fmt: String,
    pub video_streams: usize,
    pub audio_streams: Vec<AudioStream>,
    pub subtitle_streams: Vec<SubtitleStream>,
    pub title: String,
}

/// The answer to a scan: the files, the groups of files of similar length, and the directory.
#[derive(Debug)]
pub struct ScanResponse {
    pub files: Vec<VideoFile>,
    pub clusters: Vec<Vec<String>>,
    pub directory: String,
}

/// A requested rename: the file's current path and its new name without extension.
#[derive(Debug)]
pub struct RenameMapping {
    pub old_path: String,
    pub new_name: String,
}

/// What became of one requested rename.
#[derive(Debug)]
pub struct RenameResult {
    pub old: String,
    pub new: String,
    pub success: bool,
    pub error: Option<String>,
    pub skipped: bool,
}

} // verus!
