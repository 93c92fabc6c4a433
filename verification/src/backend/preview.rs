//! The command lines of the external media tools.
use vstd::prelude::*;
use crate::text::{push_str_chars, string_from, views};

verus! {

/// Why a preview could not be started.
#[derive(Debug)]
pub enum PreviewError {
    NotFound { path: String },
    Spawn { source: String },
}

impl PreviewError {
    /// The message reported for the error.
    pub fn message(&self) -> (r: String)
        ensures
            match self {
                PreviewError::NotFound { path } => r@ == "File not found: "@ + path@,
                PreviewError::Spawn { source } => r@ == "Failed to spawn ffmpeg: "@ + source@,
            },
    {
        let mut v: Vec<char> = Vec::new();
        match self {
            PreviewError::NotFound { path } => {
                push_str_chars(&mut v, "File not found: ");
                push_str_chars(&mut v, path.as_str());
            },
            PreviewError::Spawn { source } => {
                push_str_chars(&mut v, "Failed to spawn ffmpeg: ");
                push_str_chars(&mut v, source.as_str());
            },
        }
        string_from(&v)
    }
}

/// Query that stops the preview of a file.
pub struct StopParams {
    pub path: String,
}

/// The arguments of an `ffmpeg` run that streams `duration` seconds of `path` from `start`
/// as fragmented MP4 on standard output, copying the video when `stream_copy` holds and
/// re-encoding it to H.264 (with even dimensions) otherwise, audio as stereo AAC.
pub open spec fn preview_args(start: Seq<char>, duration: Seq<char>, path: Seq<char>, stream_copy: bool) -> Seq<Seq<char>> {
    seq!["-hide_banner"@, "-ss"@, start, "-i"@, path, "-t"@, duration] + (if stream_copy {
        seq!["-c:v"@, "copy"@]
    } else {
        seq![
            "-c:v"@,
            "libx264"@,
            "-preset"@,
            "ultrafast"@,
            "-crf"@,
            "26"@,
            "-vf"@,
            "scale=trunc(iw/2)*2:trunc(ih/2)*2"@,
        ]
    }) + seq![
        "-c:a"@,
        "aac"@,
        "-ac"@,
        "2"@,
        "-b:a"@,
        "192k"@,
        "-f"@,
        "mp4"@,
        "-movflags"@,
        "frag_keyframe+empty_moov+default_base_moof"@,
        "pipe:1"@,
    ]
}

fn push_all_strs(v: &mut Vec<String>, items: &[&str])
    ensures
        views(final(v)@) == views(old(v)@) + items@.map_values(|s: &str| s@),
{
    let ghost start = views(v@);
    let mut i: usize = 0;
    while i < items.len()
        invariant
            i <= items@.len(),
            views(v@) == start + items@.map_values(|s: &str| s@).take(i as int),
        decreases items.len() - i,
    {
        let ghost before = v@;
        v.push(items[i].to_owned());
        assert(views(v@) =~= views(before).push(items@[i as int]@));
        assert(items@.map_values(|s: &str| s@).take(i + 1) =~= items@.map_values(|s: &str| s@).take(i as int).push(items@[i as int]@));
        i += 1;
    }
    assert(items@.map_values(|s: &str| s@).take(items@.len() as int) =~= items@.map_values(|s: &str| s@));
}

/// The arguments of the `ffmpeg` run of a preview (see `preview_args`).
pub fn ffmpeg_preview_args(start: &str, duration: &str, path: &str, stream_copy: bool) -> (r: Vec<String>)
    ensures
        views(r@) == preview_args(start@, duration@, path@, stream_copy),
{
    let mut v: Vec<String> = Vec::new();
    push_all_strs(&mut v, &["-hide_banner", "-ss", start, "-i", path, "-t", duration]);
    if stream_copy {
        push_all_strs(&mut v, &["-c:v", "copy"]);
    } else {
        push_all_strs(&mut v, &["-c:v", "libx264", "-preset", "ultrafast", "-crf", "26", "-vf", "scale=trunc(iw/2)*2:trunc(ih/2)*2"]);
    }
    push_all_strs(&mut v, &["-c:a", "aac", "-ac", "2", "-b:a", "192k", "-f", "mp4", "-movflags", "frag_keyframe+empty_moov+default_base_moof", "pipe:1"]);
    assert(views(v@) =~= preview_args(start@, duration@, path@, stream_copy));
    v
}

/// The arguments of an `ffprobe` run that prints the streams of `path` as JSON, and its
/// container section too when `with_format` holds.
pub open spec fn probe_args(path: Seq<char>, with_format: bool) -> Seq<Seq<char>> {
    seq!["-v"@, "quiet"@, "-print_format"@, "json"@] + (if with_format { seq!["-show_format"@] } else { Seq::empty() })
        + seq!["-show_streams"@, path]
}

/// The arguments of an `ffprobe` run (see `probe_args`).
pub fn ffprobe_args(path: &str, with_format: bool) -> (r: Vec<String>)
    ensures
        views(r@) == probe_args(path@, with_format),
{
    let mut v: Vec<String> = Vec::new();
    push_all_strs(&mut v, &["-v", "quiet", "-print_format", "json"]);
    if with_format {
        push_all_strs(&mut v, &["-show_format"]);
    }
    push_all_strs(&mut v, &["-show_streams", path]);
    assert(views(v@) =~= probe_args(path@, with_format));
    v
}

} // verus!
