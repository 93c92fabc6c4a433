use mkvlabel::backend::error::AppError;
use mkvlabel::backend::dvdcompare::{check_disc_params, DiscParams};
use mkvlabel::backend::preview::{ffmpeg_preview_args, ffprobe_args, PreviewError};
use mkvlabel::backend::rename::{check_rename_request, RenameRequest};
use mkvlabel::backend::scan::not_a_directory;
use mkvlabel::backend::types::RenameMapping;

#[test]
fn preview_arguments_copy() {
    let args = ffmpeg_preview_args("30", "12", "/v/a.mkv", true);
    let expected = [
        "-hide_banner", "-ss", "30", "-i", "/v/a.mkv", "-t", "12", "-c:v", "copy", "-c:a", "aac", "-ac", "2", "-b:a",
        "192k", "-f", "mp4", "-movflags", "frag_keyframe+empty_moov+default_base_moof", "pipe:1",
    ];
    assert_eq!(args, expected.iter().map(|s| s.to_string()).collect::<Vec<_>>());
}

#[test]
fn preview_arguments_reencode() {
    let args = ffmpeg_preview_args("0.5", "20", "clip.avi", false);
    let expected = [
        "-hide_banner", "-ss", "0.5", "-i", "clip.avi", "-t", "20", "-c:v", "libx264", "-preset", "ultrafast", "-crf",
        "26", "-vf", "scale=trunc(iw/2)*2:trunc(ih/2)*2", "-c:a", "aac", "-ac", "2", "-b:a", "192k", "-f", "mp4",
        "-movflags", "frag_keyframe+empty_moov+default_base_moof", "pipe:1",
    ];
    assert_eq!(args, expected.iter().map(|s| s.to_string()).collect::<Vec<_>>());
}

#[test]
fn probe_arguments() {
    assert_eq!(
        ffprobe_args("/v/a.mkv", true),
        vec!["-v", "quiet", "-print_format", "json", "-show_format", "-show_streams", "/v/a.mkv"]
    );
    assert_eq!(ffprobe_args("/v/a.mkv", false), vec!["-v", "quiet", "-print_format", "json", "-show_streams", "/v/a.mkv"]);
}

#[test]
fn error_statuses() {
    let e = AppError::bad_request("Not a directory: /x".to_string());
    assert_eq!(e.status, 400);
    assert_eq!(e.message, "Not a directory: /x");
    assert_eq!(AppError::not_found("File not found: a".to_string()).status, 404);
    let i = AppError::internal("boom".to_string());
    assert_eq!(i.status, 500);
    assert_eq!(i.message, "boom");
}

#[test]
fn request_checks() {
    let empty = check_rename_request(&RenameRequest { mappings: Vec::new() }).unwrap();
    assert_eq!(empty.status, 400);
    assert_eq!(empty.message, "No mappings provided");
    let one = RenameRequest { mappings: vec![RenameMapping { old_path: "a".to_string(), new_name: "b".to_string() }] };
    assert!(check_rename_request(&one).is_none());
    let missing = check_disc_params(&DiscParams { compid: String::new() }).unwrap();
    assert_eq!(missing.status, 400);
    assert_eq!(missing.message, "Missing compid");
    assert!(check_disc_params(&DiscParams { compid: "1".to_string() }).is_none());
    let dir = not_a_directory("/nope");
    assert_eq!(dir.status, 400);
    assert_eq!(dir.message, "Not a directory: /nope");
}

#[test]
fn preview_error_messages() {
    assert_eq!(PreviewError::NotFound { path: "/v/a.mkv".to_string() }.message(), "File not found: /v/a.mkv");
    assert_eq!(PreviewError::Spawn { source: "denied".to_string() }.message(), "Failed to spawn ffmpeg: denied");
}
